use crate::text::{
    byte_len, byte_offset, byte_offset_of, chars_to_string, contains_chars, find, find_chars,
    lemma_lines_byte_len, lines_of, occurs, rows, split_lines, to_chars, trim, trimmed,
};
use vstd::prelude::*;

verus! {

/// The byte length of every line fits in `usize`.
pub open spec fn lines_fit(lines: Seq<Seq<char>>) -> bool {
    forall|i: int| 0 <= i < lines.len() ==> byte_len(#[trigger] lines[i]) <= usize::MAX
}

/// The lines of `content`, ready to be searched.
pub fn source_lines(content: &str) -> (lines: Vec<Vec<char>>)
    ensures
        rows(lines@) == lines_of(content@),
        lines_fit(rows(lines@)),
{
    let chars = to_chars(content);
    let lines = split_lines(chars.as_slice());
    proof {
        lemma_lines_byte_len(content@, 0);
    }
    lines
}

/// The keyword, a space and the name.
pub open spec fn declaration_head(keyword: Seq<char>, name: Seq<char>) -> Seq<char> {
    keyword + " "@ + name
}

/// The text before the keyword in each form of a declaration that is looked
/// for, in the order in which the forms are tried.
pub open spec fn declaration_prefixes() -> Seq<Seq<char>> {
    seq![""@, "pub "@, "pub(crate) "@, "pub(super) "@, "async "@, "pub async "@]
}

/// The line, without the white space around it, holds one of the forms of a
/// declaration of `name` with `keyword`.
pub open spec fn declares(line: Seq<char>, keyword: Seq<char>, name: Seq<char>) -> bool {
    exists|k: int|
        0 <= k < declaration_prefixes().len() && occurs(
            trim(line),
            #[trigger] declaration_prefixes()[k] + declaration_head(keyword, name),
        )
}

/// Index of the first line at or after `from` that declares `name`.
pub open spec fn declaration_line(
    lines: Seq<Seq<char>>,
    keyword: Seq<char>,
    name: Seq<char>,
    from: int,
) -> Option<int>
    decreases lines.len() - from,
{
    if from < 0 || from >= lines.len() {
        None
    } else if declares(lines[from], keyword, name) {
        Some(from)
    } else {
        declaration_line(lines, keyword, name, from + 1)
    }
}

/// Byte offset of the first occurrence of `needle` in `line`, or 0.
pub open spec fn column_of(line: Seq<char>, needle: Seq<char>) -> nat {
    match find(line, needle) {
        Some(c) => byte_offset(line, c),
        None => 0,
    }
}

/// Line, counted from 1, and byte column of the declaration of `name`: the
/// first line that declares it, and the first place on that line at which
/// the name stands. Line 1 and column 0 where no line declares it.
pub open spec fn symbol_location(lines: Seq<Seq<char>>, keyword: Seq<char>, name: Seq<char>) -> (
    nat,
    nat,
) {
    match declaration_line(lines, keyword, name, 0) {
        Some(i) => ((i + 1) as nat, column_of(lines[i], name)),
        None => (1, 0),
    }
}

/// The name of the function called and an opening parenthesis.
pub open spec fn call_pattern(callee: Seq<char>) -> Seq<char> {
    callee + "("@
}

/// Index of the first line at or after `from` in which `pattern` stands.
pub open spec fn line_with(lines: Seq<Seq<char>>, pattern: Seq<char>, from: int) -> Option<int>
    decreases lines.len() - from,
{
    if from < 0 || from >= lines.len() {
        None
    } else if occurs(lines[from], pattern) {
        Some(from)
    } else {
        line_with(lines, pattern, from + 1)
    }
}

/// Line, counted from 1, and byte column of a call of `callee`: the first
/// place at or after line `start_line` at which the name stands before an
/// opening parenthesis. Line `start_line` and column 0 where there is none.
pub open spec fn call_location(lines: Seq<Seq<char>>, callee: Seq<char>, start_line: nat) -> (
    nat,
    nat,
) {
    let from: int = if start_line == 0 {
        0
    } else {
        start_line - 1
    };
    match line_with(lines, call_pattern(callee), from) {
        Some(i) => ((i + 1) as nat, column_of(lines[i], call_pattern(callee))),
        None => (start_line, 0),
    }
}

/// Line `line`, counted from 1, without the white space around it; empty
/// where there is no such line.
pub open spec fn line_context(lines: Seq<Seq<char>>, line: nat) -> Seq<char> {
    if 0 < line <= lines.len() {
        trim(lines[line - 1])
    } else {
        Seq::empty()
    }
}

/// `a` followed by `b`.
pub fn concat_chars(a: &[char], b: &[char]) -> (v: Vec<char>)
    ensures
        v@ == a@ + b@,
{
    let mut v: Vec<char> = Vec::new();
    v.extend_from_slice(a);
    v.extend_from_slice(b);
    assert(v@ =~= a@ + b@);
    v
}

/// The forms of a declaration of `name` with `keyword`.
fn declaration_forms(keyword: &[char], name: &[char]) -> (forms: Vec<Vec<char>>)
    ensures
        forms@.len() == declaration_prefixes().len(),
        forall|k: int|
            0 <= k < forms@.len() ==> (#[trigger] forms@[k])@ == declaration_prefixes()[k]
                + declaration_head(keyword@, name@),
{
    let space = to_chars(" ");
    let kw = concat_chars(keyword, space.as_slice());
    let head = concat_chars(kw.as_slice(), name);
    let mut forms: Vec<Vec<char>> = Vec::new();
    forms.push(concat_chars(to_chars("").as_slice(), head.as_slice()));
    forms.push(concat_chars(to_chars("pub ").as_slice(), head.as_slice()));
    forms.push(concat_chars(to_chars("pub(crate) ").as_slice(), head.as_slice()));
    forms.push(concat_chars(to_chars("pub(super) ").as_slice(), head.as_slice()));
    forms.push(concat_chars(to_chars("async ").as_slice(), head.as_slice()));
    forms.push(concat_chars(to_chars("pub async ").as_slice(), head.as_slice()));
    forms
}

/// Whether `line` holds one of `forms` once the white space around it is
/// taken off.
fn line_declares(line: &[char], forms: &Vec<Vec<char>>, Ghost(keyword): Ghost<Seq<char>>, Ghost(
    name,
): Ghost<Seq<char>>) -> (r: bool)
    requires
        forms@.len() == declaration_prefixes().len(),
        forall|k: int|
            0 <= k < forms@.len() ==> (#[trigger] forms@[k])@ == declaration_prefixes()[k]
                + declaration_head(keyword, name),
    ensures
        r == declares(line@, keyword, name),
{
    let t = trimmed(line);
    let mut k: usize = 0;
    while k < forms.len()
        invariant
            k <= forms@.len(),
            t@ == trim(line@),
            forms@.len() == declaration_prefixes().len(),
            forall|j: int|
                0 <= j < forms@.len() ==> (#[trigger] forms@[j])@ == declaration_prefixes()[j]
                    + declaration_head(keyword, name),
            forall|j: int|
                0 <= j < k ==> !occurs(
                    trim(line@),
                    #[trigger] declaration_prefixes()[j] + declaration_head(keyword, name),
                ),
        decreases forms.len() - k,
    {
        if contains_chars(t.as_slice(), forms[k].as_slice()) {
            assert(occurs(
                trim(line@),
                declaration_prefixes()[k as int] + declaration_head(keyword, name),
            ));
            return true;
        }
        k += 1;
    }
    false
}

/// Byte offset of the first occurrence of `needle` in `line`, or 0.
fn column_in(line: &[char], needle: &[char]) -> (c: usize)
    requires
        byte_len(line@) <= usize::MAX,
    ensures
        c == column_of(line@, needle@),
{
    match find_chars(line, needle, 0) {
        Some(i) => byte_offset_of(line, i),
        None => 0,
    }
}

/// See `symbol_location`.
pub fn locate_symbol(lines: &Vec<Vec<char>>, keyword: &[char], name: &[char]) -> (r: (usize, usize))
    requires
        lines_fit(rows(lines@)),
    ensures
        (r.0 as nat, r.1 as nat) == symbol_location(rows(lines@), keyword@, name@),
{
    let forms = declaration_forms(keyword, name);
    let mut i: usize = 0;
    while i < lines.len()
        invariant
            i <= lines@.len(),
            lines_fit(rows(lines@)),
            forms@.len() == declaration_prefixes().len(),
            forall|k: int|
                0 <= k < forms@.len() ==> (#[trigger] forms@[k])@ == declaration_prefixes()[k]
                    + declaration_head(keyword@, name@),
            declaration_line(rows(lines@), keyword@, name@, 0) == declaration_line(
                rows(lines@),
                keyword@,
                name@,
                i as int,
            ),
        decreases lines.len() - i,
    {
        assert(rows(lines@)[i as int] == lines@[i as int]@);
        if line_declares(lines[i].as_slice(), &forms, Ghost(keyword@), Ghost(name@)) {
            let col = column_in(lines[i].as_slice(), name);
            return (i + 1, col);
        }
        i += 1;
    }
    (1, 0)
}

/// See `call_location`.
pub fn locate_call(lines: &Vec<Vec<char>>, callee: &[char], start_line: usize) -> (r: (
    usize,
    usize,
))
    requires
        lines_fit(rows(lines@)),
    ensures
        (r.0 as nat, r.1 as nat) == call_location(rows(lines@), callee@, start_line as nat),
{
    let pattern = concat_chars(callee, to_chars("(").as_slice());
    let from: usize = if start_line == 0 {
        0
    } else {
        start_line - 1
    };
    let mut i: usize = from;
    while i < lines.len()
        invariant
            from <= i,
            from == if start_line == 0 {
                0
            } else {
                start_line - 1
            },
            lines_fit(rows(lines@)),
            pattern@ == call_pattern(callee@),
            line_with(rows(lines@), pattern@, from as int) == line_with(
                rows(lines@),
                pattern@,
                i as int,
            ),
        decreases lines.len() - i,
    {
        assert(rows(lines@)[i as int] == lines@[i as int]@);
        if contains_chars(lines[i].as_slice(), pattern.as_slice()) {
            let col = column_in(lines[i].as_slice(), pattern.as_slice());
            return (i + 1, col);
        }
        i += 1;
    }
    (start_line, 0)
}

/// See `line_context`.
pub fn context_of(lines: &Vec<Vec<char>>, line: usize) -> (r: String)
    ensures
        r@ == line_context(rows(lines@), line as nat),
{
    if line > 0 && line <= lines.len() {
        assert(rows(lines@)[line - 1] == lines@[line - 1]@);
        let t = trimmed(lines[line - 1].as_slice());
        chars_to_string(t.as_slice())
    } else {
        String::new()
    }
}

} // verus!
