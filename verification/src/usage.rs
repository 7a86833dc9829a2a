use crate::indexer::SourceFile;
use crate::locate::{lines_fit, source_lines};
use crate::locate::concat_chars;
use crate::parser::{
    symbol_groups, symbol_records, usage_records, SymbolEntry, SymbolGroup, SymbolRecord, UsageInfo,
    UsageRecord, UsageType,
};
use crate::protocol::SymbolType;
use crate::text::{
    alphanumeric, byte_len, byte_offset, byte_offset_of, char_width, chars_to_string,
    contains_chars, find_chars, find_from, is_alphanumeric, is_first_occurrence, is_white_space,
    is_whitespace_char, lemma_byte_len_range, lemma_byte_offset_increases, lemma_find_from_none,
    lemma_leading_space, lines_of, occurs, rows, starts_with_chars, to_chars, trim, trim_start,
    trimmed,
};
use vstd::prelude::*;

verus! {

/// The words that start a definition of a symbol of kind `kind`, or of any
/// kind where none is given.
pub open spec fn definition_keywords(kind: Option<SymbolType>) -> Seq<Seq<char>> {
    match kind {
        Some(SymbolType::Function) => seq!["fn "@, "async fn "@],
        Some(SymbolType::Struct) => seq!["struct "@],
        Some(SymbolType::Enum) => seq!["enum "@],
        Some(SymbolType::Trait) => seq!["trait "@],
        None => seq!["fn "@, "async fn "@, "struct "@, "enum "@, "trait "@],
    }
}

/// What may stand before the keyword of a definition.
pub open spec fn definition_prefixes() -> Seq<Seq<char>> {
    seq![""@, "pub "@, "pub(crate) "@, "pub(super) "@]
}

/// The line, without the white space around it, holds a definition of
/// `name`: a keyword of the kind and the name, after one of the prefixes.
pub open spec fn is_definition(line: Seq<char>, name: Seq<char>, kind: Option<SymbolType>) -> bool {
    exists|i: int, j: int|
        0 <= i < definition_keywords(kind).len() && 0 <= j < definition_prefixes().len()
            && occurs(
            trim(line),
            #[trigger] definition_prefixes()[j] + #[trigger] definition_keywords(kind)[i] + name,
        )
}

/// Index of the character that starts at the byte offset `b`, if one does;
/// the length of the line for the offset of its end.
pub open spec fn char_at_byte(line: Seq<char>, b: nat) -> Option<int> {
    if exists|k: int| 0 <= k <= line.len() && byte_offset(line, k) == b {
        Some(choose|k: int| 0 <= k <= line.len() && byte_offset(line, k) == b)
    } else {
        None
    }
}

/// How `name` is used at the byte offset `pos` of `line`: as a call where
/// an opening parenthesis follows the name, white space aside; else as a
/// type where a struct or an enum is meant and the line holds `::` or `{`;
/// else as a trait where a trait is meant and the line holds `impl` or
/// `for`; else as an import where the line starts with `use`; else as a
/// reference.
pub open spec fn usage_type_at(
    line: Seq<char>,
    pos: nat,
    name: Seq<char>,
    kind: Option<SymbolType>,
) -> UsageType {
    let t = trim(line);
    let after = match char_at_byte(line, pos + byte_len(name)) {
        Some(k) => trim_start(line.skip(k)),
        None => Seq::empty(),
    };
    if after.len() > 0 && after[0] == '(' {
        UsageType::FunctionCall
    } else if (kind == Some(SymbolType::Struct) || kind == Some(SymbolType::Enum)) && (occurs(
        t,
        "::"@,
    ) || occurs(t, "{"@)) {
        UsageType::TypeUsage
    } else if kind == Some(SymbolType::Trait) && (occurs(t, "impl"@) || occurs(t, "for"@)) {
        UsageType::TraitUsage
    } else if "use "@.is_prefix_of(t) {
        UsageType::Import
    } else {
        UsageType::Reference
    }
}

/// A letter, a digit or an underscore.
pub open spec fn is_word_char(c: char) -> bool {
    alphanumeric(c) || c == '_'
}

/// No character of a word stands at index `i` of `line`.
pub open spec fn no_word_char_at(line: Seq<char>, i: int) -> bool {
    !(0 <= i < line.len()) || !is_word_char(line[i])
}

/// The occurrence of `name` at the character `k` of `line` is a word of its
/// own. The characters looked at are those whose index is the byte offset
/// before the occurrence and the byte offset after it.
pub open spec fn is_word_boundary(line: Seq<char>, name: Seq<char>, k: int) -> bool {
    let pos = byte_offset(line, k);
    (pos == 0 || no_word_char_at(line, pos - 1)) && no_word_char_at(line, (pos + byte_len(name)) as int)
}

/// The use of `name` at the character `k` of the line `line_no` of `file`.
pub open spec fn usage_at(
    name: Seq<char>,
    kind: Option<SymbolType>,
    line: Seq<char>,
    line_no: nat,
    k: int,
    file: Seq<char>,
) -> UsageRecord {
    UsageRecord {
        symbol_name: name,
        file_path: file,
        line: line_no,
        column: byte_offset(line, k),
        usage_type: usage_type_at(line, byte_offset(line, k), name, kind),
        context: trim(line),
    }
}

/// The uses of `name` in `line` from the character `from` on: each
/// occurrence that is a word of its own, unless the line is a definition of
/// the name. The search goes on one character after each occurrence.
pub open spec fn line_usages(
    name: Seq<char>,
    kind: Option<SymbolType>,
    line: Seq<char>,
    line_no: nat,
    file: Seq<char>,
    from: int,
) -> Seq<UsageRecord>
    decreases line.len() + 1 - from,
{
    match find_from(line, name, from) {
        Some(k) => if from <= k <= line.len() {
            (if is_word_boundary(line, name, k) && !is_definition(line, name, kind) {
                seq![usage_at(name, kind, line, line_no, k, file)]
            } else {
                Seq::empty()
            }) + line_usages(name, kind, line, line_no, file, k + 1)
        } else {
            Seq::empty()
        },
        None => Seq::empty(),
    }
}

/// The uses of `name` in the first `n` of `lines`, which are the lines of `file`.
pub open spec fn content_usages(
    name: Seq<char>,
    kind: Option<SymbolType>,
    lines: Seq<Seq<char>>,
    n: int,
    file: Seq<char>,
) -> Seq<UsageRecord>
    decreases n,
{
    if n <= 0 || n > lines.len() {
        Seq::empty()
    } else {
        content_usages(name, kind, lines, n - 1, file) + line_usages(
            name,
            kind,
            lines[n - 1],
            n as nat,
            file,
            0,
        )
    }
}

fn kind_is(kind: Option<SymbolType>, wanted: SymbolType) -> (r: bool)
    ensures
        r == (kind == Some(wanted)),
{
    match kind {
        Some(k) => k == wanted,
        None => false,
    }
}

/// The keywords of `definition_keywords`.
fn keywords_of(kind: Option<SymbolType>) -> (r: Vec<Vec<char>>)
    ensures
        rows(r@) == definition_keywords(kind),
{
    let mut r: Vec<Vec<char>> = Vec::new();
    let all = kind.is_none();
    if all || kind_is(kind, SymbolType::Function) {
        r.push(to_chars("fn "));
        r.push(to_chars("async fn "));
    }
    if all || kind_is(kind, SymbolType::Struct) {
        r.push(to_chars("struct "));
    }
    if all || kind_is(kind, SymbolType::Enum) {
        r.push(to_chars("enum "));
    }
    if all || kind_is(kind, SymbolType::Trait) {
        r.push(to_chars("trait "));
    }
    assert(rows(r@) =~= definition_keywords(kind));
    r
}

fn prefixes() -> (r: Vec<Vec<char>>)
    ensures
        rows(r@) == definition_prefixes(),
{
    let mut r: Vec<Vec<char>> = Vec::new();
    r.push(to_chars(""));
    r.push(to_chars("pub "));
    r.push(to_chars("pub(crate) "));
    r.push(to_chars("pub(super) "));
    assert(rows(r@) =~= definition_prefixes());
    r
}

/// See `is_definition`.
pub fn definition_line(line: &[char], name: &[char], kind: Option<SymbolType>) -> (r: bool)
    ensures
        r == is_definition(line@, name@, kind),
{
    let t = trimmed(line);
    let keywords = keywords_of(kind);
    let before = prefixes();
    let mut i: usize = 0;
    while i < keywords.len()
        invariant
            i <= keywords@.len(),
            t@ == trim(line@),
            rows(keywords@) == definition_keywords(kind),
            rows(before@) == definition_prefixes(),
            forall|a: int, b: int|
                0 <= a < i && 0 <= b < definition_prefixes().len() ==> !occurs(
                    trim(line@),
                    #[trigger] definition_prefixes()[b] + #[trigger] definition_keywords(kind)[a]
                        + name@,
                ),
        decreases keywords.len() - i,
    {
        let mut j: usize = 0;
        while j < before.len()
            invariant
                j <= before@.len(),
                i < keywords@.len(),
                t@ == trim(line@),
                rows(keywords@) == definition_keywords(kind),
                rows(before@) == definition_prefixes(),
                forall|a: int, b: int|
                    0 <= a < i && 0 <= b < definition_prefixes().len() ==> !occurs(
                        trim(line@),
                        #[trigger] definition_prefixes()[b] + #[trigger] definition_keywords(
                            kind,
                        )[a] + name@,
                    ),
                forall|b: int|
                    0 <= b < j ==> !occurs(
                        trim(line@),
                        #[trigger] definition_prefixes()[b] + definition_keywords(kind)[i as int]
                            + name@,
                    ),
            decreases before.len() - j,
        {
            assert(rows(before@)[j as int] == before@[j as int]@);
            assert(rows(keywords@)[i as int] == keywords@[i as int]@);
            let head = concat_chars(before[j].as_slice(), keywords[i].as_slice());
            let pattern = concat_chars(head.as_slice(), name);
            if contains_chars(t.as_slice(), pattern.as_slice()) {
                assert(occurs(
                    trim(line@),
                    definition_prefixes()[j as int] + definition_keywords(kind)[i as int] + name@,
                ));
                return true;
            }
            j += 1;
        }
        i += 1;
    }
    false
}

/// See `char_at_byte`.
fn char_index_at(line: &[char], b: usize) -> (r: Option<usize>)
    requires
        byte_len(line@) <= usize::MAX,
    ensures
        match r {
            Some(k) => char_at_byte(line@, b as nat) == Some(k as int) && k <= line@.len(),
            None => char_at_byte(line@, b as nat) is None,
        },
{
    let mut k: usize = 0;
    let mut at: usize = 0;
    assert(line@.take(0) =~= Seq::<char>::empty());
    while k < line.len() && at < b
        invariant
            k <= line@.len(),
            at == byte_offset(line@, k as int),
            byte_len(line@) <= usize::MAX,
            forall|j: int| 0 <= j < k ==> byte_offset(line@, j) < b,
        decreases line.len() - k,
    {
        proof {
            lemma_byte_len_range(line@, 0, k as int + 1);
            assert(line@.subrange(0, k as int + 1) == line@.take(k as int + 1));
            assert(line@.take(k as int + 1).drop_last() == line@.take(k as int));
        }
        at = at + char_width(line[k]);
        k += 1;
    }
    if at == b {
        proof {
            let c = choose|c: int| 0 <= c <= line@.len() && byte_offset(line@, c) == b;
            if c < k {
                assert(byte_offset(line@, c) < b);
            }
            if k < c {
                lemma_byte_offset_increases(line@, k as int, c);
            }
        }
        Some(k)
    } else {
        proof {
            assert forall|c: int| 0 <= c <= line@.len() implies byte_offset(line@, c) != b by {
                if c > k {
                    lemma_byte_offset_increases(line@, k as int, c);
                }
            }
        }
        None
    }
}

/// The first character after the white space at the start of `s`.
fn first_after_space(s: &[char], from: usize) -> (r: Option<char>)
    requires
        from <= s@.len(),
    ensures
        match r {
            Some(c) => trim_start(s@.skip(from as int)).len() > 0 && trim_start(
                s@.skip(from as int),
            )[0] == c,
            None => trim_start(s@.skip(from as int)).len() == 0,
        },
{
    let ghost rest = s@.skip(from as int);
    let mut i: usize = from;
    while i < s.len() && is_whitespace_char(s[i])
        invariant
            from <= i <= s@.len(),
            rest == s@.skip(from as int),
            forall|j: int| 0 <= j < i - from ==> is_white_space(rest[j]),
        decreases s.len() - i,
    {
        i += 1;
    }
    proof {
        lemma_leading_space(rest, i - from);
    }
    if i < s.len() {
        Some(s[i])
    } else {
        None
    }
}

/// See `usage_type_at`.
pub fn usage_type_of(line: &[char], pos: usize, name: &[char], kind: Option<SymbolType>) -> (r:
    UsageType)
    requires
        byte_len(line@) <= usize::MAX,
        byte_len(name@) <= usize::MAX,
    ensures
        r == usage_type_at(line@, pos as nat, name@, kind),
{
    let t = trimmed(line);
    let width = byte_offset_of(name, name.len());
    assert(name@.take(name@.len() as int) == name@);
    let after: Option<char> = if pos <= usize::MAX - width {
        match char_index_at(line, pos + width) {
            Some(k) => first_after_space(line, k),
            None => None,
        }
    } else {
        proof {
            assert forall|c: int| 0 <= c <= line@.len() implies byte_offset(line@, c) != pos
                + byte_len(name@) by {
                lemma_byte_len_range(line@, 0, c);
                assert(line@.subrange(0, c) == line@.take(c));
            }
        }
        None
    };
    match after {
        Some(c) => {
            if c == '(' {
                return UsageType::FunctionCall;
            }
        },
        None => {},
    }
    if kind_is(kind, SymbolType::Struct) || kind_is(kind, SymbolType::Enum) {
        if contains_chars(t.as_slice(), to_chars("::").as_slice()) || contains_chars(
            t.as_slice(),
            to_chars("{").as_slice(),
        ) {
            return UsageType::TypeUsage;
        }
    }
    if kind_is(kind, SymbolType::Trait) {
        if contains_chars(t.as_slice(), to_chars("impl").as_slice()) || contains_chars(
            t.as_slice(),
            to_chars("for").as_slice(),
        ) {
            return UsageType::TraitUsage;
        }
    }
    if starts_with_chars(t.as_slice(), to_chars("use ").as_slice()) {
        return UsageType::Import;
    }
    UsageType::Reference
}

fn word_char(c: char) -> (r: bool)
    ensures
        r == is_word_char(c),
{
    is_alphanumeric(c) || c == '_'
}

fn free_at(line: &[char], i: usize) -> (r: bool)
    ensures
        r == no_word_char_at(line@, i as int),
{
    if i < line.len() {
        !word_char(line[i])
    } else {
        true
    }
}

/// Appends to `out` the uses of `name` in the line `line_no` of `file`.
fn collect_line_usages(
    name: &[char],
    kind: Option<SymbolType>,
    line: &[char],
    line_no: usize,
    file: &String,
    out: &mut Vec<UsageInfo>,
)
    requires
        byte_len(line@) <= usize::MAX,
        byte_len(name@) <= usize::MAX,
    ensures
        usage_records(final(out)@) == usage_records(old(out)@) + line_usages(
            name@,
            kind,
            line@,
            line_no as nat,
            file@,
            0,
        ),
{
    let defines = definition_line(line, name, kind);
    let width = byte_offset_of(name, name.len());
    assert(name@.take(name@.len() as int) == name@);
    let ghost start = usage_records(out@);
    let ghost all = line_usages(name@, kind, line@, line_no as nat, file@, 0);
    let mut from: usize = 0;
    assert(usage_records(out@) + all =~= start + all);
    let n = line.len();
    loop
        invariant_except_break
            usage_records(out@) + line_usages(
                name@,
                kind,
                line@,
                line_no as nat,
                file@,
                from as int,
            ) == start + all,
        invariant
            from <= line@.len() + 1,
            n == line@.len(),
            byte_len(line@) <= usize::MAX,
            byte_len(name@) <= usize::MAX,
            width == byte_len(name@),
            defines == is_definition(line@, name@, kind),
        ensures
            usage_records(out@) == start + all,
        decreases line@.len() + 1 - from,
    {
        match find_chars(line, name, from) {
            None => {
                assert(usage_records(out@) + Seq::<UsageRecord>::empty() =~= usage_records(out@));
                break ;
            },
            Some(k) => {
                proof {
                    let c = choose|c: int| is_first_occurrence(line@, name@, from as int, c);
                    assert(is_first_occurrence(line@, name@, from as int, c));
                    lemma_byte_len_range(line@, k as int, k + name@.len());
                    assert(line@.subrange(k as int, k + name@.len()) == name@);
                    lemma_byte_len_range(line@, 0, k + name@.len());
                    assert(line@.subrange(0, k + name@.len()) == line@.take(k + name@.len()));
                }
                let pos = byte_offset_of(line, k);
                let before_ok = pos == 0 || free_at(line, pos - 1);
                let after_ok = free_at(line, pos + width);
                let ghost rest = line_usages(name@, kind, line@, line_no as nat, file@, k + 1);
                if before_ok && after_ok && !defines {
                    let usage_type = usage_type_of(line, pos, name, kind);
                    let ghost before = usage_records(out@);
                    let usage = UsageInfo {
                        symbol_name: chars_to_string(name),
                        file_path: file.clone(),
                        line: line_no,
                        column: pos,
                        usage_type,
                        context: chars_to_string(trimmed(line).as_slice()),
                    };
                    out.push(usage);
                    assert(usage_records(out@) =~= before.push(usage@));
                    assert(before.push(usage@) + rest =~= before + (seq![usage@] + rest));
                } else {
                    assert(Seq::<UsageRecord>::empty() + rest =~= rest);
                }
                if k == usize::MAX {
                    proof {
                        lemma_find_from_none(line@, name@, k + 1);
                        assert(rest =~= Seq::<UsageRecord>::empty());
                    }
                    assert(usage_records(out@) + Seq::<UsageRecord>::empty() =~= usage_records(
                        out@,
                    ));
                    break ;
                }
                from = k + 1;
            },
        }
    }
}

/// Appends to `out` the uses of `name` in `lines`, the lines of `file`.
pub fn collect_usages(
    name: &[char],
    kind: Option<SymbolType>,
    lines: &Vec<Vec<char>>,
    file: &String,
    out: &mut Vec<UsageInfo>,
)
    requires
        lines_fit(rows(lines@)),
        byte_len(name@) <= usize::MAX,
    ensures
        usage_records(final(out)@) == usage_records(old(out)@) + content_usages(
            name@,
            kind,
            rows(lines@),
            lines@.len() as int,
            file@,
        ),
{
    let ghost start = usage_records(out@);
    let mut i: usize = 0;
    assert(usage_records(out@) =~= start + content_usages(name@, kind, rows(lines@), 0, file@));
    while i < lines.len()
        invariant
            i <= lines@.len(),
            lines_fit(rows(lines@)),
            byte_len(name@) <= usize::MAX,
            usage_records(out@) == start + content_usages(
                name@,
                kind,
                rows(lines@),
                i as int,
                file@,
            ),
        decreases lines.len() - i,
    {
        assert(rows(lines@)[i as int] == lines@[i as int]@);
        collect_line_usages(name, kind, lines[i].as_slice(), i + 1, file, out);
        i += 1;
        assert(usage_records(out@) =~= start + content_usages(
            name@,
            kind,
            rows(lines@),
            i as int,
            file@,
        ));
    }
}

/// Whether `a` comes before `b` in the order of strings, from the index `i`
/// on: the first character in which they differ decides, and a text comes
/// before every text that it starts.
pub open spec fn text_before_from(a: Seq<char>, b: Seq<char>, i: int) -> bool
    decreases a.len() - i,
{
    if i < 0 || i >= b.len() {
        false
    } else if i >= a.len() {
        true
    } else if a[i] != b[i] {
        (a[i] as u32) < (b[i] as u32)
    } else {
        text_before_from(a, b, i + 1)
    }
}

/// Whether `a` comes before `b` in the order of strings.
pub open spec fn text_before(a: Seq<char>, b: Seq<char>) -> bool {
    text_before_from(a, b, 0)
}

/// Whether the place of `x` comes before that of `y`, or is the same: by
/// the path of the file, then by the line, then by the column.
pub open spec fn place_not_after(x: UsageRecord, y: UsageRecord) -> bool {
    text_before(x.file_path, y.file_path) || (x.file_path == y.file_path && (x.line < y.line || (
    x.line == y.line && x.column <= y.column)))
}

/// Whether `x` and `y` stand at the same place.
pub open spec fn same_place(x: UsageRecord, y: UsageRecord) -> bool {
    x.file_path == y.file_path && x.line == y.line && x.column == y.column
}

/// `s` with `x` put behind the last use whose place is not after its own.
pub open spec fn inserted(s: Seq<UsageRecord>, x: UsageRecord) -> Seq<UsageRecord>
    decreases s.len(),
{
    if s.len() == 0 {
        seq![x]
    } else if place_not_after(s.last(), x) {
        s.push(x)
    } else {
        inserted(s.drop_last(), x).push(s.last())
    }
}

/// The uses of `s` in the order of their places; uses at the same place
/// keep their order.
pub open spec fn sorted_usages(s: Seq<UsageRecord>) -> Seq<UsageRecord>
    decreases s.len(),
{
    if s.len() == 0 {
        s
    } else {
        inserted(sorted_usages(s.drop_last()), s.last())
    }
}

/// `s` without each use that stands at the place of the use kept before it.
pub open spec fn deduped(s: Seq<UsageRecord>) -> Seq<UsageRecord>
    decreases s.len(),
{
    if s.len() == 0 {
        s
    } else {
        let d = deduped(s.drop_last());
        if d.len() > 0 && same_place(d.last(), s.last()) {
            d
        } else {
            d.push(s.last())
        }
    }
}

/// Index of the first of `files`, from `from` on, that has the path `path`.
pub open spec fn file_index(files: Seq<SourceFile>, path: Seq<char>, from: int) -> Option<int>
    decreases files.len() - from,
{
    if from < 0 || from >= files.len() {
        None
    } else if files[from].path@ == path {
        Some(from)
    } else {
        file_index(files, path, from + 1)
    }
}

/// The text of the file `path` among `files`, where it was read.
pub open spec fn readable_text(files: Seq<SourceFile>, path: Seq<char>) -> Option<Seq<char>> {
    match file_index(files, path, 0) {
        Some(i) => match files[i].content {
            Some(text) => Some(text@),
            None => None,
        },
        None => None,
    }
}

/// The uses of `name` in the file in which `r` is defined.
pub open spec fn record_usages(
    r: SymbolRecord,
    name: Seq<char>,
    kind: Option<SymbolType>,
    files: Seq<SourceFile>,
) -> Seq<UsageRecord> {
    match readable_text(files, r.file_path) {
        Some(text) => content_usages(
            name,
            kind,
            lines_of(text),
            lines_of(text).len() as int,
            r.file_path,
        ),
        None => Seq::empty(),
    }
}

/// The uses of `name` in the files of the first `n` of `rs`, file by file.
pub open spec fn records_usages(
    rs: Seq<SymbolRecord>,
    n: int,
    name: Seq<char>,
    kind: Option<SymbolType>,
    files: Seq<SourceFile>,
) -> Seq<UsageRecord>
    decreases n,
{
    if n <= 0 || n > rs.len() {
        Seq::empty()
    } else {
        records_usages(rs, n - 1, name, kind, files) + record_usages(rs[n - 1], name, kind, files)
    }
}

/// The uses of `name` in the files of the records of the first `n` groups.
pub open spec fn groups_usages(
    gs: Seq<SymbolGroup>,
    n: int,
    name: Seq<char>,
    kind: Option<SymbolType>,
    files: Seq<SourceFile>,
) -> Seq<UsageRecord>
    decreases n,
{
    if n <= 0 || n > gs.len() {
        Seq::empty()
    } else {
        groups_usages(gs, n - 1, name, kind, files) + records_usages(
            gs[n - 1].records,
            gs[n - 1].records.len() as int,
            name,
            kind,
            files,
        )
    }
}

/// The uses of `name` in the files in which a symbol is defined: in the
/// order of their places, one for each place.
pub open spec fn found_usages(
    gs: Seq<SymbolGroup>,
    name: Seq<char>,
    kind: Option<SymbolType>,
    files: Seq<SourceFile>,
) -> Seq<UsageRecord> {
    deduped(sorted_usages(groups_usages(gs, gs.len() as int, name, kind, files)))
}

/// The order of strings is strict: of two texts at most one comes before
/// the other, and none before itself.
pub proof fn lemma_text_order_strict(a: Seq<char>, b: Seq<char>, i: int)
    requires
        0 <= i,
        text_before_from(a, b, i),
    ensures
        !text_before_from(b, a, i),
        a != b,
    decreases a.len() - i,
{
    if i < a.len() && i < b.len() && a[i] == b[i] {
        lemma_text_order_strict(a, b, i + 1);
    }
}

/// Of two different texts one comes before the other.
pub proof fn lemma_text_order_total(a: Seq<char>, b: Seq<char>, i: int)
    requires
        0 <= i <= a.len(),
        i <= b.len(),
        forall|j: int| 0 <= j < i ==> a[j] == b[j],
        a != b,
    ensures
        text_before_from(a, b, i) || text_before_from(b, a, i),
    decreases a.len() - i,
{
    if i == a.len() && i == b.len() {
        assert(a =~= b);
    } else if i < a.len() && i < b.len() {
        if a[i] == b[i] {
            lemma_text_order_total(a, b, i + 1);
        } else {
            vstd::utf8::char_u32_cast(a[i], a[i] as u32);
            vstd::utf8::char_u32_cast(b[i], b[i] as u32);
        }
    }
}

/// What comes before a text comes before every text that the text comes before.
pub proof fn lemma_text_order_transitive(a: Seq<char>, b: Seq<char>, c: Seq<char>, i: int)
    requires
        0 <= i,
        text_before_from(a, b, i),
        text_before_from(b, c, i),
    ensures
        text_before_from(a, c, i),
    decreases a.len() - i,
{
    if i < a.len() && a[i] == b[i] && b[i] == c[i] {
        lemma_text_order_transitive(a, b, c, i + 1);
    }
}

/// The order of places is total and transitive, and two uses of which
/// neither comes after the other stand at the same place.
pub proof fn lemma_place_order(x: UsageRecord, y: UsageRecord, z: UsageRecord)
    ensures
        place_not_after(x, y) || place_not_after(y, x),
        place_not_after(x, y) && place_not_after(y, z) ==> place_not_after(x, z),
        place_not_after(x, y) && place_not_after(y, x) <==> same_place(x, y),
{
    if x.file_path != y.file_path {
        lemma_text_order_total(x.file_path, y.file_path, 0);
    }
    if text_before(x.file_path, y.file_path) {
        lemma_text_order_strict(x.file_path, y.file_path, 0);
        if text_before(y.file_path, z.file_path) {
            lemma_text_order_transitive(x.file_path, y.file_path, z.file_path, 0);
        }
    }
    if text_before(y.file_path, x.file_path) {
        lemma_text_order_strict(y.file_path, x.file_path, 0);
    }
    if text_before(y.file_path, z.file_path) {
        lemma_text_order_strict(y.file_path, z.file_path, 0);
    }
}

/// No use of `s` stands after a later one.
pub open spec fn in_order(s: Seq<UsageRecord>) -> bool {
    forall|i: int, j: int| 0 <= i < j < s.len() ==> place_not_after(s[i], s[j])
}

/// No use of `s` stands after a later one, nor at the place of another.
pub open spec fn in_strict_order(s: Seq<UsageRecord>) -> bool {
    forall|i: int, j: int|
        0 <= i < j < s.len() ==> place_not_after(s[i], s[j]) && !same_place(s[i], s[j])
}

proof fn lemma_inserted(s: Seq<UsageRecord>, x: UsageRecord)
    requires
        in_order(s),
    ensures
        in_order(inserted(s, x)),
        inserted(s, x).len() == s.len() + 1,
        forall|i: int|
            0 <= i < inserted(s, x).len() ==> (#[trigger] inserted(s, x)[i]) == x || exists|j: int|
                0 <= j < s.len() && s[j] == inserted(s, x)[i],
    decreases s.len(),
{
    let out = inserted(s, x);
    if s.len() == 0 {
    } else if place_not_after(s.last(), x) {
        assert forall|i: int, j: int| 0 <= i < j < out.len() implies place_not_after(
            out[i],
            out[j],
        ) by {
            if j == s.len() {
                if i < s.len() - 1 {
                    lemma_place_order(s[i], s.last(), x);
                }
            }
        }
        assert forall|i: int| 0 <= i < out.len() implies (#[trigger] out[i]) == x || exists|
            j: int,
        | 0 <= j < s.len() && s[j] == out[i] by {
            if i < s.len() {
                assert(s[i] == out[i]);
            }
        }
    } else {
        let init = s.drop_last();
        assert(in_order(init)) by {
            assert forall|i: int, j: int| 0 <= i < j < init.len() implies place_not_after(
                init[i],
                init[j],
            ) by {
                assert(init[i] == s[i] && init[j] == s[j]);
            }
        }
        lemma_inserted(init, x);
        let mid = inserted(init, x);
        lemma_place_order(s.last(), x, x);
        assert forall|i: int| 0 <= i < out.len() implies (#[trigger] out[i]) == x || exists|
            j: int,
        | 0 <= j < s.len() && s[j] == out[i] by {
            if i < mid.len() {
                if mid[i] != x {
                    let j = choose|j: int| 0 <= j < init.len() && init[j] == mid[i];
                    assert(s[j] == out[i]);
                }
            } else {
                assert(s[s.len() - 1] == out[i]);
            }
        }
        assert forall|i: int, j: int| 0 <= i < j < out.len() implies place_not_after(
            out[i],
            out[j],
        ) by {
            if j == mid.len() {
                if mid[i] != x {
                    let k = choose|k: int| 0 <= k < init.len() && init[k] == mid[i];
                    assert(place_not_after(s[k], s[s.len() - 1]));
                }
            } else {
                assert(out[i] == mid[i] && out[j] == mid[j]);
            }
        }
    }
}

proof fn lemma_sorted_usages(s: Seq<UsageRecord>)
    ensures
        in_order(sorted_usages(s)),
    decreases s.len(),
{
    if s.len() > 0 {
        lemma_sorted_usages(s.drop_last());
        lemma_inserted(sorted_usages(s.drop_last()), s.last());
    }
}

proof fn lemma_deduped(s: Seq<UsageRecord>)
    requires
        in_order(s),
    ensures
        in_strict_order(deduped(s)),
        s.len() > 0 ==> deduped(s).len() > 0 && same_place(deduped(s).last(), s.last()),
        forall|i: int|
            0 <= i < deduped(s).len() ==> exists|j: int|
                0 <= j < s.len() && s[j] == #[trigger] deduped(s)[i],
    decreases s.len(),
{
    if s.len() > 0 {
        let init = s.drop_last();
        assert(in_order(init)) by {
            assert forall|i: int, j: int| 0 <= i < j < init.len() implies place_not_after(
                init[i],
                init[j],
            ) by {
                assert(init[i] == s[i] && init[j] == s[j]);
            }
        }
        lemma_deduped(init);
        let d = deduped(init);
        let out = deduped(s);
        let last = s.last();
        assert forall|i: int| 0 <= i < out.len() implies exists|j: int|
            0 <= j < s.len() && s[j] == #[trigger] out[i] by {
            if i < d.len() {
                let j = choose|j: int| 0 <= j < init.len() && init[j] == d[i];
                assert(s[j] == out[i]);
            } else {
                assert(s[s.len() - 1] == out[i]);
            }
        }
        if d.len() > 0 && same_place(d.last(), last) {
        } else {
            assert forall|i: int, j: int| 0 <= i < j < out.len() implies place_not_after(
                out[i],
                out[j],
            ) && !same_place(out[i], out[j]) by {
                if j == d.len() {
                    let k = choose|k: int| 0 <= k < init.len() && init[k] == d[i];
                    assert(place_not_after(s[k], s[s.len() - 1]));
                    if same_place(d[i], last) {
                        lemma_place_order(d[i], last, last);
                        lemma_place_order(d.last(), last, d[i]);
                        let m = choose|m: int| 0 <= m < init.len() && init[m] == d.last();
                        assert(place_not_after(s[m], s[s.len() - 1]));
                        lemma_place_order(d[i], d.last(), last);
                    }
                } else {
                    assert(out[i] == d[i] && out[j] == d[j]);
                }
            }
        }
    }
}

/// The uses found stand in the order of their places, and no two of them
/// stand at the same place.
pub proof fn lemma_found_usages_ordered(
    gs: Seq<SymbolGroup>,
    name: Seq<char>,
    kind: Option<SymbolType>,
    files: Seq<SourceFile>,
)
    ensures
        in_strict_order(found_usages(gs, name, kind, files)),
{
    let all = groups_usages(gs, gs.len() as int, name, kind, files);
    lemma_sorted_usages(all);
    lemma_deduped(sorted_usages(all));
}

/// See `text_before`.
pub fn text_is_before(a: &String, b: &String) -> (r: bool)
    ensures
        r == text_before(a@, b@),
{
    let x = to_chars(a.as_str());
    let y = to_chars(b.as_str());
    let mut i: usize = 0;
    while i < x.len() && i < y.len()
        invariant
            i <= x@.len(),
            i <= y@.len(),
            x@ == a@,
            y@ == b@,
            text_before(a@, b@) == text_before_from(a@, b@, i as int),
        decreases x.len() - i,
    {
        if x[i] != y[i] {
            let p: u32 = x[i] as u32;
            let q: u32 = y[i] as u32;
            return p < q;
        }
        i += 1;
    }
    i < y.len()
}

fn not_after(x: &UsageInfo, y: &UsageInfo) -> (r: bool)
    ensures
        r == place_not_after(x@, y@),
{
    if text_is_before(&x.file_path, &y.file_path) {
        true
    } else if x.file_path == y.file_path {
        x.line < y.line || (x.line == y.line && x.column <= y.column)
    } else {
        false
    }
}

fn at_same_place(x: &UsageInfo, y: &UsageInfo) -> (r: bool)
    ensures
        r == same_place(x@, y@),
{
    x.file_path == y.file_path && x.line == y.line && x.column == y.column
}

fn insert_usage(out: &mut Vec<UsageInfo>, x: UsageInfo)
    ensures
        usage_records(final(out)@) == inserted(usage_records(old(out)@), x@),
{
    let ghost s = usage_records(out@);
    let mut p: usize = out.len();
    assert(s.take(p as int) == s);
    assert(inserted(s, x@) =~= inserted(s.take(p as int), x@) + s.skip(p as int));
    while p > 0 && !not_after(&out[p - 1], &x)
        invariant
            p <= out@.len(),
            out@ == old(out)@,
            s == usage_records(out@),
            inserted(s, x@) == inserted(s.take(p as int), x@) + s.skip(p as int),
        decreases p,
    {
        assert(s.take(p as int).drop_last() == s.take(p as int - 1));
        assert(s.take(p as int).last() == s[p as int - 1]);
        assert(inserted(s.take(p as int - 1), x@).push(s[p as int - 1]) + s.skip(p as int)
            =~= inserted(s.take(p as int - 1), x@) + s.skip(p as int - 1));
        p -= 1;
    }
    proof {
        if p > 0 {
            assert(s.take(p as int).last() == s[p as int - 1]);
        }
        assert(inserted(s.take(p as int), x@) == s.take(p as int).push(x@));
    }
    out.insert(p, x);
    assert(usage_records(out@) =~= s.take(p as int).push(x@) + s.skip(p as int));
}

/// See `sorted_usages`.
pub fn sort_usages(all: &Vec<UsageInfo>) -> (r: Vec<UsageInfo>)
    ensures
        usage_records(r@) == sorted_usages(usage_records(all@)),
{
    let ghost s = usage_records(all@);
    let mut out: Vec<UsageInfo> = Vec::new();
    let mut i: usize = 0;
    assert(usage_records(out@) =~= sorted_usages(s.take(0)));
    while i < all.len()
        invariant
            i <= all@.len(),
            s == usage_records(all@),
            usage_records(out@) == sorted_usages(s.take(i as int)),
        decreases all.len() - i,
    {
        assert(s.take(i as int + 1).drop_last() == s.take(i as int));
        insert_usage(&mut out, all[i].clone());
        i += 1;
    }
    assert(s.take(s.len() as int) == s);
    out
}

/// See `deduped`.
pub fn dedup_usages(all: &Vec<UsageInfo>) -> (r: Vec<UsageInfo>)
    ensures
        usage_records(r@) == deduped(usage_records(all@)),
{
    let ghost s = usage_records(all@);
    let mut out: Vec<UsageInfo> = Vec::new();
    let mut i: usize = 0;
    assert(usage_records(out@) =~= deduped(s.take(0)));
    while i < all.len()
        invariant
            i <= all@.len(),
            s == usage_records(all@),
            usage_records(out@) == deduped(s.take(i as int)),
        decreases all.len() - i,
    {
        assert(s.take(i as int + 1).drop_last() == s.take(i as int));
        let keep = if out.len() == 0 {
            true
        } else {
            assert(usage_records(out@).last() == out@[out@.len() - 1]@);
            !at_same_place(&out[out.len() - 1], &all[i])
        };
        if keep {
            let ghost before = usage_records(out@);
            let copy = all[i].clone();
            out.push(copy);
            assert(usage_records(out@) =~= before.push(copy@));
        }
        i += 1;
    }
    assert(s.take(s.len() as int) == s);
    out
}

fn text_of<'a>(files: &'a Vec<SourceFile>, path: &String) -> (r: Option<&'a String>)
    ensures
        match r {
            Some(text) => readable_text(files@, path@) == Some(text@),
            None => readable_text(files@, path@) is None,
        },
{
    let mut i: usize = 0;
    while i < files.len()
        invariant
            i <= files@.len(),
            file_index(files@, path@, 0) == file_index(files@, path@, i as int),
        decreases files.len() - i,
    {
        if files[i].path == *path {
            return match &files[i].content {
                Some(text) => Some(text),
                None => None,
            };
        }
        i += 1;
    }
    None
}

/// Appends to `out` the uses of `name` in the files in which the symbols of
/// `groups` are defined, file by file. See `groups_usages`.
pub fn collect_all_usages(
    groups: &Vec<SymbolEntry>,
    name: &str,
    kind: Option<SymbolType>,
    files: &Vec<SourceFile>,
) -> (out: Vec<UsageInfo>)
    ensures
        usage_records(out@) == groups_usages(
            symbol_groups(groups@),
            groups@.len() as int,
            name@,
            kind,
            files@,
        ),
{
    let chars = to_chars(name);
    let ghost gs = symbol_groups(groups@);
    let mut out: Vec<UsageInfo> = Vec::new();
    let mut i: usize = 0;
    assert(usage_records(out@) =~= groups_usages(gs, 0, name@, kind, files@));
    while i < groups.len()
        invariant
            i <= groups@.len(),
            gs == symbol_groups(groups@),
            chars@ == name@,
            byte_len(chars@) <= usize::MAX,
            usage_records(out@) == groups_usages(gs, i as int, name@, kind, files@),
        decreases groups.len() - i,
    {
        let records = &groups[i].symbols;
        let ghost rs = symbol_records(records@);
        let ghost start = usage_records(out@);
        let mut k: usize = 0;
        assert(usage_records(out@) =~= start + records_usages(rs, 0, name@, kind, files@));
        while k < records.len()
            invariant
                k <= records@.len(),
                rs == symbol_records(records@),
                chars@ == name@,
                byte_len(chars@) <= usize::MAX,
                usage_records(out@) == start + records_usages(rs, k as int, name@, kind, files@),
            decreases records.len() - k,
        {
            let ghost before = usage_records(out@);
            assert(rs[k as int] == records@[k as int]@);
            match text_of(files, &records[k].file_path) {
                Some(text) => {
                    let lines = source_lines(text.as_str());
                    collect_usages(chars.as_slice(), kind, &lines, &records[k].file_path, &mut out);
                },
                None => {
                    assert(usage_records(out@) =~= before + Seq::<UsageRecord>::empty());
                },
            }
            k += 1;
            assert(usage_records(out@) =~= start + records_usages(
                rs,
                k as int,
                name@,
                kind,
                files@,
            ));
        }
        i += 1;
        assert(usage_records(out@) =~= groups_usages(gs, i as int, name@, kind, files@));
    }
    out
}

} // verus!
