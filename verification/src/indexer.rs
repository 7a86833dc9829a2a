use crate::extract::{
    declares_function, declares_none, extracted, item_record, items_calls, lemma_items_calls,
    lemma_with_items_lookup, lemma_with_items_outside, lemma_with_items_wf, texts,
};
use crate::front::{lowered, parse_items};
use crate::parser::{
    calls_outside, groups_clear_of, groups_outside, groups_wf, lemma_calls_outside,
    lemma_calls_outside_concat, lemma_groups_outside_clear, lemma_groups_outside_fixed,
    lemma_groups_outside_wf, lemma_lookup_outside, lookup, of_kind, symbol_groups, symbol_records,
    symbol_ref_records, ParserState, RustParser, SymbolEntry, SymbolGroup, SymbolInfo, SymbolRecord,
};
use crate::protocol::SymbolType;
use crate::syntax::{declaration_views, Declaration, DeclarationView};
use crate::text::{
    chars_to_string, copy_range, decimal, lines_of, matches_at, push_decimal, to_chars,
};
use vstd::prelude::*;
use vstd::string::StringExecFns;

verus! {

/// A file as it was read: its path, its text where it could be read, and a
/// mark of its last modification where one could be had.
#[derive(Debug, Clone)]
pub struct SourceFile {
    pub path: String,
    pub content: Option<String>,
    pub modified: Option<u64>,
}

/// A file, its text, and its items where the text was read and parsed.
#[derive(Debug)]
pub struct ParsedFile {
    pub path: String,
    pub content: String,
    pub items: Option<Vec<Declaration>>,
    pub modified: Option<u64>,
}

/// What a `ParsedFile` holds.
pub struct ParsedView {
    pub path: Seq<char>,
    pub content: Seq<char>,
    pub items: Option<Seq<DeclarationView>>,
    pub modified: Option<u64>,
}

impl View for ParsedFile {
    type V = ParsedView;

    open spec fn view(&self) -> ParsedView {
        ParsedView {
            path: self.path@,
            content: self.content@,
            items: match self.items {
                Some(items) => Some(declaration_views(items@)),
                None => None,
            },
            modified: self.modified,
        }
    }
}

/// What each of `v` holds.
pub open spec fn parsed_views(v: Seq<ParsedFile>) -> Seq<ParsedView> {
    v.map_values(|p: ParsedFile| p@)
}

/// What happened to the files of an event.
#[derive(Debug, Clone, Copy, PartialEq, Eq, Structural)]
pub enum WatchEventKind {
    Create,
    Modify,
    Remove,
    Other,
}

/// A change in the watched directory.
#[derive(Debug, Clone)]
pub struct WatchEvent {
    pub kind: WatchEventKind,
    pub files: Vec<SourceFile>,
}

/// A file that was indexed, with the mark of its last modification.
#[derive(Debug, Clone)]
pub struct FileEntry {
    pub path: String,
    pub stamp: u64,
}

/// What a `FileEntry` holds.
pub struct FileMark {
    pub path: Seq<char>,
    pub stamp: u64,
}

impl View for FileEntry {
    type V = FileMark;

    open spec fn view(&self) -> FileMark {
        FileMark { path: self.path@, stamp: self.stamp }
    }
}

/// What the entries of `v` hold.
pub open spec fn file_marks(v: Seq<FileEntry>) -> Seq<FileMark> {
    v.map_values(|e: FileEntry| e@)
}

/// No file is marked twice.
pub open spec fn marks_wf(ms: Seq<FileMark>) -> bool {
    forall|i: int, j: int| 0 <= i < j < ms.len() ==> ms[i].path != ms[j].path
}

/// Index of the mark of `path`.
pub open spec fn mark_index(ms: Seq<FileMark>, path: Seq<char>) -> Option<int>
    decreases ms.len(),
{
    if ms.len() == 0 {
        None
    } else if ms.last().path == path {
        Some(ms.len() - 1)
    } else {
        mark_index(ms.drop_last(), path)
    }
}

/// `ms` with `path` marked by `stamp`, in place of an earlier mark of it.
pub open spec fn with_mark(ms: Seq<FileMark>, path: Seq<char>, stamp: u64) -> Seq<FileMark> {
    match mark_index(ms, path) {
        Some(i) => ms.update(i, FileMark { path, stamp }),
        None => ms.push(FileMark { path, stamp }),
    }
}

/// `ms` without the mark of `path`.
pub open spec fn without_mark(ms: Seq<FileMark>, path: Seq<char>) -> Seq<FileMark>
    decreases ms.len(),
{
    if ms.len() == 0 {
        ms
    } else if ms.last().path == path {
        without_mark(ms.drop_last(), path)
    } else {
        without_mark(ms.drop_last(), path).push(ms.last())
    }
}

/// The index that is found for a path is that of a mark of the path, and
/// no mark has the path where no index is found.
pub proof fn lemma_mark_index(ms: Seq<FileMark>, path: Seq<char>)
    ensures
        match mark_index(ms, path) {
            Some(i) => 0 <= i < ms.len() && ms[i].path == path,
            None => forall|i: int| 0 <= i < ms.len() ==> ms[i].path != path,
        },
    decreases ms.len(),
{
    if ms.len() > 0 && ms.last().path != path {
        lemma_mark_index(ms.drop_last(), path);
        if mark_index(ms, path) is None {
            assert forall|i: int| 0 <= i < ms.len() implies ms[i].path != path by {
                if i < ms.len() - 1 {
                    assert(ms.drop_last()[i] == ms[i]);
                }
            }
        }
    }
}

/// The marks that are left were there before, in the same order.
pub proof fn lemma_without_mark(ms: Seq<FileMark>, path: Seq<char>)
    requires
        marks_wf(ms),
    ensures
        marks_wf(without_mark(ms, path)),
        forall|i: int|
            0 <= i < without_mark(ms, path).len() ==> (#[trigger] without_mark(ms, path)[i]).path
                != path && exists|j: int| 0 <= j < ms.len() && ms[j] == without_mark(ms, path)[i],
    decreases ms.len(),
{
    if ms.len() > 0 {
        let init = ms.drop_last();
        assert(marks_wf(init)) by {
            assert forall|i: int, j: int| 0 <= i < j < init.len() implies init[i].path
                != init[j].path by {
                assert(init[i] == ms[i] && init[j] == ms[j]);
            }
        }
        lemma_without_mark(init, path);
        let rest = without_mark(init, path);
        let out = without_mark(ms, path);
        assert forall|i: int| 0 <= i < out.len() implies (#[trigger] out[i]).path != path
            && exists|j: int| 0 <= j < ms.len() && ms[j] == out[i] by {
            if i < rest.len() {
                let j = choose|j: int| 0 <= j < init.len() && init[j] == rest[i];
                assert(ms[j] == out[i]);
            } else {
                assert(ms[ms.len() - 1] == out[i]);
            }
        }
        assert forall|i: int, j: int| 0 <= i < j < out.len() implies out[i].path
            != out[j].path by {
            if j == rest.len() {
                let a = choose|a: int| 0 <= a < init.len() && init[a] == rest[i];
                assert(ms[a].path != ms[ms.len() - 1].path);
            }
        }
    }
}

/// What a `CodeIndexer` holds: the symbols and calls, the marks of the
/// files that were indexed, and whether the directory is watched.
pub struct IndexerState {
    pub parser: ParserState,
    pub files: Seq<FileMark>,
    pub watching: bool,
}

/// The groups of symbols are well formed and no file is marked twice.
pub open spec fn state_wf(s: IndexerState) -> bool {
    groups_wf(s.parser.groups) && marks_wf(s.files)
}

/// A path names a source file where it ends in `.rs` after at least one
/// character of a file name.
pub open spec fn is_source_path(path: Seq<char>) -> bool {
    let n = path.len() as int;
    n >= 4 && path.subrange(n - 3, n) == ".rs"@ && path[n - 4] != '/'
}

/// The names of the directories that are not walked into.
pub open spec fn is_skipped_directory(name: Seq<char>) -> bool {
    ||| name == ".git"@
    ||| name == "target"@
    ||| name == "node_modules"@
    ||| name == ".idea"@
    ||| name == ".vscode"@
}

/// Index of the first `/` at or after `from`, or the length of the path.
pub open spec fn part_end(path: Seq<char>, from: int) -> int
    decreases path.len() - from,
{
    if from >= path.len() {
        path.len() as int
    } else if path[from] == '/' {
        from
    } else {
        part_end(path, from + 1)
    }
}

/// One of the parts of `path` that start at or after `from` is the name
/// of a directory that is skipped. The parts are what stands between the
/// `/` of the path.
pub open spec fn has_skipped_part(path: Seq<char>, from: int) -> bool
    decreases path.len() - from,
{
    let end = part_end(path, from);
    if from < 0 || from > path.len() {
        false
    } else if is_skipped_directory(path.subrange(from, end)) {
        true
    } else {
        from <= end < path.len() && has_skipped_part(path, end + 1)
    }
}

/// A path is watched where it names a source file and none of its parts
/// is the name of a directory that is skipped.
pub open spec fn is_watched_path(path: Seq<char>) -> bool {
    is_source_path(path) && !has_skipped_part(path, 0)
}

/// What the walk of a directory does with an entry.
#[derive(Debug, Clone, Copy, PartialEq, Eq, Structural)]
pub enum EntryAction {
    /// The entry is a directory that is walked into.
    Descend,
    /// The entry is a source file that is indexed.
    Index,
    /// The entry is passed over.
    Skip,
}

/// What the walk does with the entry at `path`, whose own name is `name`:
/// a directory is walked into unless it has no name or a name that is
/// skipped, and any other entry is indexed where it is a source file.
pub open spec fn action_for(name: Option<Seq<char>>, path: Seq<char>, is_dir: bool) -> EntryAction {
    if is_dir {
        match name {
            Some(n) => if is_skipped_directory(n) {
                EntryAction::Skip
            } else {
                EntryAction::Descend
            },
            None => EntryAction::Skip,
        }
    } else if is_source_path(path) {
        EntryAction::Index
    } else {
        EntryAction::Skip
    }
}

/// `s` without what was taken from the file `path`.
pub open spec fn removed(s: IndexerState, path: Seq<char>) -> IndexerState {
    IndexerState {
        parser: ParserState {
            groups: groups_outside(s.parser.groups, path),
            calls: calls_outside(s.parser.calls, path),
        },
        files: without_mark(s.files, path),
        watching: s.watching,
    }
}

/// `s` with what the items of the file `path` declare and call, and with
/// the file marked where a mark is given.
pub open spec fn indexed(
    s: IndexerState,
    path: Seq<char>,
    items: Seq<DeclarationView>,
    content: Seq<char>,
    modified: Option<u64>,
) -> IndexerState {
    IndexerState {
        parser: extracted(s.parser, path, items, content),
        files: match modified {
            Some(stamp) => with_mark(s.files, path, stamp),
            None => s.files,
        },
        watching: s.watching,
    }
}

/// `s` after the file `f` was indexed: nothing changes unless `f` is a
/// source file that was read and parsed.
pub open spec fn indexed_file(s: IndexerState, f: ParsedView) -> IndexerState {
    if is_source_path(f.path) && f.items is Some {
        indexed(s, f.path, f.items->0, f.content, f.modified)
    } else {
        s
    }
}

/// `s` after what was known of the file `f` was taken out and `f` was indexed.
pub open spec fn reindexed_file(s: IndexerState, f: ParsedView) -> IndexerState {
    indexed_file(removed(s, f.path), f)
}

/// `s` after the first `n` of `files` were indexed in order.
pub open spec fn indexed_files(s: IndexerState, files: Seq<ParsedView>, n: int) -> IndexerState
    decreases n,
{
    if n <= 0 || n > files.len() {
        s
    } else {
        indexed_file(indexed_files(s, files, n - 1), files[n - 1])
    }
}

/// One of `rs` is defined in `file`.
pub open spec fn has_record_in(rs: Seq<SymbolRecord>, file: Seq<char>) -> bool {
    exists|k: int| 0 <= k < rs.len() && rs[k].file_path == file
}

/// The names of those of the first `n` groups that have a record defined in
/// `file`, in the order of the groups.
pub open spec fn names_in_file(gs: Seq<SymbolGroup>, file: Seq<char>, n: int) -> Seq<Seq<char>>
    decreases n,
{
    if n <= 0 || n > gs.len() {
        Seq::empty()
    } else if has_record_in(gs[n - 1].records, file) {
        names_in_file(gs, file, n - 1).push(gs[n - 1].name)
    } else {
        names_in_file(gs, file, n - 1)
    }
}

/// `acc`, then those of `names` that did not come before.
pub open spec fn merged(acc: Seq<Seq<char>>, names: Seq<Seq<char>>) -> Seq<Seq<char>>
    decreases names.len(),
{
    if names.len() == 0 {
        acc
    } else {
        let m = merged(acc, names.drop_last());
        if m.contains(names.last()) {
            m
        } else {
            m.push(names.last())
        }
    }
}

/// Merging keeps what was there, holds every name merged in, and holds no
/// name twice where none was there twice.
pub proof fn lemma_merged(acc: Seq<Seq<char>>, names: Seq<Seq<char>>)
    ensures
        forall|x: Seq<char>| acc.contains(x) ==> merged(acc, names).contains(x),
        forall|i: int| 0 <= i < names.len() ==> merged(acc, names).contains(#[trigger] names[i]),
        forall|x: Seq<char>|
            merged(acc, names).contains(x) ==> acc.contains(x) || names.contains(x),
        acc.no_duplicates() ==> merged(acc, names).no_duplicates(),
    decreases names.len(),
{
    if names.len() > 0 {
        let init = names.drop_last();
        lemma_merged(acc, init);
        let m = merged(acc, init);
        let out = merged(acc, names);
        assert forall|x: Seq<char>| acc.contains(x) implies out.contains(x) by {
            let i = choose|i: int| 0 <= i < m.len() && m[i] == x;
            assert(out[i] == x);
        }
        assert forall|i: int| 0 <= i < names.len() implies out.contains(#[trigger] names[i]) by {
            if i < init.len() {
                assert(init[i] == names[i]);
                let k = choose|k: int| 0 <= k < m.len() && m[k] == init[i];
                assert(out[k] == names[i]);
            } else if m.contains(names.last()) {
            } else {
                assert(out[m.len() as int] == names[i]);
            }
        }
        assert forall|x: Seq<char>| out.contains(x) implies acc.contains(x) || names.contains(
            x,
        ) by {
            let k = choose|k: int| 0 <= k < out.len() && out[k] == x;
            if k < m.len() {
                assert(m.contains(x));
                if init.contains(x) {
                    let j = choose|j: int| 0 <= j < init.len() && init[j] == x;
                    assert(names[j] == x);
                }
            } else {
                assert(names[names.len() - 1] == x);
            }
        }
    }
}

/// Merging in names that are all there changes nothing.
pub proof fn lemma_merged_known(acc: Seq<Seq<char>>, names: Seq<Seq<char>>)
    requires
        forall|i: int| 0 <= i < names.len() ==> acc.contains(#[trigger] names[i]),
    ensures
        merged(acc, names) == acc,
    decreases names.len(),
{
    if names.len() > 0 {
        assert(forall|i: int| 0 <= i < names.drop_last().len() ==> names.drop_last()[i] == names[i]);
        lemma_merged_known(acc, names.drop_last());
        assert(names.last() == names[names.len() - 1]);
    }
}


/// The state and the names reported after the file `f` was created or
/// changed: a watched file is indexed anew, and the names that it defined
/// before or defines now are reported, each once.
pub open spec fn after_change(s: IndexerState, names: Seq<Seq<char>>, f: ParsedView) -> (
    IndexerState,
    Seq<Seq<char>>,
) {
    if is_watched_path(f.path) {
        let next = reindexed_file(s, f);
        let before = names_in_file(s.parser.groups, f.path, s.parser.groups.len() as int);
        let after = names_in_file(next.parser.groups, f.path, next.parser.groups.len() as int);
        (next, merged(merged(names, before), after))
    } else {
        (s, names)
    }
}

/// The state and the names reported after the file `path` was removed: what
/// was taken from a watched file leaves, and the names that it defined are
/// reported.
pub open spec fn after_removal(s: IndexerState, names: Seq<Seq<char>>, path: Seq<char>) -> (
    IndexerState,
    Seq<Seq<char>>,
) {
    if is_watched_path(path) {
        (
            removed(s, path),
            names + names_in_file(s.parser.groups, path, s.parser.groups.len() as int),
        )
    } else {
        (s, names)
    }
}

/// The state and the names reported after the first `n` files of an event
/// of kind `kind` were handled in order.
pub open spec fn after_event(s: IndexerState, kind: WatchEventKind, files: Seq<ParsedView>, n: int) -> (
    IndexerState,
    Seq<Seq<char>>,
)
    decreases n,
{
    if n <= 0 || n > files.len() {
        (s, Seq::empty())
    } else {
        let prev = after_event(s, kind, files, n - 1);
        match kind {
            WatchEventKind::Create | WatchEventKind::Modify => after_change(
                prev.0,
                prev.1,
                files[n - 1],
            ),
            WatchEventKind::Remove => after_removal(prev.0, prev.1, files[n - 1].path),
            WatchEventKind::Other => prev,
        }
    }
}

/// Nothing in `s` was taken from the file `path`.
pub open spec fn clear_of(s: IndexerState, path: Seq<char>) -> bool {
    &&& groups_clear_of(s.parser.groups, path)
    &&& forall|k: int| 0 <= k < s.parser.calls.len() ==> s.parser.calls[k].caller_file != path
    &&& forall|i: int| 0 <= i < s.files.len() ==> s.files[i].path != path
}

/// Taking a file out leaves a well-formed state that holds nothing of it.
pub proof fn lemma_removed_clear(s: IndexerState, path: Seq<char>)
    requires
        state_wf(s),
    ensures
        state_wf(removed(s, path)),
        clear_of(removed(s, path), path),
{
    lemma_groups_outside_wf(s.parser.groups, path);
    lemma_groups_outside_clear(s.parser.groups, path);
    lemma_calls_outside(s.parser.calls, path);
    lemma_without_mark(s.files, path);
}

proof fn lemma_without_mark_fixed(ms: Seq<FileMark>, path: Seq<char>)
    requires
        forall|i: int| 0 <= i < ms.len() ==> ms[i].path != path,
    ensures
        without_mark(ms, path) == ms,
    decreases ms.len(),
{
    if ms.len() > 0 {
        assert(forall|i: int| 0 <= i < ms.drop_last().len() ==> ms.drop_last()[i] == ms[i]);
        lemma_without_mark_fixed(ms.drop_last(), path);
        assert(ms.drop_last().push(ms.last()) == ms);
    }
}

/// Taking a file out of a state that holds nothing of it changes nothing.
pub proof fn lemma_removed_fixed(s: IndexerState, path: Seq<char>)
    requires
        state_wf(s),
        clear_of(s, path),
    ensures
        removed(s, path) == s,
{
    lemma_groups_outside_fixed(s.parser.groups, path);
    lemma_calls_outside(s.parser.calls, path);
    lemma_without_mark_fixed(s.files, path);
}

/// Indexing a file keeps the state well formed.
pub proof fn lemma_indexed_wf(s: IndexerState, f: ParsedView)
    requires
        state_wf(s),
    ensures
        state_wf(indexed_file(s, f)),
{
    if is_source_path(f.path) && f.items is Some {
        lemma_with_items_wf(
            s.parser.groups,
            f.items->0,
            f.items->0.len() as int,
            f.path,
            lines_of(f.content),
        );
        lemma_mark_index(s.files, f.path);
    }
}

/// What indexing a file adds leaves again when the file is taken out.
pub proof fn lemma_remove_after_index(t: IndexerState, f: ParsedView)
    requires
        state_wf(t),
        clear_of(t, f.path),
    ensures
        removed(indexed_file(t, f), f.path) == t,
{
    let path = f.path;
    lemma_removed_fixed(t, path);
    if is_source_path(path) && f.items is Some {
        let items = f.items->0;
        let lines = lines_of(f.content);
        let n = items.len() as int;
        let next = indexed_file(t, f);
        lemma_with_items_outside(t.parser.groups, items, n, path, lines);
        lemma_items_calls(items, n, path, lines);
        let added = items_calls(items, n, path, lines);
        lemma_calls_outside_concat(t.parser.calls, added, path);
        lemma_calls_outside(added, path);
        assert(calls_outside(t.parser.calls, path) + calls_outside(added, path)
            =~= t.parser.calls);
        match f.modified {
            Some(stamp) => {
                lemma_mark_index(t.files, path);
                assert(t.files.push(FileMark { path, stamp }).drop_last() == t.files);
            },
            None => {},
        }
        assert(removed(next, path).parser == t.parser);
        assert(removed(next, path).files == t.files);
    }
}

/// Indexing an unchanged file anew changes nothing: after a file was taken
/// out and indexed, taking it out and indexing it once more gives the same
/// symbols, the same calls and the same marks.
pub proof fn lemma_reindex_twice(s: IndexerState, f: ParsedView)
    requires
        state_wf(s),
    ensures
        reindexed_file(reindexed_file(s, f), f) == reindexed_file(s, f),
{
    lemma_removed_clear(s, f.path);
    lemma_remove_after_index(removed(s, f.path), f);
}

/// A name that a file defined and defines no more is not found once the
/// file is indexed anew, and no call that it made from that file is left:
/// this holds of a name that no other file defines.
pub proof fn lemma_reindex_forgets(s: IndexerState, f: ParsedView, name: Seq<char>)
    requires
        state_wf(s),
        match lookup(s.parser.groups, name) {
            Some(rs) => forall|k: int| 0 <= k < rs.len() ==> rs[k].file_path == f.path,
            None => true,
        },
        f.items is Some ==> declares_none(
            f.items->0,
            f.items->0.len() as int,
            f.path,
            lines_of(f.content),
            name,
        ),
    ensures
        lookup(reindexed_file(s, f).parser.groups, name) is None,
        forall|k: int|
            0 <= k < reindexed_file(s, f).parser.calls.len() ==> !((
            #[trigger] reindexed_file(s, f).parser.calls[k]).caller == name && reindexed_file(
                s,
                f,
            ).parser.calls[k].caller_file == f.path),
{
    let path = f.path;
    let t = removed(s, path);
    let out = reindexed_file(s, f);
    lemma_lookup_outside(s.parser.groups, path, name);
    lemma_calls_outside(s.parser.calls, path);
    if is_source_path(path) && f.items is Some {
        let items = f.items->0;
        let lines = lines_of(f.content);
        let n = items.len() as int;
        lemma_with_items_lookup(t.parser.groups, items, n, path, lines, name);
        lemma_items_calls(items, n, path, lines);
        let added = items_calls(items, n, path, lines);
        assert forall|k: int| 0 <= k < out.parser.calls.len() implies !((
        #[trigger] out.parser.calls[k]).caller == name && out.parser.calls[k].caller_file
            == path) by {
            if k >= t.parser.calls.len() {
                let c = added[k - t.parser.calls.len()];
                assert(out.parser.calls[k] == c);
                if c.caller == name {
                    assert(declares_function(items, n, name));
                    let i = choose|i: int|
                        0 <= i < n && i < items.len() && (#[trigger] items[i]) is Function
                            && items[i]->Function_0.name == name;
                    assert(item_record(items[i], path, lines) is Some);
                    assert(item_record(items[i], path, lines)->0.name == name);
                }
            }
        }
    }
}

/// Under a name that is found but has no definition of a kind, asking for
/// that kind gives an empty list.
pub proof fn lemma_other_kind_is_empty(gs: Seq<SymbolGroup>, name: Seq<char>, kind: SymbolType)
    requires
        lookup(gs, name) is Some,
        forall|k: int|
            0 <= k < lookup(gs, name)->0.len() ==> (#[trigger] lookup(gs, name)->0[k]).symbol_type
                != kind,
    ensures
        of_kind(lookup(gs, name)->0, Some(kind)).len() == 0,
{
    lemma_of_kind_none(lookup(gs, name)->0, kind);
}

proof fn lemma_of_kind_none(rs: Seq<SymbolRecord>, kind: SymbolType)
    requires
        forall|k: int| 0 <= k < rs.len() ==> (#[trigger] rs[k]).symbol_type != kind,
    ensures
        of_kind(rs, Some(kind)).len() == 0,
    decreases rs.len(),
{
    if rs.len() > 0 {
        assert(forall|k: int| 0 <= k < rs.drop_last().len() ==> rs.drop_last()[k] == rs[k]);
        lemma_of_kind_none(rs.drop_last(), kind);
        assert(rs.last() == rs[rs.len() - 1]);
    }
}

/// After files were created or changed, each name is reported once,
/// however many of the files define it.
pub proof fn lemma_changed_names_unique(
    s: IndexerState,
    kind: WatchEventKind,
    files: Seq<ParsedView>,
    n: int,
)
    requires
        kind == WatchEventKind::Create || kind == WatchEventKind::Modify,
    ensures
        after_event(s, kind, files, n).1.no_duplicates(),
    decreases n,
{
    if 0 < n <= files.len() {
        lemma_changed_names_unique(s, kind, files, n - 1);
        let prev = after_event(s, kind, files, n - 1);
        let f = files[n - 1];
        if is_watched_path(f.path) {
            let next = reindexed_file(prev.0, f);
            let before = names_in_file(
                prev.0.parser.groups,
                f.path,
                prev.0.parser.groups.len() as int,
            );
            let after = names_in_file(next.parser.groups, f.path, next.parser.groups.len() as int);
            lemma_merged(prev.1, before);
            lemma_merged(merged(prev.1, before), after);
        }
    }
}

/// `n`, or the greatest `usize` where `n` is greater.
pub open spec fn capped(n: nat) -> usize {
    if n > usize::MAX {
        usize::MAX
    } else {
        n as usize
    }
}

/// How many records of kind `kind` the first `n` groups hold.
pub open spec fn count_records(gs: Seq<SymbolGroup>, kind: SymbolType, n: int) -> nat
    decreases n,
{
    if n <= 0 || n > gs.len() {
        0
    } else {
        count_records(gs, kind, n - 1) + of_kind(gs[n - 1].records, Some(kind)).len()
    }
}

/// How many records of kind `kind` there are.
pub open spec fn count_of(gs: Seq<SymbolGroup>, kind: SymbolType) -> nat {
    count_records(gs, kind, gs.len() as int)
}

/// Counts over the whole index. A count that does not fit in `usize` is
/// given as the greatest `usize`.
#[derive(Debug, Clone, Copy, PartialEq, Eq, Structural)]
pub struct IndexStats {
    pub total_symbols: usize,
    pub total_functions: usize,
    pub total_structs: usize,
    pub total_enums: usize,
    pub total_traits: usize,
    pub unique_symbol_names: usize,
    pub indexed_files_count: usize,
    pub is_watching: bool,
}

/// The counts of the state `s`.
pub open spec fn stats_of(s: IndexerState) -> IndexStats {
    let gs = s.parser.groups;
    IndexStats {
        total_symbols: capped(
            count_of(gs, SymbolType::Function) + count_of(gs, SymbolType::Struct) + count_of(
                gs,
                SymbolType::Enum,
            ) + count_of(gs, SymbolType::Trait),
        ),
        total_functions: capped(count_of(gs, SymbolType::Function)),
        total_structs: capped(count_of(gs, SymbolType::Struct)),
        total_enums: capped(count_of(gs, SymbolType::Enum)),
        total_traits: capped(count_of(gs, SymbolType::Trait)),
        unique_symbol_names: capped(gs.len()),
        indexed_files_count: capped(s.files.len()),
        is_watching: s.watching,
    }
}

/// The counts as one line of text.
pub open spec fn stats_text(stats: IndexStats) -> Seq<char> {
    "IndexStats { total_symbols: "@ + decimal(stats.total_symbols as nat) + ", functions: "@
        + decimal(stats.total_functions as nat) + ", structs: "@ + decimal(
        stats.total_structs as nat,
    ) + ", enums: "@ + decimal(stats.total_enums as nat) + ", traits: "@ + decimal(
        stats.total_traits as nat,
    ) + ", unique_names: "@ + decimal(stats.unique_symbol_names as nat) + ", files: "@ + decimal(
        stats.indexed_files_count as nat,
    ) + ", watching: "@ + (if stats.is_watching {
        "true"@
    } else {
        "false"@
    }) + " }"@
}

impl IndexStats {
    /// The counts as one line of text.
    pub fn to_text(&self) -> (r: String)
        ensures
            r@ == stats_text(*self),
    {
        let mut r = "IndexStats { total_symbols: ".to_string();
        push_decimal(&mut r, self.total_symbols);
        r.append(", functions: ");
        push_decimal(&mut r, self.total_functions);
        r.append(", structs: ");
        push_decimal(&mut r, self.total_structs);
        r.append(", enums: ");
        push_decimal(&mut r, self.total_enums);
        r.append(", traits: ");
        push_decimal(&mut r, self.total_traits);
        r.append(", unique_names: ");
        push_decimal(&mut r, self.unique_symbol_names);
        r.append(", files: ");
        push_decimal(&mut r, self.indexed_files_count);
        r.append(", watching: ");
        if self.is_watching {
            r.append("true");
        } else {
            r.append("false");
        }
        r.append(" }");
        assert(r@ =~= stats_text(*self));
        r
    }
}

/// No more records are of a kind than there are records.
pub proof fn lemma_of_kind_len(rs: Seq<SymbolRecord>, kind: Option<SymbolType>)
    ensures
        of_kind(rs, kind).len() <= rs.len(),
    decreases rs.len(),
{
    if rs.len() > 0 {
        lemma_of_kind_len(rs.drop_last(), kind);
    }
}

/// See `is_source_path`.
pub fn source_path(path: &str) -> (r: bool)
    ensures
        r == is_source_path(path@),
{
    let chars = to_chars(path);
    let n = chars.len();
    if n < 4 {
        return false;
    }
    let ext = to_chars(".rs");
    let ends = matches_at(chars.as_slice(), ext.as_slice(), n - 3);
    proof {
        reveal_strlit(".rs");
    }
    ends && chars[n - 4] != '/'
}

/// See `is_watched_path`.
pub fn watched_path(path: &str) -> (r: bool)
    ensures
        r == is_watched_path(path@),
{
    if !source_path(path) {
        return false;
    }
    let chars = to_chars(path);
    let mut from: usize = 0;
    loop
        invariant_except_break
            from <= chars@.len(),
            has_skipped_part(chars@, 0) == has_skipped_part(chars@, from as int),
        invariant
            chars@ == path@,
            is_source_path(path@),
        ensures
            !has_skipped_part(chars@, 0),
        decreases chars@.len() - from,
    {
        let mut end: usize = from;
        while end < chars.len() && chars[end] != '/'
            invariant
                from <= end <= chars@.len(),
                part_end(chars@, from as int) == part_end(chars@, end as int),
            decreases chars.len() - end,
        {
            end += 1;
        }
        let part = chars_to_string(copy_range(chars.as_slice(), from, end).as_slice());
        if skipped_directory(part.as_str()) {
            return false;
        }
        if end >= chars.len() {
            break ;
        }
        from = end + 1;
    }
    true
}

/// See `is_skipped_directory`.
pub fn skipped_directory(dir_name: &str) -> (r: bool)
    ensures
        r == is_skipped_directory(dir_name@),
{
    let name = dir_name.to_string();
    name == ".git".to_string() || name == "target".to_string() || name
        == "node_modules".to_string() || name == ".idea".to_string() || name
        == ".vscode".to_string()
}

/// See `action_for`.
pub fn entry_action(name: Option<&str>, path: &str, is_dir: bool) -> (r: EntryAction)
    ensures
        r == action_for(
            match name {
                Some(n) => Some(n@),
                None => None,
            },
            path@,
            is_dir,
        ),
{
    if is_dir {
        match name {
            Some(n) => if skipped_directory(n) {
                EntryAction::Skip
            } else {
                EntryAction::Descend
            },
            None => EntryAction::Skip,
        }
    } else if source_path(path) {
        EntryAction::Index
    } else {
        EntryAction::Skip
    }
}

fn add_capped(a: usize, b: usize) -> (r: usize)
    ensures
        r == capped((a + b) as nat),
{
    if b > usize::MAX - a {
        usize::MAX
    } else {
        a + b
    }
}

/// How many of `records` are of kind `kind`.
pub fn count_kind(records: &Vec<SymbolInfo>, kind: SymbolType) -> (r: usize)
    ensures
        r == of_kind(symbol_records(records@), Some(kind)).len(),
{
    let ghost rs = symbol_records(records@);
    let mut r: usize = 0;
    let mut k: usize = 0;
    while k < records.len()
        invariant
            k <= records@.len(),
            rs == symbol_records(records@),
            r == of_kind(rs.take(k as int), Some(kind)).len(),
            r <= k,
        decreases records.len() - k,
    {
        assert(rs.take(k as int + 1).drop_last() == rs.take(k as int));
        if records[k].symbol_type == kind {
            r += 1;
        }
        k += 1;
    }
    assert(rs.take(rs.len() as int) == rs);
    r
}

fn has_file(records: &Vec<SymbolInfo>, file: &String) -> (r: bool)
    ensures
        r == has_record_in(symbol_records(records@), file@),
{
    let mut k: usize = 0;
    while k < records.len()
        invariant
            k <= records@.len(),
            forall|j: int| 0 <= j < k ==> symbol_records(records@)[j].file_path != file@,
        decreases records.len() - k,
    {
        if records[k].file_path == *file {
            assert(symbol_records(records@)[k as int].file_path == file@);
            return true;
        }
        k += 1;
    }
    false
}

fn names_of_file(groups: &Vec<SymbolEntry>, file: &String) -> (r: Vec<String>)
    ensures
        texts(r@) == names_in_file(symbol_groups(groups@), file@, groups@.len() as int),
{
    let ghost gs = symbol_groups(groups@);
    let mut r: Vec<String> = Vec::new();
    let mut i: usize = 0;
    assert(texts(r@) =~= names_in_file(gs, file@, 0));
    while i < groups.len()
        invariant
            i <= groups@.len(),
            gs == symbol_groups(groups@),
            texts(r@) == names_in_file(gs, file@, i as int),
        decreases groups.len() - i,
    {
        if has_file(&groups[i].symbols, file) {
            let ghost before = texts(r@);
            let name = groups[i].name.clone();
            r.push(name);
            assert(texts(r@) =~= before.push(name@));
        }
        i += 1;
    }
    r
}

/// Whether `names` holds `name`.
pub fn holds_name(names: &Vec<String>, name: &String) -> (r: bool)
    ensures
        r == texts(names@).contains(name@),
{
    let mut k: usize = 0;
    while k < names.len()
        invariant
            k <= names@.len(),
            forall|j: int| 0 <= j < k ==> texts(names@)[j] != name@,
        decreases names.len() - k,
    {
        if names[k] == *name {
            assert(texts(names@)[k as int] == name@);
            return true;
        }
        k += 1;
    }
    false
}

/// Appends to `acc` those of `names` that it does not hold yet.
pub fn merge_names(acc: &mut Vec<String>, names: &Vec<String>)
    ensures
        texts(final(acc)@) == merged(texts(old(acc)@), texts(names@)),
{
    let ghost start = texts(acc@);
    let ghost ns = texts(names@);
    let mut i: usize = 0;
    assert(ns.take(0) =~= Seq::<Seq<char>>::empty());
    while i < names.len()
        invariant
            i <= names@.len(),
            ns == texts(names@),
            texts(acc@) == merged(start, ns.take(i as int)),
        decreases names.len() - i,
    {
        assert(ns.take(i as int + 1).drop_last() == ns.take(i as int));
        if !holds_name(acc, &names[i]) {
            let ghost before = texts(acc@);
            let name = names[i].clone();
            acc.push(name);
            assert(texts(acc@) =~= before.push(name@));
        }
        i += 1;
    }
    assert(ns.take(ns.len() as int) == ns);
}

/// What parsing makes of the file `f` as it was read: the same path, text
/// and mark, and the items that the text is read as where `f` is a source
/// file that could be read and for whose text `syn` gives a tree; no items
/// otherwise.
pub open spec fn parsed(f: SourceFile) -> ParsedView {
    ParsedView {
        path: f.path@,
        content: match f.content {
            Some(text) => text@,
            None => Seq::empty(),
        },
        items: match f.content {
            Some(text) => if is_source_path(f.path@) {
                lowered(text@)
            } else {
                None
            },
            None => None,
        },
        modified: f.modified,
    }
}

/// What parsing makes of each of `fs`.
pub open spec fn all_parsed(fs: Seq<SourceFile>) -> Seq<ParsedView> {
    fs.map_values(|f: SourceFile| parsed(f))
}

/// Parses the text of a source file that could be read.
pub fn parse_source_file(file: &SourceFile) -> (r: ParsedFile)
    ensures
        r@ == parsed(*file),
{
    let path = file.path.clone();
    match &file.content {
        None => ParsedFile { path, content: String::new(), items: None, modified: file.modified },
        Some(text) => {
            let items = if source_path(file.path.as_str()) {
                match parse_items(text.as_str()) {
                    Ok(items) => Some(items),
                    Err(_) => None,
                }
            } else {
                None
            };
            ParsedFile { path, content: text.clone(), items, modified: file.modified }
        },
    }
}

/// Parses each of `files`.
pub fn parse_source_files(files: &Vec<SourceFile>) -> (r: Vec<ParsedFile>)
    ensures
        parsed_views(r@) == all_parsed(files@),
{
    let mut out: Vec<ParsedFile> = Vec::new();
    let mut i: usize = 0;
    while i < files.len()
        invariant
            i <= files@.len(),
            out@.len() == i,
            forall|j: int| 0 <= j < i ==> (#[trigger] out@[j])@ == parsed(files@[j]),
        decreases files.len() - i,
    {
        out.push(parse_source_file(&files[i]));
        i += 1;
    }
    assert(parsed_views(out@) =~= all_parsed(files@));
    out
}

/// The symbols and calls of a directory of source files, kept up to date
/// file by file.
pub struct CodeIndexer {
    parser: RustParser,
    indexed_files: Vec<FileEntry>,
    watching: bool,
}

impl View for CodeIndexer {
    type V = IndexerState;

    closed spec fn view(&self) -> IndexerState {
        IndexerState {
            parser: self.parser@,
            files: file_marks(self.indexed_files@),
            watching: self.watching,
        }
    }
}

impl CodeIndexer {
    /// The state of the index is well formed.
    pub open spec fn wf(&self) -> bool {
        state_wf(self@)
    }

    /// An index that holds nothing and watches nothing.
    pub fn new() -> (r: Self)
        ensures
            r@.parser.groups.len() == 0,
            r@.parser.calls.len() == 0,
            r@.files.len() == 0,
            !r@.watching,
            r.wf(),
    {
        CodeIndexer { parser: RustParser::new(), indexed_files: Vec::new(), watching: false }
    }

    /// The symbols and calls.
    pub fn get_parser(&self) -> (r: &RustParser)
        ensures
            r@ == self@.parser,
    {
        &self.parser
    }

    /// See `is_source_path`.
    pub fn is_rust_file(&self, path: &str) -> (r: bool)
        ensures
            r == is_source_path(path@),
    {
        source_path(path)
    }

    /// See `is_skipped_directory`.
    pub fn should_skip_directory(&self, dir_name: &str) -> (r: bool)
        ensures
            r == is_skipped_directory(dir_name@),
    {
        skipped_directory(dir_name)
    }

    fn mark_position(&self, path: &String) -> (r: Option<usize>)
        ensures
            match r {
                Some(i) => mark_index(self@.files, path@) == Some(i as int) && i
                    < self.indexed_files@.len(),
                None => mark_index(self@.files, path@) is None,
            },
    {
        let ghost ms = self@.files;
        let mut i: usize = self.indexed_files.len();
        assert(ms.take(ms.len() as int) == ms);
        while i > 0
            invariant
                i <= self.indexed_files@.len(),
                ms == self@.files,
                ms.len() == self.indexed_files@.len(),
                mark_index(ms, path@) == mark_index(ms.take(i as int), path@),
            decreases i,
        {
            i -= 1;
            assert(ms.take(i as int + 1).drop_last() == ms.take(i as int));
            if self.indexed_files[i].path == *path {
                return Some(i);
            }
        }
        None
    }

    fn mark_file(&mut self, path: &str, stamp: u64)
        requires
            old(self).wf(),
        ensures
            final(self)@.files == with_mark(old(self)@.files, path@, stamp),
            final(self)@.parser == old(self)@.parser,
            final(self)@.watching == old(self)@.watching,
            final(self).wf(),
    {
        let key = path.to_string();
        proof {
            lemma_mark_index(self@.files, key@);
        }
        match self.mark_position(&key) {
            Some(i) => {
                self.indexed_files[i].stamp = stamp;
                assert(self@.files =~= with_mark(old(self)@.files, path@, stamp));
            },
            None => {
                self.indexed_files.push(FileEntry { path: key, stamp });
                assert(self@.files =~= with_mark(old(self)@.files, path@, stamp));
            },
        }
    }

    fn unmark_file(&mut self, path: &str)
        requires
            old(self).wf(),
        ensures
            final(self)@.files == without_mark(old(self)@.files, path@),
            final(self)@.parser == old(self)@.parser,
            final(self)@.watching == old(self)@.watching,
            final(self).wf(),
    {
        let key = path.to_string();
        let ghost ms = self@.files;
        let mut kept: Vec<FileEntry> = Vec::new();
        let mut i: usize = 0;
        assert(file_marks(kept@) =~= without_mark(ms.take(0), key@));
        while i < self.indexed_files.len()
            invariant
                i <= self.indexed_files@.len(),
                ms == file_marks(self.indexed_files@),
                file_marks(kept@) == without_mark(ms.take(i as int), key@),
            decreases self.indexed_files.len() - i,
        {
            assert(ms.take(i as int + 1).drop_last() == ms.take(i as int));
            if self.indexed_files[i].path != key {
                let ghost before = file_marks(kept@);
                let entry = FileEntry {
                    path: self.indexed_files[i].path.clone(),
                    stamp: self.indexed_files[i].stamp,
                };
                kept.push(entry);
                assert(file_marks(kept@) =~= before.push(entry@));
            }
            i += 1;
        }
        assert(ms.take(ms.len() as int) == ms);
        proof {
            lemma_without_mark(ms, key@);
        }
        self.indexed_files = kept;
    }

    /// Takes what is known of the file `file_path` out of the index.
    pub fn remove_file_from_index(&mut self, file_path: &str)
        requires
            old(self).wf(),
        ensures
            final(self)@ == removed(old(self)@, file_path@),
            final(self).wf(),
    {
        self.parser.remove_file_symbols(file_path);
        self.unmark_file(file_path);
    }

    /// Indexes a file whose text was parsed already. See `indexed_file`.
    pub fn index_parsed(&mut self, file: &ParsedFile)
        requires
            old(self).wf(),
        ensures
            final(self)@ == indexed_file(old(self)@, file@),
            final(self).wf(),
    {
        if !source_path(file.path.as_str()) {
            return ;
        }
        match &file.items {
            None => {},
            Some(items) => {
                self.parser.extract(file.path.as_str(), items, file.content.as_str());
                match file.modified {
                    Some(stamp) => {
                        self.mark_file(file.path.as_str(), stamp);
                    },
                    None => {},
                }
            },
        }
    }

    /// Takes what is known of a file out of the index and indexes the
    /// file, whose text was parsed already. See `reindexed_file`.
    pub fn reindex_parsed(&mut self, file: &ParsedFile)
        requires
            old(self).wf(),
        ensures
            final(self)@ == reindexed_file(old(self)@, file@),
            final(self).wf(),
    {
        self.remove_file_from_index(file.path.as_str());
        self.index_parsed(file);
    }

    /// Indexes one file: where it is a source file that could be read and
    /// parsed, what its items declare and call is added and the file is
    /// marked. Nothing changes otherwise.
    pub fn index_file(&mut self, file: &SourceFile)
        requires
            old(self).wf(),
        ensures
            final(self)@ == indexed_file(old(self)@, parsed(*file)),
            final(self).wf(),
    {
        let read = parse_source_file(file);
        self.index_parsed(&read);
    }

    /// Takes what is known of a file out of the index and indexes the file
    /// as it is now.
    pub fn reindex_file(&mut self, file: &SourceFile)
        requires
            old(self).wf(),
        ensures
            final(self)@ == reindexed_file(old(self)@, parsed(*file)),
            final(self).wf(),
    {
        let read = parse_source_file(file);
        self.reindex_parsed(&read);
    }

    /// Indexes files that were parsed already, in order.
    pub fn index_parsed_files(&mut self, files: &Vec<ParsedFile>)
        requires
            old(self).wf(),
        ensures
            final(self)@ == indexed_files(
                old(self)@,
                parsed_views(files@),
                files@.len() as int,
            ),
            final(self).wf(),
    {
        let mut i: usize = 0;
        while i < files.len()
            invariant
                i <= files@.len(),
                self.wf(),
                self@ == indexed_files(old(self)@, parsed_views(files@), i as int),
            decreases files.len() - i,
        {
            self.index_parsed(&files[i]);
            i += 1;
        }
    }

    /// Indexes the files of a directory, in the order in which they were
    /// found. A file that cannot be read or parsed is left out.
    pub fn index_directory(&mut self, files: &Vec<SourceFile>)
        requires
            old(self).wf(),
        ensures
            final(self)@ == indexed_files(old(self)@, all_parsed(files@), files@.len() as int),
            final(self).wf(),
    {
        let read = parse_source_files(files);
        self.index_parsed_files(&read);
    }

    /// Handles a change in the watched directory, and gives the names of
    /// the symbols that it touched. See `after_event`.
    pub fn handle_watch_event(&mut self, event: &WatchEvent) -> (r: Vec<String>)
        requires
            old(self).wf(),
        ensures
            (final(self)@, texts(r@)) == after_event(
                old(self)@,
                event.kind,
                all_parsed(event.files@),
                event.files@.len() as int,
            ),
            final(self).wf(),
    {
        let read = parse_source_files(&event.files);
        self.apply_event(event.kind, &read)
    }

    /// The definitions of `symbol_name` that are of kind `symbol_type`, or
    /// all of them where no kind is given; `None` where nothing has that name.
    pub fn find_definition(&self, symbol_name: &str, symbol_type: Option<SymbolType>) -> (r:
        Option<Vec<&SymbolInfo>>)
        ensures
            match r {
                Some(found) => lookup(self@.parser.groups, symbol_name@) is Some
                    && symbol_ref_records(found@) == of_kind(
                    lookup(self@.parser.groups, symbol_name@)->0,
                    symbol_type,
                ),
                None => lookup(self@.parser.groups, symbol_name@) is None,
            },
    {
        self.parser.find_symbol(symbol_name, symbol_type)
    }

    /// The groups of symbols.
    pub fn get_all_symbols(&self) -> (r: &Vec<SymbolEntry>)
        ensures
            symbol_groups(r@) == self@.parser.groups,
    {
        self.parser.get_all_symbols()
    }

    fn total_of(&self, kind: SymbolType) -> (r: usize)
        ensures
            r == capped(count_of(self@.parser.groups, kind)),
    {
        let groups = self.parser.get_all_symbols();
        let ghost gs = symbol_groups(groups@);
        let mut total: usize = 0;
        let mut i: usize = 0;
        while i < groups.len()
            invariant
                i <= groups@.len(),
                gs == symbol_groups(groups@),
                total == capped(count_records(gs, kind, i as int)),
            decreases groups.len() - i,
        {
            proof {
                lemma_of_kind_len(gs[i as int].records, Some(kind));
            }
            total = add_capped(total, count_kind(&groups[i].symbols, kind));
            i += 1;
        }
        total
    }

    /// The counts of the index. See `stats_of`.
    pub fn get_stats(&self) -> (r: IndexStats)
        ensures
            r == stats_of(self@),
    {
        let total_functions = self.total_of(SymbolType::Function);
        let total_structs = self.total_of(SymbolType::Struct);
        let total_enums = self.total_of(SymbolType::Enum);
        let total_traits = self.total_of(SymbolType::Trait);
        let total_symbols = add_capped(
            add_capped(add_capped(total_functions, total_structs), total_enums),
            total_traits,
        );
        IndexStats {
            total_symbols,
            total_functions,
            total_structs,
            total_enums,
            total_traits,
            unique_symbol_names: self.parser.get_all_symbols().len(),
            indexed_files_count: self.indexed_files.len(),
            is_watching: self.watching,
        }
    }

    /// Notes that the directory is watched from now on.
    pub fn start_watching(&mut self)
        ensures
            final(self)@.watching,
            final(self)@.parser == old(self)@.parser,
            final(self)@.files == old(self)@.files,
    {
        self.watching = true;
    }

    /// Notes that the directory is watched no more.
    pub fn stop_watching(&mut self)
        ensures
            !final(self)@.watching,
            final(self)@.parser == old(self)@.parser,
            final(self)@.files == old(self)@.files,
    {
        self.watching = false;
    }

    /// Handles an event whose files were parsed already, and gives the names
    /// of the symbols that it touched. See `after_event`.
    pub fn apply_event(&mut self, kind: WatchEventKind, files: &Vec<ParsedFile>) -> (r: Vec<String>)
        requires
            old(self).wf(),
        ensures
            (final(self)@, texts(r@)) == after_event(
                old(self)@,
                kind,
                parsed_views(files@),
                files@.len() as int,
            ),
            final(self).wf(),
    {
        let mut updated: Vec<String> = Vec::new();
        let mut i: usize = 0;
        assert(texts(updated@) =~= Seq::<Seq<char>>::empty());
        while i < files.len()
            invariant
                i <= files@.len(),
                self.wf(),
                (self@, texts(updated@)) == after_event(
                    old(self)@,
                    kind,
                    parsed_views(files@),
                    i as int,
                ),
            decreases files.len() - i,
        {
            let file = &files[i];
            match kind {
                WatchEventKind::Create | WatchEventKind::Modify => {
                    if watched_path(file.path.as_str()) {
                        let before = names_of_file(self.parser.get_all_symbols(), &file.path);
                        self.reindex_parsed(file);
                        let after = names_of_file(self.parser.get_all_symbols(), &file.path);
                        merge_names(&mut updated, &before);
                        merge_names(&mut updated, &after);
                    }
                },
                WatchEventKind::Remove => {
                    if watched_path(file.path.as_str()) {
                        let mut gone = names_of_file(self.parser.get_all_symbols(), &file.path);
                        self.remove_file_from_index(file.path.as_str());
                        let ghost before = texts(updated@);
                        let ghost added = texts(gone@);
                        updated.append(&mut gone);
                        assert(texts(updated@) =~= before + added);
                    }
                },
                WatchEventKind::Other => {},
            }
            i += 1;
        }
        updated
    }
}

} // verus!
