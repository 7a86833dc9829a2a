use crate::extract::{
    call_site, collect_expr_calls, collect_stmt_calls, collect_stmts_calls, expr_calls, extracted,
    function_info, function_record, generics_text, items_calls, render_generics, render_signature,
    render_visibility, signature_text, stmt_calls, stmts_calls, texts, type_info, type_record,
    visibility_text, with_items,
};
use crate::front::{lowered, parse_items, parses, ParseError};
use crate::locate::{
    call_location, context_of, line_context, lines_fit, locate_call, locate_symbol, source_lines,
    symbol_location,
};
use crate::protocol::SymbolType;
use crate::syntax::{
    declaration_views, statement_views, Access, Declaration, Expression, FunctionDecl, Statement,
    TypeDecl,
};
use crate::text::{lines_of, rows, to_chars};
use crate::usage::{
    collect_all_usages, collect_usages, content_usages, dedup_usages, definition_line, found_usages,
    is_definition, sort_usages, usage_type_at, usage_type_of,
};
use vstd::prelude::*;

verus! {

/// One definition of a symbol.
#[derive(Debug)]
pub struct SymbolInfo {
    pub name: String,
    pub symbol_type: SymbolType,
    pub file_path: String,
    pub line: usize,
    pub column: usize,
    pub signature: String,
    pub visibility: String,
    pub generics: Option<String>,
}

/// What a `SymbolInfo` holds.
pub struct SymbolRecord {
    pub name: Seq<char>,
    pub symbol_type: SymbolType,
    pub file_path: Seq<char>,
    pub line: nat,
    pub column: nat,
    pub signature: Seq<char>,
    pub visibility: Seq<char>,
    pub generics: Option<Seq<char>>,
}

/// The view of a text that may be missing.
pub open spec fn opt_text(s: Option<String>) -> Option<Seq<char>> {
    match s {
        Some(t) => Some(t@),
        None => None,
    }
}

impl View for SymbolInfo {
    type V = SymbolRecord;

    open spec fn view(&self) -> SymbolRecord {
        SymbolRecord {
            name: self.name@,
            symbol_type: self.symbol_type,
            file_path: self.file_path@,
            line: self.line as nat,
            column: self.column as nat,
            signature: self.signature@,
            visibility: self.visibility@,
            generics: opt_text(self.generics),
        }
    }
}

impl Clone for SymbolInfo {
    fn clone(&self) -> (r: Self)
        ensures
            r@ == self@,
    {
        SymbolInfo {
            name: self.name.clone(),
            symbol_type: self.symbol_type,
            file_path: self.file_path.clone(),
            line: self.line,
            column: self.column,
            signature: self.signature.clone(),
            visibility: self.visibility.clone(),
            generics: match &self.generics {
                Some(g) => Some(g.clone()),
                None => None,
            },
        }
    }
}

/// How a symbol is used at one place.
#[derive(Debug, Clone, Copy, PartialEq, Eq, Structural)]
pub enum UsageType {
    FunctionCall,
    TypeUsage,
    TraitUsage,
    Import,
    Reference,
}

/// One use of a symbol.
#[derive(Debug)]
pub struct UsageInfo {
    pub symbol_name: String,
    pub file_path: String,
    pub line: usize,
    pub column: usize,
    pub usage_type: UsageType,
    pub context: String,
}

/// What a `UsageInfo` holds.
pub struct UsageRecord {
    pub symbol_name: Seq<char>,
    pub file_path: Seq<char>,
    pub line: nat,
    pub column: nat,
    pub usage_type: UsageType,
    pub context: Seq<char>,
}

impl View for UsageInfo {
    type V = UsageRecord;

    open spec fn view(&self) -> UsageRecord {
        UsageRecord {
            symbol_name: self.symbol_name@,
            file_path: self.file_path@,
            line: self.line as nat,
            column: self.column as nat,
            usage_type: self.usage_type,
            context: self.context@,
        }
    }
}

impl Clone for UsageInfo {
    fn clone(&self) -> (r: Self)
        ensures
            r@ == self@,
    {
        UsageInfo {
            symbol_name: self.symbol_name.clone(),
            file_path: self.file_path.clone(),
            line: self.line,
            column: self.column,
            usage_type: self.usage_type,
            context: self.context.clone(),
        }
    }
}

/// What the uses of `v` hold.
pub open spec fn usage_records(v: Seq<UsageInfo>) -> Seq<UsageRecord> {
    v.map_values(|u: UsageInfo| u@)
}

/// One place at which a function calls another.
#[derive(Debug)]
pub struct CallInfo {
    pub caller: String,
    pub caller_file: String,
    pub caller_line: usize,
    pub callee: String,
    pub call_line: usize,
    pub call_column: usize,
    pub call_context: String,
}

/// What a `CallInfo` holds.
pub struct CallRecord {
    pub caller: Seq<char>,
    pub caller_file: Seq<char>,
    pub caller_line: nat,
    pub callee: Seq<char>,
    pub call_line: nat,
    pub call_column: nat,
    pub call_context: Seq<char>,
}

impl View for CallInfo {
    type V = CallRecord;

    open spec fn view(&self) -> CallRecord {
        CallRecord {
            caller: self.caller@,
            caller_file: self.caller_file@,
            caller_line: self.caller_line as nat,
            callee: self.callee@,
            call_line: self.call_line as nat,
            call_column: self.call_column as nat,
            call_context: self.call_context@,
        }
    }
}

impl Clone for CallInfo {
    fn clone(&self) -> (r: Self)
        ensures
            r@ == self@,
    {
        CallInfo {
            caller: self.caller.clone(),
            caller_file: self.caller_file.clone(),
            caller_line: self.caller_line,
            callee: self.callee.clone(),
            call_line: self.call_line,
            call_column: self.call_column,
            call_context: self.call_context.clone(),
        }
    }
}

/// The definitions that share one name.
#[derive(Debug)]
pub struct SymbolEntry {
    pub name: String,
    pub symbols: Vec<SymbolInfo>,
}

/// What a `SymbolEntry` holds.
pub struct SymbolGroup {
    pub name: Seq<char>,
    pub records: Seq<SymbolRecord>,
}

/// What the definitions of `v` hold.
pub open spec fn symbol_records(v: Seq<SymbolInfo>) -> Seq<SymbolRecord> {
    v.map_values(|s: SymbolInfo| s@)
}

/// What the definitions that `v` refers to hold.
pub open spec fn symbol_ref_records(v: Seq<&SymbolInfo>) -> Seq<SymbolRecord> {
    v.map_values(|s: &SymbolInfo| s@)
}

/// What the calls of `v` hold.
pub open spec fn call_records(v: Seq<CallInfo>) -> Seq<CallRecord> {
    v.map_values(|c: CallInfo| c@)
}

/// What the calls that `v` refers to hold.
pub open spec fn call_ref_records(v: Seq<&CallInfo>) -> Seq<CallRecord> {
    v.map_values(|c: &CallInfo| c@)
}

impl View for SymbolEntry {
    type V = SymbolGroup;

    open spec fn view(&self) -> SymbolGroup {
        SymbolGroup { name: self.name@, records: symbol_records(self.symbols@) }
    }
}

/// What the entries of `v` hold.
pub open spec fn symbol_groups(v: Seq<SymbolEntry>) -> Seq<SymbolGroup> {
    v.map_values(|e: SymbolEntry| e@)
}

/// Every group is named once, holds a record, and holds only records of its
/// own name.
pub open spec fn groups_wf(gs: Seq<SymbolGroup>) -> bool {
    &&& forall|i: int, j: int| 0 <= i < j < gs.len() ==> gs[i].name != gs[j].name
    &&& forall|i: int| 0 <= i < gs.len() ==> gs[i].records.len() > 0
    &&& forall|i: int, k: int|
        0 <= i < gs.len() && 0 <= k < gs[i].records.len() ==> (#[trigger] gs[i].records[k]).name
            == gs[i].name
}

/// Index of the group named `name`.
pub open spec fn group_index(gs: Seq<SymbolGroup>, name: Seq<char>) -> Option<int>
    decreases gs.len(),
{
    if gs.len() == 0 {
        None
    } else if gs.last().name == name {
        Some(gs.len() - 1)
    } else {
        group_index(gs.drop_last(), name)
    }
}

/// The records named `name`, if there is any.
pub open spec fn lookup(gs: Seq<SymbolGroup>, name: Seq<char>) -> Option<Seq<SymbolRecord>> {
    match group_index(gs, name) {
        Some(i) => Some(gs[i].records),
        None => None,
    }
}

/// The records of `rs` that are of kind `kind`; all of them where no kind is given.
pub open spec fn of_kind(rs: Seq<SymbolRecord>, kind: Option<SymbolType>) -> Seq<SymbolRecord>
    decreases rs.len(),
{
    if rs.len() == 0 {
        rs
    } else if kind is None || rs.last().symbol_type == kind->0 {
        of_kind(rs.drop_last(), kind).push(rs.last())
    } else {
        of_kind(rs.drop_last(), kind)
    }
}

/// `gs` with the record `r` added at the end of the group of its name.
pub open spec fn insert_record(gs: Seq<SymbolGroup>, r: SymbolRecord) -> Seq<SymbolGroup> {
    match group_index(gs, r.name) {
        Some(i) => gs.update(i, SymbolGroup { name: gs[i].name, records: gs[i].records.push(r) }),
        None => gs.push(SymbolGroup { name: r.name, records: seq![r] }),
    }
}

/// The records of `rs` that are not defined in `file`.
pub open spec fn records_outside(rs: Seq<SymbolRecord>, file: Seq<char>) -> Seq<SymbolRecord>
    decreases rs.len(),
{
    if rs.len() == 0 {
        rs
    } else if rs.last().file_path == file {
        records_outside(rs.drop_last(), file)
    } else {
        records_outside(rs.drop_last(), file).push(rs.last())
    }
}

/// `gs` without the records defined in `file`, and without the groups that
/// held no other record.
pub open spec fn groups_outside(gs: Seq<SymbolGroup>, file: Seq<char>) -> Seq<SymbolGroup>
    decreases gs.len(),
{
    if gs.len() == 0 {
        gs
    } else {
        let rest = groups_outside(gs.drop_last(), file);
        let kept = records_outside(gs.last().records, file);
        if kept.len() == 0 {
            rest
        } else {
            rest.push(SymbolGroup { name: gs.last().name, records: kept })
        }
    }
}

/// The calls of `cs` whose caller is not defined in `file`.
pub open spec fn calls_outside(cs: Seq<CallRecord>, file: Seq<char>) -> Seq<CallRecord>
    decreases cs.len(),
{
    if cs.len() == 0 {
        cs
    } else if cs.last().caller_file == file {
        calls_outside(cs.drop_last(), file)
    } else {
        calls_outside(cs.drop_last(), file).push(cs.last())
    }
}

/// The calls of `cs` made by `caller`.
pub open spec fn calls_from(cs: Seq<CallRecord>, caller: Seq<char>) -> Seq<CallRecord>
    decreases cs.len(),
{
    if cs.len() == 0 {
        cs
    } else if cs.last().caller == caller {
        calls_from(cs.drop_last(), caller).push(cs.last())
    } else {
        calls_from(cs.drop_last(), caller)
    }
}

/// The calls of `cs` made to `callee`.
pub open spec fn calls_to(cs: Seq<CallRecord>, callee: Seq<char>) -> Seq<CallRecord>
    decreases cs.len(),
{
    if cs.len() == 0 {
        cs
    } else if cs.last().callee == callee {
        calls_to(cs.drop_last(), callee).push(cs.last())
    } else {
        calls_to(cs.drop_last(), callee)
    }
}

/// The index that is found for a name is that of a group of the name, and
/// no group has the name where no index is found.
pub proof fn lemma_group_index(gs: Seq<SymbolGroup>, name: Seq<char>)
    ensures
        match group_index(gs, name) {
            Some(i) => 0 <= i < gs.len() && gs[i].name == name,
            None => forall|i: int| 0 <= i < gs.len() ==> gs[i].name != name,
        },
    decreases gs.len(),
{
    if gs.len() > 0 && gs.last().name != name {
        lemma_group_index(gs.drop_last(), name);
        if group_index(gs, name) is None {
            assert forall|i: int| 0 <= i < gs.len() implies gs[i].name != name by {
                if i < gs.len() - 1 {
                    assert(gs.drop_last()[i] == gs[i]);
                }
            }
        }
    }
}

/// In well-formed groups the index that is found for the name of a group
/// is that of the group.
pub proof fn lemma_group_index_unique(gs: Seq<SymbolGroup>, i: int)
    requires
        groups_wf(gs),
        0 <= i < gs.len(),
    ensures
        group_index(gs, gs[i].name) == Some(i),
{
    lemma_group_index(gs, gs[i].name);
}

/// Adding a record keeps the groups well formed.
pub proof fn lemma_insert_record_wf(gs: Seq<SymbolGroup>, r: SymbolRecord)
    requires
        groups_wf(gs),
    ensures
        groups_wf(insert_record(gs, r)),
{
    lemma_group_index(gs, r.name);
    let out = insert_record(gs, r);
    match group_index(gs, r.name) {
        Some(i) => {
            assert forall|a: int, k: int|
                0 <= a < out.len() && 0 <= k < out[a].records.len() implies (
            #[trigger] out[a].records[k]).name == out[a].name by {
                if a == i && k < gs[i].records.len() {
                    assert(out[a].records[k] == gs[i].records[k]);
                } else if a != i {
                    assert(out[a].records[k] == gs[a].records[k]);
                }
            }
        },
        None => {
            assert forall|a: int, k: int|
                0 <= a < out.len() && 0 <= k < out[a].records.len() implies (
            #[trigger] out[a].records[k]).name == out[a].name by {
                if a < gs.len() {
                    assert(out[a].records[k] == gs[a].records[k]);
                }
            }
        },
    }
}

/// Every group left after a file is taken out stems from a group of that
/// name, and the groups left are well formed.
pub proof fn lemma_groups_outside_wf(gs: Seq<SymbolGroup>, file: Seq<char>)
    requires
        groups_wf(gs),
    ensures
        groups_wf(groups_outside(gs, file)),
        forall|i: int|
            0 <= i < groups_outside(gs, file).len() ==> exists|j: int|
                0 <= j < gs.len() && gs[j].name == (#[trigger] groups_outside(gs, file)[i]).name,
    decreases gs.len(),
{
    if gs.len() > 0 {
        let init = gs.drop_last();
        assert(groups_wf(init)) by {
            assert forall|i: int, k: int|
                0 <= i < init.len() && 0 <= k < init[i].records.len() implies (
            #[trigger] init[i].records[k]).name == init[i].name by {
                assert(init[i].records[k] == gs[i].records[k]);
            }
        }
        lemma_groups_outside_wf(init, file);
        let rest = groups_outside(init, file);
        let kept = records_outside(gs.last().records, file);
        let out = groups_outside(gs, file);
        lemma_records_outside(gs.last().records, file);
        assert forall|i: int| 0 <= i < out.len() implies exists|j: int|
            0 <= j < gs.len() && gs[j].name == (#[trigger] out[i]).name by {
            if i < rest.len() {
                let j = choose|j: int| 0 <= j < init.len() && init[j].name == rest[i].name;
                assert(gs[j].name == out[i].name);
            } else {
                assert(gs[gs.len() - 1].name == out[i].name);
            }
        }
        if kept.len() > 0 {
            assert forall|i: int, j: int| 0 <= i < j < out.len() implies out[i].name
                != out[j].name by {
                if j == rest.len() {
                    let a = choose|a: int| 0 <= a < init.len() && init[a].name == rest[i].name;
                    assert(gs[a].name != gs[gs.len() - 1].name);
                }
            }
            assert forall|i: int, k: int|
                0 <= i < out.len() && 0 <= k < out[i].records.len() implies (
            #[trigger] out[i].records[k]).name == out[i].name by {
                if i < rest.len() {
                    assert(out[i].records[k] == rest[i].records[k]);
                } else {
                    let m = choose|m: int|
                        0 <= m < gs.last().records.len() && gs.last().records[m] == kept[k];
                    assert(gs[gs.len() - 1].records[m].name == gs[gs.len() - 1].name);
                }
            }
        }
    }
}

/// What is left after a file is taken out was there before, and is not of
/// that file.
pub proof fn lemma_records_outside(rs: Seq<SymbolRecord>, file: Seq<char>)
    ensures
        forall|k: int|
            0 <= k < records_outside(rs, file).len() ==> {
                &&& (#[trigger] records_outside(rs, file)[k]).file_path != file
                &&& exists|m: int| 0 <= m < rs.len() && rs[m] == records_outside(rs, file)[k]
            },
        (forall|m: int| 0 <= m < rs.len() ==> rs[m].file_path != file) ==> records_outside(
            rs,
            file,
        ) == rs,
    decreases rs.len(),
{
    if rs.len() > 0 {
        lemma_records_outside(rs.drop_last(), file);
        let rest = records_outside(rs.drop_last(), file);
        let out = records_outside(rs, file);
        assert forall|k: int| 0 <= k < out.len() implies {
            &&& (#[trigger] out[k]).file_path != file
            &&& exists|m: int| 0 <= m < rs.len() && rs[m] == out[k]
        } by {
            if k < rest.len() {
                let m = choose|m: int| 0 <= m < rs.drop_last().len() && rs.drop_last()[m] == rest[k];
                assert(rs[m] == out[k]);
            } else {
                assert(rs[rs.len() - 1] == out[k]);
            }
        }
        if forall|m: int| 0 <= m < rs.len() ==> rs[m].file_path != file {
            assert forall|m: int| 0 <= m < rs.drop_last().len() implies rs.drop_last()[m].file_path
                != file by {
                assert(rs.drop_last()[m] == rs[m]);
            }
            assert(rs.drop_last().push(rs.last()) == rs);
        }
    }
}

/// Groups that agree in their names and in what is left of their records
/// once a file is taken out leave the same groups.
pub proof fn lemma_groups_outside_agree(a: Seq<SymbolGroup>, b: Seq<SymbolGroup>, file: Seq<char>)
    requires
        a.len() == b.len(),
        forall|i: int|
            0 <= i < a.len() ==> a[i].name == b[i].name && records_outside(a[i].records, file)
                == records_outside(b[i].records, file),
    ensures
        groups_outside(a, file) == groups_outside(b, file),
    decreases a.len(),
{
    if a.len() > 0 {
        assert forall|i: int| 0 <= i < a.drop_last().len() implies a.drop_last()[i].name
            == b.drop_last()[i].name && records_outside(a.drop_last()[i].records, file)
            == records_outside(b.drop_last()[i].records, file) by {
            assert(a.drop_last()[i] == a[i] && b.drop_last()[i] == b[i]);
        }
        lemma_groups_outside_agree(a.drop_last(), b.drop_last(), file);
        assert(a.last() == a[a.len() - 1] && b.last() == b[b.len() - 1]);
    }
}

/// A record of a file leaves with the file: taking the file out after the
/// record was added gives what taking it out before gives.
pub proof fn lemma_groups_outside_insert(gs: Seq<SymbolGroup>, r: SymbolRecord, file: Seq<char>)
    requires
        r.file_path == file,
    ensures
        groups_outside(insert_record(gs, r), file) == groups_outside(gs, file),
{
    lemma_group_index(gs, r.name);
    match group_index(gs, r.name) {
        Some(i) => {
            let out = insert_record(gs, r);
            assert(gs[i].records.push(r).drop_last() == gs[i].records);
            lemma_groups_outside_agree(out, gs, file);
        },
        None => {
            let g = SymbolGroup { name: r.name, records: seq![r] };
            assert(gs.push(g).drop_last() == gs);
            assert(seq![r].drop_last() == Seq::<SymbolRecord>::empty());
            assert(records_outside(Seq::<SymbolRecord>::empty(), file).len() == 0);
        },
    }
}

/// No record of `gs` is defined in `file`.
pub open spec fn groups_clear_of(gs: Seq<SymbolGroup>, file: Seq<char>) -> bool {
    forall|i: int, k: int|
        0 <= i < gs.len() && 0 <= k < gs[i].records.len() ==> (#[trigger] gs[i].records[k]).file_path
            != file
}

/// Taking a file out of groups that hold nothing of it changes nothing.
pub proof fn lemma_groups_outside_fixed(gs: Seq<SymbolGroup>, file: Seq<char>)
    requires
        groups_wf(gs),
        groups_clear_of(gs, file),
    ensures
        groups_outside(gs, file) == gs,
    decreases gs.len(),
{
    if gs.len() > 0 {
        let init = gs.drop_last();
        assert(groups_wf(init) && groups_clear_of(init, file)) by {
            assert forall|i: int, k: int|
                0 <= i < init.len() && 0 <= k < init[i].records.len() implies (
            #[trigger] init[i].records[k]).name == init[i].name && init[i].records[k].file_path
                != file by {
                assert(init[i].records[k] == gs[i].records[k]);
            }
        }
        lemma_groups_outside_fixed(init, file);
        let last = gs.last();
        assert forall|m: int| 0 <= m < last.records.len() implies last.records[m].file_path
            != file by {
            assert(gs[gs.len() - 1].records[m].file_path != file);
        }
        lemma_records_outside(last.records, file);
        assert(gs[gs.len() - 1].records.len() > 0);
        assert(init.push(last) == gs);
    }
}

/// What is left after a file is taken out holds nothing of the file, and
/// each group left holds what is left of a group of its name.
pub proof fn lemma_groups_outside_clear(gs: Seq<SymbolGroup>, file: Seq<char>)
    ensures
        groups_clear_of(groups_outside(gs, file), file),
        forall|i: int|
            0 <= i < groups_outside(gs, file).len() ==> exists|j: int|
                0 <= j < gs.len() && gs[j].name == (#[trigger] groups_outside(gs, file)[i]).name
                    && groups_outside(gs, file)[i].records == records_outside(
                    gs[j].records,
                    file,
                ) && groups_outside(gs, file)[i].records.len() > 0,
    decreases gs.len(),
{
    if gs.len() > 0 {
        let init = gs.drop_last();
        lemma_groups_outside_clear(init, file);
        let rest = groups_outside(init, file);
        let kept = records_outside(gs.last().records, file);
        let out = groups_outside(gs, file);
        lemma_records_outside(gs.last().records, file);
        assert forall|i: int| 0 <= i < out.len() implies exists|j: int|
            0 <= j < gs.len() && gs[j].name == (#[trigger] out[i]).name && out[i].records
                == records_outside(gs[j].records, file) && out[i].records.len() > 0 by {
            if i < rest.len() {
                let j = choose|j: int|
                    0 <= j < init.len() && init[j].name == rest[i].name && rest[i].records
                        == records_outside(init[j].records, file) && rest[i].records.len() > 0;
                assert(gs[j] == init[j]);
            } else {
                assert(gs[gs.len() - 1] == gs.last());
            }
        }
        assert forall|i: int, k: int|
            0 <= i < out.len() && 0 <= k < out[i].records.len() implies (
        #[trigger] out[i].records[k]).file_path != file by {
            if i < rest.len() {
                assert(out[i].records[k] == rest[i].records[k]);
            } else {
                assert(out[i].records[k] == kept[k]);
            }
        }
    }
}

/// Adding a record of another name does not change what is found under a name.
pub proof fn lemma_lookup_insert_other(gs: Seq<SymbolGroup>, r: SymbolRecord, name: Seq<char>)
    requires
        r.name != name,
    ensures
        lookup(insert_record(gs, r), name) == lookup(gs, name),
{
    lemma_group_index(gs, r.name);
    lemma_group_index(gs, name);
    let out = insert_record(gs, r);
    lemma_group_index(out, name);
    match group_index(gs, r.name) {
        Some(i) => {
            lemma_group_index_same_names(gs, out, name);
        },
        None => {
            assert(out.drop_last() == gs);
        },
    }
}

/// The index of a name depends on the names of the groups alone.
pub proof fn lemma_group_index_same_names(a: Seq<SymbolGroup>, b: Seq<SymbolGroup>, name: Seq<char>)
    requires
        a.len() == b.len(),
        forall|i: int| 0 <= i < a.len() ==> a[i].name == b[i].name,
    ensures
        group_index(a, name) == group_index(b, name),
    decreases a.len(),
{
    if a.len() > 0 {
        assert(a.last() == a[a.len() - 1] && b.last() == b[b.len() - 1]);
        assert forall|i: int| 0 <= i < a.drop_last().len() implies a.drop_last()[i].name
            == b.drop_last()[i].name by {
            assert(a.drop_last()[i] == a[i] && b.drop_last()[i] == b[i]);
        }
        lemma_group_index_same_names(a.drop_last(), b.drop_last(), name);
    }
}

/// Taking out a file in which every record of a name is defined leaves
/// nothing under that name.
pub proof fn lemma_lookup_outside(gs: Seq<SymbolGroup>, file: Seq<char>, name: Seq<char>)
    requires
        groups_wf(gs),
        match lookup(gs, name) {
            Some(rs) => forall|k: int| 0 <= k < rs.len() ==> rs[k].file_path == file,
            None => true,
        },
    ensures
        lookup(groups_outside(gs, file), name) is None,
{
    let out = groups_outside(gs, file);
    lemma_group_index(out, name);
    lemma_group_index(gs, name);
    lemma_groups_outside_clear(gs, file);
    if group_index(out, name) is Some {
        let i = group_index(out, name)->0;
        let j = choose|j: int|
            0 <= j < gs.len() && gs[j].name == out[i].name && out[i].records == records_outside(
                gs[j].records,
                file,
            ) && out[i].records.len() > 0;
        lemma_group_index_unique(gs, j);
        lemma_records_outside(gs[j].records, file);
        let m = choose|m: int|
            0 <= m < gs[j].records.len() && gs[j].records[m] == records_outside(
                gs[j].records,
                file,
            )[0];
        assert(records_outside(gs[j].records, file)[0].file_path != file);
        assert(out[i].name == name);
        assert(lookup(gs, name) == Some(gs[j].records));
        let rs = lookup(gs, name)->0;
        assert(rs[m].file_path == file);
    }
}

/// Taking a file out of calls joined is joining what is left of each.
pub proof fn lemma_calls_outside_concat(a: Seq<CallRecord>, b: Seq<CallRecord>, file: Seq<char>)
    ensures
        calls_outside(a + b, file) == calls_outside(a, file) + calls_outside(b, file),
    decreases b.len(),
{
    if b.len() == 0 {
        assert(a + b == a);
        assert(calls_outside(a, file) + calls_outside(b, file) == calls_outside(a, file));
    } else {
        lemma_calls_outside_concat(a, b.drop_last(), file);
        assert((a + b).drop_last() == a + b.drop_last());
        assert((a + b).last() == b.last());
        assert((calls_outside(a, file) + calls_outside(b.drop_last(), file)).push(b.last())
            == calls_outside(a, file) + calls_outside(b.drop_last(), file).push(b.last()));
    }
}

/// What is left of calls once a file is taken out: nothing where all are
/// of the file, all where none is; and none of what is left is of the file.
pub proof fn lemma_calls_outside(cs: Seq<CallRecord>, file: Seq<char>)
    ensures
        (forall|k: int| 0 <= k < cs.len() ==> cs[k].caller_file == file) ==> calls_outside(
            cs,
            file,
        ).len() == 0,
        (forall|k: int| 0 <= k < cs.len() ==> cs[k].caller_file != file) ==> calls_outside(
            cs,
            file,
        ) == cs,
        forall|k: int|
            0 <= k < calls_outside(cs, file).len() ==> (#[trigger] calls_outside(
                cs,
                file,
            )[k]).caller_file != file && exists|m: int|
                0 <= m < cs.len() && cs[m] == calls_outside(cs, file)[k],
    decreases cs.len(),
{
    if cs.len() > 0 {
        let init = cs.drop_last();
        lemma_calls_outside(init, file);
        let rest = calls_outside(init, file);
        let out = calls_outside(cs, file);
        assert(forall|k: int| 0 <= k < init.len() ==> init[k] == cs[k]);
        assert(init.push(cs.last()) == cs);
        assert forall|k: int| 0 <= k < out.len() implies (#[trigger] out[k]).caller_file != file
            && exists|m: int| 0 <= m < cs.len() && cs[m] == out[k] by {
            if k < rest.len() {
                let m = choose|m: int| 0 <= m < init.len() && init[m] == rest[k];
                assert(cs[m] == out[k]);
            } else {
                assert(cs[cs.len() - 1] == out[k]);
            }
        }
    }
}

/// The symbols and the calls that were taken from source files.
pub struct RustParser {
    symbols: Vec<SymbolEntry>,
    call_graph: Vec<CallInfo>,
}

/// What a `RustParser` holds: the groups of symbols in the order in which
/// their names first came, and the calls in the order in which they were found.
pub struct ParserState {
    pub groups: Seq<SymbolGroup>,
    pub calls: Seq<CallRecord>,
}

impl View for RustParser {
    type V = ParserState;

    closed spec fn view(&self) -> ParserState {
        ParserState {
            groups: symbol_groups(self.symbols@),
            calls: call_records(self.call_graph@),
        }
    }
}

impl RustParser {
    /// The groups of symbols are well formed.
    pub open spec fn wf(&self) -> bool {
        groups_wf(self@.groups)
    }

    /// A parser that holds no symbol and no call.
    pub fn new() -> (p: Self)
        ensures
            p@.groups.len() == 0,
            p@.calls.len() == 0,
            p.wf(),
    {
        RustParser { symbols: Vec::new(), call_graph: Vec::new() }
    }

    /// Index of the entry named `name`.
    fn entry_index(&self, name: &String) -> (r: Option<usize>)
        ensures
            match r {
                Some(i) => group_index(self@.groups, name@) == Some(i as int) && i
                    < self.symbols@.len(),
                None => group_index(self@.groups, name@) is None,
            },
    {
        let ghost gs = self@.groups;
        let mut i: usize = self.symbols.len();
        assert(gs.take(gs.len() as int) == gs);
        while i > 0
            invariant
                i <= self.symbols@.len(),
                gs == self@.groups,
                gs.len() == self.symbols@.len(),
                group_index(gs, name@) == group_index(gs.take(i as int), name@),
            decreases i,
        {
            i -= 1;
            assert(gs.take(i as int + 1).drop_last() == gs.take(i as int));
            if self.symbols[i].name == *name {
                return Some(i);
            }
        }
        None
    }

    /// The definitions of `name` that are of kind `symbol_type`, or all of
    /// them where no kind is given; `None` where nothing has that name.
    pub fn find_symbol(&self, name: &str, symbol_type: Option<SymbolType>) -> (r: Option<
        Vec<&SymbolInfo>,
    >)
        ensures
            match r {
                Some(found) => lookup(self@.groups, name@) is Some && symbol_ref_records(found@)
                    == of_kind(lookup(self@.groups, name@)->0, symbol_type),
                None => lookup(self@.groups, name@) is None,
            },
    {
        let key = name.to_string();
        match self.entry_index(&key) {
            None => None,
            Some(i) => {
                let entry = &self.symbols[i];
                let ghost rs = symbol_records(entry.symbols@);
                let mut found: Vec<&SymbolInfo> = Vec::new();
                let mut k: usize = 0;
                assert(symbol_ref_records(found@) =~= of_kind(rs.take(0), symbol_type));
                while k < entry.symbols.len()
                    invariant
                        k <= entry.symbols@.len(),
                        rs == symbol_records(entry.symbols@),
                        symbol_ref_records(found@) == of_kind(rs.take(k as int), symbol_type),
                    decreases entry.symbols.len() - k,
                {
                    let s = &entry.symbols[k];
                    let keep = match symbol_type {
                        None => true,
                        Some(t) => s.symbol_type == t,
                    };
                    assert(rs.take(k as int + 1).drop_last() == rs.take(k as int));
                    if keep {
                        let ghost before = symbol_ref_records(found@);
                        found.push(s);
                        assert(symbol_ref_records(found@) =~= before.push(s@));
                    }
                    k += 1;
                }
                assert(rs.take(rs.len() as int) == rs);
                Some(found)
            },
        }
    }

    /// Adds `info` at the end of the definitions of its name.
    pub fn add_symbol(&mut self, info: SymbolInfo)
        requires
            old(self).wf(),
        ensures
            final(self)@.groups == insert_record(old(self)@.groups, info@),
            final(self)@.calls == old(self)@.calls,
            final(self).wf(),
    {
        proof {
            lemma_insert_record_wf(self@.groups, info@);
        }
        match self.entry_index(&info.name) {
            Some(i) => {
                let ghost before = symbol_records(self.symbols[i as int].symbols@);
                self.symbols[i].symbols.push(info);
                assert(symbol_records(self.symbols[i as int].symbols@) =~= before.push(info@));
                assert(self@.groups =~= insert_record(old(self)@.groups, info@));
            },
            None => {
                let name = info.name.clone();
                let mut symbols: Vec<SymbolInfo> = Vec::new();
                symbols.push(info);
                assert(symbol_records(symbols@) =~= seq![info@]);
                self.symbols.push(SymbolEntry { name, symbols });
                assert(self@.groups =~= insert_record(old(self)@.groups, info@));
            },
        }
    }

    /// Adds `call` at the end of the calls.
    pub fn add_call(&mut self, call: CallInfo)
        ensures
            final(self)@.groups == old(self)@.groups,
            final(self)@.calls == old(self)@.calls.push(call@),
    {
        self.call_graph.push(call);
        assert(self@.calls =~= old(self)@.calls.push(call@));
    }

    /// Takes out every symbol that is defined in `file_path` and every call
    /// whose caller is defined there. A name that is left without a
    /// definition leaves with them.
    pub fn remove_file_symbols(&mut self, file_path: &str)
        requires
            old(self).wf(),
        ensures
            final(self)@.groups == groups_outside(old(self)@.groups, file_path@),
            final(self)@.calls == calls_outside(old(self)@.calls, file_path@),
            final(self).wf(),
    {
        let key = file_path.to_string();
        let ghost gs = self@.groups;
        let ghost cs = self@.calls;
        let mut groups: Vec<SymbolEntry> = Vec::new();
        let mut i: usize = 0;
        assert(symbol_groups(groups@) =~= groups_outside(gs.take(0), key@));
        while i < self.symbols.len()
            invariant
                i <= self.symbols@.len(),
                gs == symbol_groups(self.symbols@),
                key@ == file_path@,
                symbol_groups(groups@) == groups_outside(gs.take(i as int), key@),
            decreases self.symbols.len() - i,
        {
            let entry = &self.symbols[i];
            let ghost rs = symbol_records(entry.symbols@);
            let mut kept: Vec<SymbolInfo> = Vec::new();
            let mut k: usize = 0;
            assert(symbol_records(kept@) =~= records_outside(rs.take(0), key@));
            while k < entry.symbols.len()
                invariant
                    k <= entry.symbols@.len(),
                    rs == symbol_records(entry.symbols@),
                    symbol_records(kept@) == records_outside(rs.take(k as int), key@),
                decreases entry.symbols.len() - k,
            {
                assert(rs.take(k as int + 1).drop_last() == rs.take(k as int));
                if entry.symbols[k].file_path != key {
                    let ghost before = symbol_records(kept@);
                    let copy = entry.symbols[k].clone();
                    kept.push(copy);
                    assert(symbol_records(kept@) =~= before.push(copy@));
                }
                k += 1;
            }
            assert(rs.take(rs.len() as int) == rs);
            assert(gs.take(i as int + 1).drop_last() == gs.take(i as int));
            if kept.len() > 0 {
                let ghost before = symbol_groups(groups@);
                let entry_copy = SymbolEntry { name: entry.name.clone(), symbols: kept };
                groups.push(entry_copy);
                assert(symbol_groups(groups@) =~= before.push(entry_copy@));
            }
            i += 1;
        }
        assert(gs.take(gs.len() as int) == gs);
        let mut calls: Vec<CallInfo> = Vec::new();
        let mut k: usize = 0;
        assert(call_records(calls@) =~= calls_outside(cs.take(0), key@));
        while k < self.call_graph.len()
            invariant
                k <= self.call_graph@.len(),
                cs == call_records(self.call_graph@),
                call_records(calls@) == calls_outside(cs.take(k as int), key@),
            decreases self.call_graph.len() - k,
        {
            assert(cs.take(k as int + 1).drop_last() == cs.take(k as int));
            if self.call_graph[k].caller_file != key {
                let ghost before = call_records(calls@);
                let copy = self.call_graph[k].clone();
                calls.push(copy);
                assert(call_records(calls@) =~= before.push(copy@));
            }
            k += 1;
        }
        assert(cs.take(cs.len() as int) == cs);
        proof {
            lemma_groups_outside_wf(gs, key@);
        }
        self.symbols = groups;
        self.call_graph = calls;
    }

    /// Adds the symbols that the items declare, in the order of the items.
    pub fn extract_symbols(&mut self, items: &Vec<Declaration>, file_path: &str, content: &str)
        requires
            old(self).wf(),
        ensures
            final(self)@.groups == with_items(
                old(self)@.groups,
                declaration_views(items@),
                items@.len() as int,
                file_path@,
                lines_of(content@),
            ),
            final(self)@.calls == old(self)@.calls,
            final(self).wf(),
    {
        let lines = source_lines(content);
        self.add_symbols_of(items, file_path, &lines);
    }

    fn add_symbols_of(&mut self, items: &Vec<Declaration>, file_path: &str, lines: &Vec<Vec<char>>)
        requires
            old(self).wf(),
            lines_fit(rows(lines@)),
        ensures
            final(self)@.groups == with_items(
                old(self)@.groups,
                declaration_views(items@),
                items@.len() as int,
                file_path@,
                rows(lines@),
            ),
            final(self)@.calls == old(self)@.calls,
            final(self).wf(),
    {
        let mut i: usize = 0;
        while i < items.len()
            invariant
                i <= items@.len(),
                lines_fit(rows(lines@)),
                self.wf(),
                self@.calls == old(self)@.calls,
                self@.groups == with_items(
                    old(self)@.groups,
                    declaration_views(items@),
                    i as int,
                    file_path@,
                    rows(lines@),
                ),
            decreases items.len() - i,
        {
            match &items[i] {
                Declaration::Function(f) => {
                    self.add_symbol(function_info(f, file_path, lines));
                },
                Declaration::Struct(t) => {
                    self.add_symbol(type_info(t, SymbolType::Struct, file_path, lines));
                },
                Declaration::Enum(t) => {
                    self.add_symbol(type_info(t, SymbolType::Enum, file_path, lines));
                },
                Declaration::Trait(t) => {
                    self.add_symbol(type_info(t, SymbolType::Trait, file_path, lines));
                },
                Declaration::Other => {},
            }
            i += 1;
        }
    }

    /// The record of a function declared in `file_path`, whose text is `content`.
    pub fn extract_function_info(&self, item_fn: &FunctionDecl, file_path: &str, content: &str) -> (r:
        SymbolInfo)
        ensures
            r@ == function_record(item_fn@, file_path@, lines_of(content@)),
    {
        let lines = source_lines(content);
        function_info(item_fn, file_path, &lines)
    }

    /// The record of a struct declared in `file_path`, whose text is `content`.
    pub fn extract_struct_info(&self, item_struct: &TypeDecl, file_path: &str, content: &str) -> (r:
        SymbolInfo)
        ensures
            r@ == type_record(item_struct@, SymbolType::Struct, file_path@, lines_of(content@)),
    {
        let lines = source_lines(content);
        type_info(item_struct, SymbolType::Struct, file_path, &lines)
    }

    /// The record of an enum declared in `file_path`, whose text is `content`.
    pub fn extract_enum_info(&self, item_enum: &TypeDecl, file_path: &str, content: &str) -> (r:
        SymbolInfo)
        ensures
            r@ == type_record(item_enum@, SymbolType::Enum, file_path@, lines_of(content@)),
    {
        let lines = source_lines(content);
        type_info(item_enum, SymbolType::Enum, file_path, &lines)
    }

    /// The record of a trait declared in `file_path`, whose text is `content`.
    pub fn extract_trait_info(&self, item_trait: &TypeDecl, file_path: &str, content: &str) -> (r:
        SymbolInfo)
        ensures
            r@ == type_record(item_trait@, SymbolType::Trait, file_path@, lines_of(content@)),
    {
        let lines = source_lines(content);
        type_info(item_trait, SymbolType::Trait, file_path, &lines)
    }

    /// A function's signature as text.
    pub fn format_signature(&self, sig: &FunctionDecl) -> (r: String)
        ensures
            r@ == signature_text(sig@),
    {
        render_signature(sig)
    }

    /// A visibility as text.
    pub fn format_visibility(&self, vis: &Access) -> (r: String)
        ensures
            r@ == visibility_text(vis@),
    {
        render_visibility(vis)
    }

    /// Generic parameters as text; `None` where there is none.
    pub fn format_generics(&self, generics: &Vec<String>) -> (r: Option<String>)
        ensures
            opt_text(r) == generics_text(texts(generics@)),
    {
        render_generics(generics)
    }

    /// Line, counted from 1, and byte column at which `content` declares
    /// `symbol_name` with `keyword`; line 1 and column 0 where it does not.
    pub fn find_symbol_location(&self, symbol_name: &str, content: &str, keyword: &str) -> (r: (
        usize,
        usize,
    ))
        ensures
            (r.0 as nat, r.1 as nat) == symbol_location(
                lines_of(content@),
                keyword@,
                symbol_name@,
            ),
    {
        let lines = source_lines(content);
        locate_symbol(&lines, to_chars(keyword).as_slice(), to_chars(symbol_name).as_slice())
    }

    /// Adds the calls that are made in the bodies of the functions among
    /// the items, in the order of the items.
    pub fn extract_function_calls(&mut self, items: &Vec<Declaration>, file_path: &str, content: &str)
        ensures
            final(self)@.groups == old(self)@.groups,
            final(self)@.calls == old(self)@.calls + items_calls(
                declaration_views(items@),
                items@.len() as int,
                file_path@,
                lines_of(content@),
            ),
    {
        let lines = source_lines(content);
        self.add_calls_of(items, file_path, &lines);
    }

    fn add_calls_of(&mut self, items: &Vec<Declaration>, file_path: &str, lines: &Vec<Vec<char>>)
        requires
            lines_fit(rows(lines@)),
        ensures
            final(self)@.groups == old(self)@.groups,
            final(self)@.calls == old(self)@.calls + items_calls(
                declaration_views(items@),
                items@.len() as int,
                file_path@,
                rows(lines@),
            ),
    {
        let file = file_path.to_string();
        let keyword = to_chars("fn");
        let mut i: usize = 0;
        assert(self@.calls =~= old(self)@.calls + items_calls(declaration_views(items@), 0, file_path@, rows(lines@)));
        while i < items.len()
            invariant
                i <= items@.len(),
                lines_fit(rows(lines@)),
                file@ == file_path@,
                keyword@ == "fn"@,
                self@.groups == old(self)@.groups,
                self@.calls == old(self)@.calls + items_calls(
                    declaration_views(items@),
                    i as int,
                    file_path@,
                    rows(lines@),
                ),
            decreases items.len() - i,
        {
            match &items[i] {
                Declaration::Function(f) => {
                    let name = to_chars(f.name.as_str());
                    let loc = locate_symbol(lines, keyword.as_slice(), name.as_slice());
                    collect_stmts_calls(&f.body, &f.name, &file, loc.0, lines, &mut self.call_graph);
                },
                _ => {},
            }
            i += 1;
            assert(self@.calls =~= old(self)@.calls + items_calls(
                declaration_views(items@),
                i as int,
                file_path@,
                rows(lines@),
            ));
        }
    }

    /// Adds the calls that are made in the statements of `block`, which
    /// stands in the body of `caller`.
    pub fn extract_calls_from_block(
        &mut self,
        block: &Vec<Statement>,
        caller: &str,
        caller_file: &str,
        caller_line: usize,
        content: &str,
    )
        ensures
            final(self)@.groups == old(self)@.groups,
            final(self)@.calls == old(self)@.calls + stmts_calls(
                statement_views(block@),
                block@.len() as int,
                call_site(caller@, caller_file@, caller_line as nat, lines_of(content@)),
            ),
    {
        let lines = source_lines(content);
        collect_stmts_calls(
            block,
            &caller.to_string(),
            &caller_file.to_string(),
            caller_line,
            &lines,
            &mut self.call_graph,
        );
    }

    /// Adds the calls that are made in `stmt`, which stands in the body of `caller`.
    pub fn extract_calls_from_stmt(
        &mut self,
        stmt: &Statement,
        caller: &str,
        caller_file: &str,
        caller_line: usize,
        content: &str,
    )
        ensures
            final(self)@.groups == old(self)@.groups,
            final(self)@.calls == old(self)@.calls + stmt_calls(
                stmt@,
                call_site(caller@, caller_file@, caller_line as nat, lines_of(content@)),
            ),
    {
        let lines = source_lines(content);
        collect_stmt_calls(
            stmt,
            &caller.to_string(),
            &caller_file.to_string(),
            caller_line,
            &lines,
            &mut self.call_graph,
        );
    }

    /// Adds the calls that are made in `expr`, which stands in the body of `caller`.
    pub fn extract_calls_from_expr(
        &mut self,
        expr: &Expression,
        caller: &str,
        caller_file: &str,
        caller_line: usize,
        content: &str,
    )
        ensures
            final(self)@.groups == old(self)@.groups,
            final(self)@.calls == old(self)@.calls + expr_calls(
                expr@,
                call_site(caller@, caller_file@, caller_line as nat, lines_of(content@)),
            ),
    {
        let lines = source_lines(content);
        collect_expr_calls(
            expr,
            &caller.to_string(),
            &caller_file.to_string(),
            caller_line,
            &lines,
            &mut self.call_graph,
        );
    }

    /// Line, counted from 1, and byte column of the first call of `callee`
    /// at or after line `start_line` of `content`; line `start_line` and
    /// column 0 where there is none.
    pub fn find_call_location(&self, callee: &str, content: &str, start_line: usize) -> (r: (
        usize,
        usize,
    ))
        ensures
            (r.0 as nat, r.1 as nat) == call_location(
                lines_of(content@),
                callee@,
                start_line as nat,
            ),
    {
        let lines = source_lines(content);
        locate_call(&lines, to_chars(callee).as_slice(), start_line)
    }

    /// Line `line` of `content`, counted from 1, without the white space
    /// around it; empty where there is no such line.
    pub fn get_line_context(&self, content: &str, line: usize) -> (r: String)
        ensures
            r@ == line_context(lines_of(content@), line as nat),
    {
        let lines = source_lines(content);
        context_of(&lines, line)
    }

    /// Adds the symbols and the calls of the items of one file.
    pub fn extract(&mut self, file_path: &str, items: &Vec<Declaration>, content: &str)
        requires
            old(self).wf(),
        ensures
            final(self)@ == extracted(
                old(self)@,
                file_path@,
                declaration_views(items@),
                content@,
            ),
            final(self).wf(),
    {
        let lines = source_lines(content);
        self.add_symbols_of(items, file_path, &lines);
        self.add_calls_of(items, file_path, &lines);
    }

    /// Parses `content`, the text of the file `file_path`, and adds the
    /// symbols and the calls of its items. It succeeds where `syn` gives a
    /// tree for the text, and changes nothing where it does not.
    pub fn parse_file(&mut self, file_path: &str, content: &str) -> (r: Result<(), ParseError>)
        requires
            old(self).wf(),
        ensures
            final(self).wf(),
            r is Ok <==> parses(content@),
            r is Err ==> final(self)@ == old(self)@,
            r is Ok ==> final(self)@ == extracted(
                old(self)@,
                file_path@,
                lowered(content@)->0,
                content@,
            ),
    {
        match parse_items(content) {
            Err(e) => Err(e),
            Ok(items) => {
                self.extract(file_path, &items, content);
                Ok(())
            },
        }
    }

    /// The uses of `symbol_name` in `files`, as far as a symbol is defined
    /// in them: in the order of their places, one for each place. See
    /// `found_usages`.
    pub fn find_usages(
        &self,
        symbol_name: &str,
        symbol_type: Option<SymbolType>,
        files: &Vec<crate::indexer::SourceFile>,
    ) -> (r: Vec<UsageInfo>)
        ensures
            usage_records(r@) == found_usages(self@.groups, symbol_name@, symbol_type, files@),
    {
        let all = collect_all_usages(&self.symbols, symbol_name, symbol_type, files);
        let sorted = sort_usages(&all);
        dedup_usages(&sorted)
    }

    /// The uses of `symbol_name` in `content`, the text of `file_path`:
    /// each place at which the name stands as a word of its own, except on
    /// the lines that define it.
    pub fn find_usages_in_content(
        &self,
        symbol_name: &str,
        symbol_type: Option<SymbolType>,
        content: &str,
        file_path: &str,
    ) -> (r: Vec<UsageInfo>)
        ensures
            usage_records(r@) == content_usages(
                symbol_name@,
                symbol_type,
                lines_of(content@),
                lines_of(content@).len() as int,
                file_path@,
            ),
    {
        let lines = source_lines(content);
        let name = to_chars(symbol_name);
        let mut usages: Vec<UsageInfo> = Vec::new();
        assert(usage_records(usages@) =~= Seq::<UsageRecord>::empty());
        collect_usages(name.as_slice(), symbol_type, &lines, &file_path.to_string(), &mut usages);
        assert(usage_records(usages@) =~= content_usages(
            symbol_name@,
            symbol_type,
            lines_of(content@),
            lines_of(content@).len() as int,
            file_path@,
        ));
        usages
    }

    /// How `symbol_name` is used at the byte offset `pos` of `line`.
    pub fn determine_usage_type(
        &self,
        line: &str,
        pos: usize,
        symbol_name: &str,
        symbol_type: Option<SymbolType>,
    ) -> (r: UsageType)
        ensures
            r == usage_type_at(line@, pos as nat, symbol_name@, symbol_type),
    {
        usage_type_of(
            to_chars(line).as_slice(),
            pos,
            to_chars(symbol_name).as_slice(),
            symbol_type,
        )
    }

    /// Whether `line` defines `symbol_name` as a symbol of kind
    /// `symbol_type`, or of any kind where none is given.
    pub fn is_definition_line(&self, line: &str, symbol_name: &str, symbol_type: Option<SymbolType>) -> (r:
        bool)
        ensures
            r == is_definition(line@, symbol_name@, symbol_type),
    {
        definition_line(to_chars(line).as_slice(), to_chars(symbol_name).as_slice(), symbol_type)
    }

    /// The groups of symbols.
    pub fn get_all_symbols(&self) -> (r: &Vec<SymbolEntry>)
        ensures
            symbol_groups(r@) == self@.groups,
    {
        &self.symbols
    }

    /// The calls.
    pub fn get_call_graph(&self) -> (r: &Vec<CallInfo>)
        ensures
            call_records(r@) == self@.calls,
    {
        &self.call_graph
    }

    /// The calls that `function_name` makes.
    pub fn get_calls_from_function(&self, function_name: &str) -> (r: Vec<&CallInfo>)
        ensures
            call_ref_records(r@) == calls_from(self@.calls, function_name@),
    {
        let key = function_name.to_string();
        let ghost cs = self@.calls;
        let mut found: Vec<&CallInfo> = Vec::new();
        let mut k: usize = 0;
        assert(call_ref_records(found@) =~= calls_from(cs.take(0), key@));
        while k < self.call_graph.len()
            invariant
                k <= self.call_graph@.len(),
                cs == call_records(self.call_graph@),
                key@ == function_name@,
                call_ref_records(found@) == calls_from(cs.take(k as int), key@),
            decreases self.call_graph.len() - k,
        {
            let c = &self.call_graph[k];
            assert(cs.take(k as int + 1).drop_last() == cs.take(k as int));
            if c.caller == key {
                let ghost before = call_ref_records(found@);
                found.push(c);
                assert(call_ref_records(found@) =~= before.push(c@));
            }
            k += 1;
        }
        assert(cs.take(cs.len() as int) == cs);
        found
    }

    /// The calls that are made to `function_name`.
    pub fn get_calls_to_function(&self, function_name: &str) -> (r: Vec<&CallInfo>)
        ensures
            call_ref_records(r@) == calls_to(self@.calls, function_name@),
    {
        let key = function_name.to_string();
        let ghost cs = self@.calls;
        let mut found: Vec<&CallInfo> = Vec::new();
        let mut k: usize = 0;
        assert(call_ref_records(found@) =~= calls_to(cs.take(0), key@));
        while k < self.call_graph.len()
            invariant
                k <= self.call_graph@.len(),
                cs == call_records(self.call_graph@),
                key@ == function_name@,
                call_ref_records(found@) == calls_to(cs.take(k as int), key@),
            decreases self.call_graph.len() - k,
        {
            let c = &self.call_graph[k];
            assert(cs.take(k as int + 1).drop_last() == cs.take(k as int));
            if c.callee == key {
                let ghost before = call_ref_records(found@);
                found.push(c);
                assert(call_ref_records(found@) =~= before.push(c@));
            }
            k += 1;
        }
        assert(cs.take(cs.len() as int) == cs);
        found
    }
}

} // verus!
