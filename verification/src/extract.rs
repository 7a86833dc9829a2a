use crate::locate::{
    call_location, context_of, line_context, lines_fit, locate_call, locate_symbol, symbol_location,
};
use crate::parser::{
    call_records, groups_outside, groups_wf, insert_record, lemma_groups_outside_insert,
    lemma_insert_record_wf, lemma_lookup_insert_other, lookup, CallInfo, CallRecord, ParserState,
    SymbolGroup, SymbolInfo, SymbolRecord,
};
use crate::protocol::SymbolType;
use crate::syntax::{
    expression_views, statement_views, Access, AccessView, DeclarationView, Expression,
    ExpressionView, FunctionDecl, FunctionView, Statement, StatementView, TypeDecl, TypeView,
};
use crate::text::{lines_of, rows, to_chars};
use vstd::prelude::*;
use vstd::string::StringExecFns;

verus! {

/// The views of the strings of `v`.
pub open spec fn texts(v: Seq<String>) -> Seq<Seq<char>> {
    v.map_values(|s: String| s@)
}

/// The parts in order, with `sep` between each two.
pub open spec fn join(parts: Seq<Seq<char>>, sep: Seq<char>) -> Seq<char>
    decreases parts.len(),
{
    if parts.len() == 0 {
        Seq::empty()
    } else if parts.len() == 1 {
        parts[0]
    } else {
        join(parts.drop_last(), sep) + sep + parts.last()
    }
}

/// A function's signature as text: `async` where it is asynchronous, `fn`,
/// the name, the parameters between parentheses, and the return type after
/// an arrow where one is written.
pub open spec fn signature_text(f: FunctionView) -> Seq<char> {
    (if f.is_async {
        "async "@
    } else {
        Seq::empty()
    }) + "fn "@ + f.name + "("@ + join(f.params, ", "@) + ")"@ + (match f.output {
        Some(t) => " -> "@ + t,
        None => Seq::empty(),
    })
}

/// A visibility as text.
pub open spec fn visibility_text(vis: AccessView) -> Seq<char> {
    match vis {
        AccessView::Public => "pub"@,
        AccessView::Crate => "pub(crate)"@,
        AccessView::Restricted(t) => "pub("@ + t + ")"@,
        AccessView::Inherited => "private"@,
    }
}

/// The generic parameters between angle brackets; nothing where there is none.
pub open spec fn generics_text(generics: Seq<Seq<char>>) -> Option<Seq<char>> {
    if generics.len() == 0 {
        None
    } else {
        Some("<"@ + join(generics, ", "@) + ">"@)
    }
}

/// The keyword that declares a symbol of kind `kind`.
pub open spec fn kind_keyword(kind: SymbolType) -> Seq<char> {
    match kind {
        SymbolType::Function => "fn"@,
        SymbolType::Struct => "struct"@,
        SymbolType::Enum => "enum"@,
        SymbolType::Trait => "trait"@,
    }
}

/// The record of the function `f`, declared in `file` with the lines `lines`.
pub open spec fn function_record(f: FunctionView, file: Seq<char>, lines: Seq<Seq<char>>) -> SymbolRecord {
    let loc = symbol_location(lines, "fn"@, f.name);
    SymbolRecord {
        name: f.name,
        symbol_type: SymbolType::Function,
        file_path: file,
        line: loc.0,
        column: loc.1,
        signature: signature_text(f),
        visibility: visibility_text(f.vis),
        generics: generics_text(f.generics),
    }
}

/// The record of the struct, enum or trait `t`, declared in `file` with the
/// lines `lines`. Its signature is the keyword, the name and the generic
/// parameters.
pub open spec fn type_record(
    t: TypeView,
    kind: SymbolType,
    file: Seq<char>,
    lines: Seq<Seq<char>>,
) -> SymbolRecord {
    let loc = symbol_location(lines, kind_keyword(kind), t.name);
    let generics = generics_text(t.generics);
    SymbolRecord {
        name: t.name,
        symbol_type: kind,
        file_path: file,
        line: loc.0,
        column: loc.1,
        signature: kind_keyword(kind) + " "@ + t.name + (match generics {
            Some(g) => g,
            None => Seq::empty(),
        }),
        visibility: visibility_text(t.vis),
        generics,
    }
}

/// The record of `item`, where it declares a symbol.
pub open spec fn item_record(item: DeclarationView, file: Seq<char>, lines: Seq<Seq<char>>) -> Option<
    SymbolRecord,
> {
    match item {
        DeclarationView::Function(f) => Some(function_record(f, file, lines)),
        DeclarationView::Struct(t) => Some(type_record(t, SymbolType::Struct, file, lines)),
        DeclarationView::Enum(t) => Some(type_record(t, SymbolType::Enum, file, lines)),
        DeclarationView::Trait(t) => Some(type_record(t, SymbolType::Trait, file, lines)),
        DeclarationView::Other => None,
    }
}

/// The function in whose body calls are looked for.
pub struct CallSite {
    pub caller: Seq<char>,
    pub file: Seq<char>,
    pub line: nat,
    pub lines: Seq<Seq<char>>,
}

/// The site of the function `caller` of `file`, which is declared on line `line`.
pub open spec fn call_site(caller: Seq<char>, file: Seq<char>, line: nat, lines: Seq<Seq<char>>) -> CallSite {
    CallSite { caller, file, line, lines }
}

/// The record of a call of `callee` in the body of the function of `site`.
pub open spec fn call_record(site: CallSite, callee: Seq<char>) -> CallRecord {
    let loc = call_location(site.lines, callee, site.line);
    CallRecord {
        caller: site.caller,
        caller_file: site.file,
        caller_line: site.line,
        callee,
        call_line: loc.0,
        call_column: loc.1,
        call_context: line_context(site.lines, loc.0),
    }
}

/// The calls in `e`: a call of a function named by one identifier, then the
/// calls in its arguments; a method call, then the calls in its receiver and
/// in its arguments; the calls in the parts of a block, a conditional, a
/// match and a binary operation. Nothing else is looked into.
pub open spec fn expr_calls(e: ExpressionView, site: CallSite) -> Seq<CallRecord>
    decreases e,
{
    match e {
        ExpressionView::Call { callee, args } => (match callee {
            Some(c) => seq![call_record(site, c)],
            None => Seq::empty(),
        }) + exprs_calls(args, args.len() as int, site),
        ExpressionView::MethodCall { method, receiver, args } => seq![call_record(site, method)]
            + expr_calls(*receiver, site) + exprs_calls(args, args.len() as int, site),
        ExpressionView::Block(stmts) => stmts_calls(stmts, stmts.len() as int, site),
        ExpressionView::If { cond, then_branch, else_branch } => expr_calls(*cond, site) + stmts_calls(
            then_branch,
            then_branch.len() as int,
            site,
        ) + (match else_branch {
            Some(b) => expr_calls(*b, site),
            None => Seq::empty(),
        }),
        ExpressionView::Match { scrutinee, arms } => expr_calls(*scrutinee, site) + exprs_calls(
            arms,
            arms.len() as int,
            site,
        ),
        ExpressionView::Binary { left, right } => expr_calls(*left, site) + expr_calls(*right, site),
        ExpressionView::Other => Seq::empty(),
    }
}

/// The calls in the first `n` expressions of `es`.
pub open spec fn exprs_calls(es: Seq<ExpressionView>, n: int, site: CallSite) -> Seq<CallRecord>
    decreases es, n,
{
    if n <= 0 || n > es.len() {
        Seq::empty()
    } else {
        exprs_calls(es, n - 1, site) + expr_calls(es[n - 1], site)
    }
}

/// The calls in `s`: those in the value of a `let` and in an expression.
pub open spec fn stmt_calls(s: StatementView, site: CallSite) -> Seq<CallRecord>
    decreases s,
{
    match s {
        StatementView::Local(Some(e)) => expr_calls(e, site),
        StatementView::Expression(e) => expr_calls(e, site),
        _ => Seq::empty(),
    }
}

/// The calls in the first `n` statements of `ss`.
pub open spec fn stmts_calls(ss: Seq<StatementView>, n: int, site: CallSite) -> Seq<CallRecord>
    decreases ss, n,
{
    if n <= 0 || n > ss.len() {
        Seq::empty()
    } else {
        stmts_calls(ss, n - 1, site) + stmt_calls(ss[n - 1], site)
    }
}

/// The calls in the body of `item`, where it is a function.
pub open spec fn item_calls(item: DeclarationView, file: Seq<char>, lines: Seq<Seq<char>>) -> Seq<CallRecord> {
    match item {
        DeclarationView::Function(f) => stmts_calls(
            f.body,
            f.body.len() as int,
            call_site(f.name, file, symbol_location(lines, "fn"@, f.name).0, lines),
        ),
        _ => Seq::empty(),
    }
}

/// The calls in the bodies of the first `n` items of `items`.
pub open spec fn items_calls(items: Seq<DeclarationView>, n: int, file: Seq<char>, lines: Seq<Seq<char>>) -> Seq<
    CallRecord,
>
    decreases n,
{
    if n <= 0 || n > items.len() {
        Seq::empty()
    } else {
        items_calls(items, n - 1, file, lines) + item_calls(items[n - 1], file, lines)
    }
}

/// `gs` with the records of the first `n` items of `items` added in order.
pub open spec fn with_items(
    gs: Seq<SymbolGroup>,
    items: Seq<DeclarationView>,
    n: int,
    file: Seq<char>,
    lines: Seq<Seq<char>>,
) -> Seq<SymbolGroup>
    decreases n,
{
    if n <= 0 || n > items.len() {
        gs
    } else {
        let prev = with_items(gs, items, n - 1, file, lines);
        match item_record(items[n - 1], file, lines) {
            Some(r) => insert_record(prev, r),
            None => prev,
        }
    }
}

/// The state after the symbols and the calls of the items of one file, with
/// the text `content`, were added to `state`.
pub open spec fn extracted(
    state: ParserState,
    file: Seq<char>,
    items: Seq<DeclarationView>,
    content: Seq<char>,
) -> ParserState {
    ParserState {
        groups: with_items(state.groups, items, items.len() as int, file, lines_of(content)),
        calls: state.calls + items_calls(items, items.len() as int, file, lines_of(content)),
    }
}

/// Adding the records of items keeps the groups well formed.
pub proof fn lemma_with_items_wf(
    gs: Seq<SymbolGroup>,
    items: Seq<DeclarationView>,
    n: int,
    file: Seq<char>,
    lines: Seq<Seq<char>>,
)
    requires
        groups_wf(gs),
    ensures
        groups_wf(with_items(gs, items, n, file, lines)),
    decreases n,
{
    if 0 < n <= items.len() {
        lemma_with_items_wf(gs, items, n - 1, file, lines);
        match item_record(items[n - 1], file, lines) {
            Some(r) => {
                lemma_insert_record_wf(with_items(gs, items, n - 1, file, lines), r);
            },
            None => {},
        }
    }
}

/// Every call of `cs` is made by the function of `site`.
pub open spec fn calls_of_site(cs: Seq<CallRecord>, site: CallSite) -> bool {
    forall|k: int|
        0 <= k < cs.len() ==> (#[trigger] cs[k]).caller == site.caller && cs[k].caller_file
            == site.file && cs[k].caller_line == site.line
}

/// Every call found in an expression is made by the function in whose
/// body the expression stands.
pub proof fn lemma_expr_calls_site(e: ExpressionView, site: CallSite)
    ensures
        calls_of_site(expr_calls(e, site), site),
    decreases e,
{
    match e {
        ExpressionView::Call { callee, args } => {
            lemma_exprs_calls_site(args, args.len() as int, site);
        },
        ExpressionView::MethodCall { method, receiver, args } => {
            lemma_expr_calls_site(*receiver, site);
            lemma_exprs_calls_site(args, args.len() as int, site);
        },
        ExpressionView::Block(stmts) => {
            lemma_stmts_calls_site(stmts, stmts.len() as int, site);
        },
        ExpressionView::If { cond, then_branch, else_branch } => {
            lemma_expr_calls_site(*cond, site);
            lemma_stmts_calls_site(then_branch, then_branch.len() as int, site);
            match else_branch {
                Some(b) => {
                    lemma_expr_calls_site(*b, site);
                },
                None => {},
            }
        },
        ExpressionView::Match { scrutinee, arms } => {
            lemma_expr_calls_site(*scrutinee, site);
            lemma_exprs_calls_site(arms, arms.len() as int, site);
        },
        ExpressionView::Binary { left, right } => {
            lemma_expr_calls_site(*left, site);
            lemma_expr_calls_site(*right, site);
        },
        ExpressionView::Other => {},
    }
}

proof fn lemma_exprs_calls_site(es: Seq<ExpressionView>, n: int, site: CallSite)
    ensures
        calls_of_site(exprs_calls(es, n, site), site),
    decreases es, n,
{
    if 0 < n <= es.len() {
        lemma_exprs_calls_site(es, n - 1, site);
        lemma_expr_calls_site(es[n - 1], site);
    }
}

proof fn lemma_stmt_calls_site(s: StatementView, site: CallSite)
    ensures
        calls_of_site(stmt_calls(s, site), site),
    decreases s,
{
    match s {
        StatementView::Local(Some(e)) => {
            lemma_expr_calls_site(e, site);
        },
        StatementView::Expression(e) => {
            lemma_expr_calls_site(e, site);
        },
        _ => {},
    }
}

/// Every call found in statements is made by the function in whose body
/// the statements stand.
pub proof fn lemma_stmts_calls_site(ss: Seq<StatementView>, n: int, site: CallSite)
    ensures
        calls_of_site(stmts_calls(ss, n, site), site),
    decreases ss, n,
{
    if 0 < n <= ss.len() {
        lemma_stmts_calls_site(ss, n - 1, site);
        lemma_stmt_calls_site(ss[n - 1], site);
    }
}

/// `name` is the name of a function among the first `n` of `items`.
pub open spec fn declares_function(items: Seq<DeclarationView>, n: int, name: Seq<char>) -> bool {
    exists|i: int|
        0 <= i < n && i < items.len() && (#[trigger] items[i]) is Function
            && items[i]->Function_0.name == name
}

/// Every call found in the items of a file is made in that file, by a
/// function that the items declare.
pub proof fn lemma_items_calls(items: Seq<DeclarationView>, n: int, file: Seq<char>, lines: Seq<Seq<char>>)
    ensures
        forall|k: int|
            0 <= k < items_calls(items, n, file, lines).len() ==> (#[trigger] items_calls(
                items,
                n,
                file,
                lines,
            )[k]).caller_file == file && declares_function(
                items,
                n,
                items_calls(items, n, file, lines)[k].caller,
            ),
    decreases n,
{
    if 0 < n <= items.len() {
        lemma_items_calls(items, n - 1, file, lines);
        let prev = items_calls(items, n - 1, file, lines);
        let here = item_calls(items[n - 1], file, lines);
        let all = items_calls(items, n, file, lines);
        match items[n - 1] {
            DeclarationView::Function(f) => {
                lemma_stmts_calls_site(
                    f.body,
                    f.body.len() as int,
                    call_site(f.name, file, symbol_location(lines, "fn"@, f.name).0, lines),
                );
            },
            _ => {},
        }
        assert forall|k: int| 0 <= k < all.len() implies (#[trigger] all[k]).caller_file == file
            && declares_function(items, n, all[k].caller) by {
            if k < prev.len() {
                assert(all[k] == prev[k]);
                let i = choose|i: int|
                    0 <= i < n - 1 && i < items.len() && (#[trigger] items[i]) is Function
                        && items[i]->Function_0.name == prev[k].caller;
                assert(items[i] is Function);
            } else {
                assert(all[k] == here[k - prev.len()]);
                assert(items[n - 1] is Function);
            }
        }
    }
}

/// Taking a file out after its items were added gives what taking it out
/// before gives.
pub proof fn lemma_with_items_outside(
    gs: Seq<SymbolGroup>,
    items: Seq<DeclarationView>,
    n: int,
    file: Seq<char>,
    lines: Seq<Seq<char>>,
)
    ensures
        groups_outside(with_items(gs, items, n, file, lines), file) == groups_outside(gs, file),
    decreases n,
{
    if 0 < n <= items.len() {
        lemma_with_items_outside(gs, items, n - 1, file, lines);
        match item_record(items[n - 1], file, lines) {
            Some(r) => {
                lemma_groups_outside_insert(with_items(gs, items, n - 1, file, lines), r, file);
            },
            None => {},
        }
    }
}

/// The first `n` of `items` declare no symbol named `name`.
pub open spec fn declares_none(
    items: Seq<DeclarationView>,
    n: int,
    file: Seq<char>,
    lines: Seq<Seq<char>>,
    name: Seq<char>,
) -> bool {
    forall|i: int|
        0 <= i < n && i < items.len() ==> match #[trigger] item_record(items[i], file, lines) {
            Some(r) => r.name != name,
            None => true,
        }
}

/// Adding items that declare nothing of a name does not change what is
/// found under that name.
pub proof fn lemma_with_items_lookup(
    gs: Seq<SymbolGroup>,
    items: Seq<DeclarationView>,
    n: int,
    file: Seq<char>,
    lines: Seq<Seq<char>>,
    name: Seq<char>,
)
    requires
        declares_none(items, n, file, lines, name),
    ensures
        lookup(with_items(gs, items, n, file, lines), name) == lookup(gs, name),
    decreases n,
{
    if 0 < n <= items.len() {
        lemma_with_items_lookup(gs, items, n - 1, file, lines, name);
        match item_record(items[n - 1], file, lines) {
            Some(r) => {
                lemma_lookup_insert_other(with_items(gs, items, n - 1, file, lines), r, name);
            },
            None => {},
        }
    }
}

/// Appends the parts to `out`, with `sep` between each two.
pub fn push_joined(out: &mut String, parts: &Vec<String>, sep: &str)
    ensures
        final(out)@ == old(out)@ + join(texts(parts@), sep@),
{
    let ghost ps = texts(parts@);
    let mut i: usize = 0;
    assert(out@ =~= old(out)@ + join(ps.take(0), sep@));
    while i < parts.len()
        invariant
            i <= parts@.len(),
            ps == texts(parts@),
            out@ == old(out)@ + join(ps.take(i as int), sep@),
        decreases parts.len() - i,
    {
        assert(ps.take(i as int + 1).drop_last() == ps.take(i as int));
        if i > 0 {
            out.append(sep);
        }
        out.append(parts[i].as_str());
        assert(out@ =~= old(out)@ + join(ps.take(i as int + 1), sep@));
        i += 1;
    }
    assert(ps.take(ps.len() as int) == ps);
}

/// See `signature_text`.
pub fn render_signature(f: &FunctionDecl) -> (r: String)
    ensures
        r@ == signature_text(f@),
{
    let mut r = String::new();
    if f.is_async {
        r.append("async ");
    }
    r.append("fn ");
    r.append(f.name.as_str());
    r.append("(");
    push_joined(&mut r, &f.params, ", ");
    r.append(")");
    match &f.output {
        Some(t) => {
            r.append(" -> ");
            r.append(t.as_str());
        },
        None => {},
    }
    assert(r@ =~= signature_text(f@));
    r
}

/// See `visibility_text`.
pub fn render_visibility(vis: &Access) -> (r: String)
    ensures
        r@ == visibility_text(vis@),
{
    match vis {
        Access::Public => "pub".to_string(),
        Access::Crate => "pub(crate)".to_string(),
        Access::Restricted(t) => {
            let mut r = "pub(".to_string();
            r.append(t.as_str());
            r.append(")");
            r
        },
        Access::Inherited => "private".to_string(),
    }
}

/// See `generics_text`.
pub fn render_generics(generics: &Vec<String>) -> (r: Option<String>)
    ensures
        crate::parser::opt_text(r) == generics_text(texts(generics@)),
{
    if generics.len() == 0 {
        None
    } else {
        let mut r = "<".to_string();
        push_joined(&mut r, generics, ", ");
        r.append(">");
        Some(r)
    }
}

/// The keyword that declares a symbol of kind `kind`.
pub fn keyword_of(kind: SymbolType) -> (r: &'static str)
    ensures
        r@ == kind_keyword(kind),
{
    match kind {
        SymbolType::Function => "fn",
        SymbolType::Struct => "struct",
        SymbolType::Enum => "enum",
        SymbolType::Trait => "trait",
    }
}

/// See `function_record`.
pub fn function_info(f: &FunctionDecl, file_path: &str, lines: &Vec<Vec<char>>) -> (r: SymbolInfo)
    requires
        lines_fit(rows(lines@)),
    ensures
        r@ == function_record(f@, file_path@, rows(lines@)),
{
    let name = to_chars(f.name.as_str());
    let loc = locate_symbol(lines, to_chars("fn").as_slice(), name.as_slice());
    SymbolInfo {
        name: f.name.clone(),
        symbol_type: SymbolType::Function,
        file_path: file_path.to_string(),
        line: loc.0,
        column: loc.1,
        signature: render_signature(f),
        visibility: render_visibility(&f.vis),
        generics: render_generics(&f.generics),
    }
}

/// See `type_record`.
pub fn type_info(t: &TypeDecl, kind: SymbolType, file_path: &str, lines: &Vec<Vec<char>>) -> (r:
    SymbolInfo)
    requires
        lines_fit(rows(lines@)),
    ensures
        r@ == type_record(t@, kind, file_path@, rows(lines@)),
{
    let keyword = keyword_of(kind);
    let name = to_chars(t.name.as_str());
    let loc = locate_symbol(lines, to_chars(keyword).as_slice(), name.as_slice());
    let generics = render_generics(&t.generics);
    let mut signature = keyword.to_string();
    signature.append(" ");
    signature.append(t.name.as_str());
    match &generics {
        Some(g) => {
            signature.append(g.as_str());
        },
        None => {},
    }
    assert(signature@ =~= type_record(t@, kind, file_path@, rows(lines@)).signature);
    SymbolInfo {
        name: t.name.clone(),
        symbol_type: kind,
        file_path: file_path.to_string(),
        line: loc.0,
        column: loc.1,
        signature,
        visibility: render_visibility(&t.vis),
        generics,
    }
}

/// See `call_record`.
fn call_info(callee: &String, caller: &String, caller_file: &String, caller_line: usize, lines: &Vec<
    Vec<char>,
>) -> (r: CallInfo)
    requires
        lines_fit(rows(lines@)),
    ensures
        r@ == call_record(
            call_site(caller@, caller_file@, caller_line as nat, rows(lines@)),
            callee@,
        ),
{
    let name = to_chars(callee.as_str());
    let loc = locate_call(lines, name.as_slice(), caller_line);
    CallInfo {
        caller: caller.clone(),
        caller_file: caller_file.clone(),
        caller_line,
        callee: callee.clone(),
        call_line: loc.0,
        call_column: loc.1,
        call_context: context_of(lines, loc.0),
    }
}

/// Appends the calls in `e` to `out`. See `expr_calls`.
pub fn collect_expr_calls(
    e: &Expression,
    caller: &String,
    caller_file: &String,
    caller_line: usize,
    lines: &Vec<Vec<char>>,
    out: &mut Vec<CallInfo>,
)
    requires
        lines_fit(rows(lines@)),
    ensures
        call_records(final(out)@) == call_records(old(out)@) + expr_calls(
            e@,
            call_site(caller@, caller_file@, caller_line as nat, rows(lines@)),
        ),
    decreases e,
{
    let ghost site = call_site(caller@, caller_file@, caller_line as nat, rows(lines@));
    let ghost before = call_records(out@);
    match e {
        Expression::Call { callee, args } => {
            match callee {
                Some(c) => {
                    let info = call_info(c, caller, caller_file, caller_line, lines);
                    out.push(info);
                    assert(call_records(out@) =~= before + seq![call_record(site, c@)]);
                },
                None => {
                    assert(call_records(out@) =~= before + Seq::<CallRecord>::empty());
                },
            }
            collect_exprs_calls(args, caller, caller_file, caller_line, lines, out);
            assert(call_records(out@) =~= before + expr_calls(e@, site));
        },
        Expression::MethodCall { method, receiver, args } => {
            let info = call_info(method, caller, caller_file, caller_line, lines);
            out.push(info);
            assert(call_records(out@) =~= before + seq![call_record(site, method@)]);
            collect_expr_calls(receiver, caller, caller_file, caller_line, lines, out);
            collect_exprs_calls(args, caller, caller_file, caller_line, lines, out);
            assert(call_records(out@) =~= before + expr_calls(e@, site));
        },
        Expression::Block(stmts) => {
            collect_stmts_calls(stmts, caller, caller_file, caller_line, lines, out);
        },
        Expression::If { cond, then_branch, else_branch } => {
            collect_expr_calls(cond, caller, caller_file, caller_line, lines, out);
            collect_stmts_calls(then_branch, caller, caller_file, caller_line, lines, out);
            match else_branch {
                Some(b) => {
                    collect_expr_calls(b, caller, caller_file, caller_line, lines, out);
                },
                None => {},
            }
            assert(call_records(out@) =~= before + expr_calls(e@, site));
        },
        Expression::Match { scrutinee, arms } => {
            collect_expr_calls(scrutinee, caller, caller_file, caller_line, lines, out);
            collect_exprs_calls(arms, caller, caller_file, caller_line, lines, out);
            assert(call_records(out@) =~= before + expr_calls(e@, site));
        },
        Expression::Binary { left, right } => {
            collect_expr_calls(left, caller, caller_file, caller_line, lines, out);
            collect_expr_calls(right, caller, caller_file, caller_line, lines, out);
            assert(call_records(out@) =~= before + expr_calls(e@, site));
        },
        Expression::Other => {
            assert(call_records(out@) =~= before + expr_calls(e@, site));
        },
    }
}

/// Appends the calls in the expressions `es` to `out`.
fn collect_exprs_calls(
    es: &Vec<Expression>,
    caller: &String,
    caller_file: &String,
    caller_line: usize,
    lines: &Vec<Vec<char>>,
    out: &mut Vec<CallInfo>,
)
    requires
        lines_fit(rows(lines@)),
    ensures
        call_records(final(out)@) == call_records(old(out)@) + exprs_calls(
            expression_views(es@),
            es@.len() as int,
            call_site(caller@, caller_file@, caller_line as nat, rows(lines@)),
        ),
    decreases es, 0nat,
{
    let ghost site = call_site(caller@, caller_file@, caller_line as nat, rows(lines@));
    let ghost before = call_records(out@);
    let mut i: usize = 0;
    assert(call_records(out@) =~= before + exprs_calls(expression_views(es@), 0, site));
    while i < es.len()
        invariant
            i <= es@.len(),
            lines_fit(rows(lines@)),
            site == call_site(caller@, caller_file@, caller_line as nat, rows(lines@)),
            call_records(out@) == before + exprs_calls(expression_views(es@), i as int, site),
        decreases es.len() - i,
    {
        collect_expr_calls(&es[i], caller, caller_file, caller_line, lines, out);
        i += 1;
        assert(call_records(out@) =~= before + exprs_calls(expression_views(es@), i as int, site));
    }
}

/// Appends the calls in the statements `ss` to `out`. See `stmts_calls`.
pub fn collect_stmts_calls(
    ss: &Vec<Statement>,
    caller: &String,
    caller_file: &String,
    caller_line: usize,
    lines: &Vec<Vec<char>>,
    out: &mut Vec<CallInfo>,
)
    requires
        lines_fit(rows(lines@)),
    ensures
        call_records(final(out)@) == call_records(old(out)@) + stmts_calls(
            statement_views(ss@),
            ss@.len() as int,
            call_site(caller@, caller_file@, caller_line as nat, rows(lines@)),
        ),
    decreases ss, 0nat,
{
    let ghost site = call_site(caller@, caller_file@, caller_line as nat, rows(lines@));
    let ghost before = call_records(out@);
    let mut i: usize = 0;
    assert(call_records(out@) =~= before + stmts_calls(statement_views(ss@), 0, site));
    while i < ss.len()
        invariant
            i <= ss@.len(),
            lines_fit(rows(lines@)),
            site == call_site(caller@, caller_file@, caller_line as nat, rows(lines@)),
            call_records(out@) == before + stmts_calls(statement_views(ss@), i as int, site),
        decreases ss.len() - i,
    {
        collect_stmt_calls(&ss[i], caller, caller_file, caller_line, lines, out);
        i += 1;
        assert(call_records(out@) =~= before + stmts_calls(statement_views(ss@), i as int, site));
    }
}

/// Appends the calls in `s` to `out`. See `stmt_calls`.
pub fn collect_stmt_calls(
    s: &Statement,
    caller: &String,
    caller_file: &String,
    caller_line: usize,
    lines: &Vec<Vec<char>>,
    out: &mut Vec<CallInfo>,
)
    requires
        lines_fit(rows(lines@)),
    ensures
        call_records(final(out)@) == call_records(old(out)@) + stmt_calls(
            s@,
            call_site(caller@, caller_file@, caller_line as nat, rows(lines@)),
        ),
    decreases s,
{
    let ghost before = call_records(out@);
    match s {
        Statement::Local(Some(e)) => {
            collect_expr_calls(e, caller, caller_file, caller_line, lines, out);
        },
        Statement::Expression(e) => {
            collect_expr_calls(e, caller, caller_file, caller_line, lines, out);
        },
        _ => {
            assert(call_records(out@) =~= before + Seq::<CallRecord>::empty());
        },
    }
}

} // verus!
