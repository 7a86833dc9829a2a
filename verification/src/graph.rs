use crate::extract::texts;
use crate::indexer::{
    all_parsed, count_kind, holds_name, indexed_files, merged, parsed_views, CodeIndexer,
    IndexerState, ParsedFile, SourceFile,
};
use crate::parser::{
    call_records, call_ref_records, calls_from, calls_to, lookup, of_kind, symbol_groups,
    symbol_ref_records, CallRecord, ParserState, SymbolGroup,
};
use crate::protocol::SymbolType;
use crate::text::{
    alphanumeric, copy_range, decimal, is_alphanumeric, push_chars, push_decimal, to_chars,
};
use vstd::prelude::*;
use vstd::string::StringExecFns;

verus! {

/// A function of the call graph, with the functions that it calls and
/// those that call it.
#[derive(Debug, Clone)]
pub struct GraphNode {
    pub name: String,
    pub file_path: String,
    pub line: usize,
    pub children: Vec<String>,
    pub parents: Vec<String>,
}

/// Whether a tree shows the functions that a function calls or those that
/// call it.
#[derive(Debug, Clone, Copy, PartialEq, Eq, Structural)]
pub enum Direction {
    Callees,
    Callers,
}

/// Index at which the last part of a path starts: after its last `/`.
pub open spec fn base_start(path: Seq<char>) -> int
    decreases path.len(),
{
    if path.len() == 0 {
        0
    } else if path.last() == '/' {
        path.len() as int
    } else {
        base_start(path.drop_last())
    }
}

/// The last part of a path: what follows its last `/`.
pub open spec fn base_name(path: Seq<char>) -> Seq<char> {
    path.skip(base_start(path))
}

/// Where the function `name` is defined, as it is shown after the name:
/// the file's name and the line of the first definition of the name;
/// nothing where nothing has the name.
pub open spec fn function_info(gs: Seq<SymbolGroup>, name: Seq<char>) -> Seq<char> {
    match lookup(gs, name) {
        Some(rs) => if rs.len() > 0 {
            " @ "@ + base_name(rs[0].file_path) + ":"@ + decimal(rs[0].line)
        } else {
            Seq::empty()
        },
        None => Seq::empty(),
    }
}

/// `unit`, `n` times.
pub open spec fn repeated(unit: Seq<char>, n: nat) -> Seq<char>
    decreases n,
{
    if n == 0 {
        Seq::empty()
    } else {
        repeated(unit, (n - 1) as nat) + unit
    }
}

/// The line that shows a function that is met again on the way from the root.
pub open spec fn recursive_line(name: Seq<char>, depth: nat) -> Seq<char> {
    repeated("│   "@, depth) + "├── "@ + name + " [🔄 recursive]\n"@
}

/// The line that shows a function at depth `depth`.
pub open spec fn function_line(gs: Seq<SymbolGroup>, name: Seq<char>, depth: nat) -> Seq<char> {
    (if depth == 0 {
        Seq::empty()
    } else {
        repeated("│   "@, (depth - 1) as nat) + "├── "@
    }) + name + function_info(gs, name) + "\n"@
}

/// The other end of each call of `cs`: the function called, or the caller.
pub open spec fn far_ends(cs: Seq<CallRecord>, direction: Direction) -> Seq<Seq<char>> {
    Seq::new(
        cs.len(),
        |i: int|
            match direction {
                Direction::Callees => cs[i].callee,
                Direction::Callers => cs[i].caller,
            },
    )
}

/// The functions shown below `name`: those that it calls, or those that
/// call it, once for each call and in the order of the calls.
pub open spec fn neighbours(cs: Seq<CallRecord>, name: Seq<char>, direction: Direction) -> Seq<
    Seq<char>,
> {
    match direction {
        Direction::Callees => far_ends(calls_from(cs, name), direction),
        Direction::Callers => far_ends(calls_to(cs, name), direction),
    }
}

/// How many levels may still be shown below a path of length `len`.
pub open spec fn levels_left(len: nat, max_depth: nat) -> nat {
    if len <= max_depth + 1 {
        (max_depth + 1 - len) as nat
    } else {
        0
    }
}

/// The tree below `name`, which is reached from the root by `path`. A
/// function that stands on the path already is shown as recursive and not
/// looked into; nothing is shown deeper than `max_depth`.
pub open spec fn tree(
    s: ParserState,
    direction: Direction,
    name: Seq<char>,
    path: Seq<Seq<char>>,
    max_depth: nat,
) -> Seq<char>
    decreases levels_left(path.len(), max_depth), 0nat,
{
    if path.contains(name) {
        recursive_line(name, path.len())
    } else if path.len() > max_depth {
        Seq::empty()
    } else {
        let below = neighbours(s.calls, name, direction);
        function_line(s.groups, name, path.len()) + forest(
            s,
            direction,
            below,
            below.len(),
            path.push(name),
            max_depth,
        )
    }
}

/// The trees below the first `n` of `names`, which are reached by `path`.
pub open spec fn forest(
    s: ParserState,
    direction: Direction,
    names: Seq<Seq<char>>,
    n: nat,
    path: Seq<Seq<char>>,
    max_depth: nat,
) -> Seq<char>
    decreases levels_left(path.len(), max_depth), n + 1,
{
    if n == 0 || n > names.len() {
        Seq::empty()
    } else {
        forest(s, direction, names, (n - 1) as nat, path, max_depth) + tree(
            s,
            direction,
            names[n - 1],
            path,
            max_depth,
        )
    }
}

/// A function that stands on the path from the root is shown as recursive,
/// whatever it calls and whoever calls it.
pub proof fn lemma_revisit_is_marked(
    s: ParserState,
    direction: Direction,
    name: Seq<char>,
    path: Seq<Seq<char>>,
    max_depth: nat,
)
    requires
        path.contains(name),
    ensures
        tree(s, direction, name, path, max_depth) == recursive_line(name, path.len()),
{
}

/// The caller and the function called of each of the first `n` calls.
pub open spec fn call_ends(cs: Seq<CallRecord>, n: int) -> Seq<Seq<char>>
    decreases n,
{
    if n <= 0 || n > cs.len() {
        Seq::empty()
    } else {
        call_ends(cs, n - 1).push(cs[n - 1].caller).push(cs[n - 1].callee)
    }
}

/// The names of those of the first `n` groups that hold a function.
pub open spec fn function_names(gs: Seq<SymbolGroup>, n: int) -> Seq<Seq<char>>
    decreases n,
{
    if n <= 0 || n > gs.len() {
        Seq::empty()
    } else if of_kind(gs[n - 1].records, Some(SymbolType::Function)).len() > 0 {
        function_names(gs, n - 1).push(gs[n - 1].name)
    } else {
        function_names(gs, n - 1)
    }
}

/// Every function that calls, is called or is defined, once each: the ends
/// of the calls in their order, then the functions defined.
pub open spec fn all_functions(s: ParserState) -> Seq<Seq<char>> {
    merged(
        merged(Seq::empty(), call_ends(s.calls, s.calls.len() as int)),
        function_names(s.groups, s.groups.len() as int),
    )
}

/// Those of the first `n` of `names` that nobody calls, and `main`.
pub open spec fn uncalled(cs: Seq<CallRecord>, names: Seq<Seq<char>>, n: int) -> Seq<Seq<char>>
    decreases n,
{
    if n <= 0 || n > names.len() {
        Seq::empty()
    } else if calls_to(cs, names[n - 1]).len() == 0 || names[n - 1] == "main"@ {
        uncalled(cs, names, n - 1).push(names[n - 1])
    } else {
        uncalled(cs, names, n - 1)
    }
}

/// The functions at which the trees of callees start: `main` alone where
/// there is one, and otherwise the functions that nobody calls.
pub open spec fn entry_points(cs: Seq<CallRecord>, names: Seq<Seq<char>>) -> Seq<Seq<char>> {
    let found = uncalled(cs, names, names.len() as int);
    if found.contains("main"@) {
        seq!["main"@]
    } else {
        found
    }
}

/// Those of the first `n` of `names` that call nothing.
pub open spec fn leaf_functions(cs: Seq<CallRecord>, names: Seq<Seq<char>>, n: int) -> Seq<
    Seq<char>,
>
    decreases n,
{
    if n <= 0 || n > names.len() {
        Seq::empty()
    } else if calls_from(cs, names[n - 1]).len() == 0 {
        leaf_functions(cs, names, n - 1).push(names[n - 1])
    } else {
        leaf_functions(cs, names, n - 1)
    }
}

/// The trees of the first `n` of `roots`, each followed by an empty line.
pub open spec fn trees(
    s: ParserState,
    direction: Direction,
    roots: Seq<Seq<char>>,
    n: int,
    max_depth: nat,
) -> Seq<char>
    decreases n,
{
    if n <= 0 || n > roots.len() {
        Seq::empty()
    } else {
        trees(s, direction, roots, n - 1, max_depth) + tree(
            s,
            direction,
            roots[n - 1],
            Seq::empty(),
            max_depth,
        ) + "\n"@
    }
}

/// The text of the tree of callees or of callers: below one function where
/// one is named, and otherwise below each entry point or each leaf.
pub open spec fn tree_text(
    s: ParserState,
    direction: Direction,
    function_name: Option<Seq<char>>,
    max_depth: nat,
) -> Seq<char> {
    match function_name {
        Some(name) => (match direction {
            Direction::Callees => "📞 Call Graph for: "@,
            Direction::Callers => "📞 Callers of: "@,
        }) + name + "\n\n"@ + tree(s, direction, name, Seq::empty(), max_depth),
        None => match direction {
            Direction::Callees => {
                let roots = entry_points(s.calls, all_functions(s));
                "📞 Full Call Graph\n\n"@ + trees(s, direction, roots, roots.len() as int, max_depth)
            },
            Direction::Callers => {
                let names = all_functions(s);
                let roots = leaf_functions(s.calls, names, names.len() as int);
                "📞 Reverse Call Graph\n\n"@ + trees(
                    s,
                    direction,
                    roots,
                    roots.len() as int,
                    max_depth,
                )
            },
        },
    }
}

/// The name of a node of a diagram: every character that is neither a
/// letter nor a digit becomes `_`.
pub open spec fn node_name(name: Seq<char>) -> Seq<char> {
    Seq::new(
        name.len(),
        |i: int|
            if alphanumeric(name[i]) {
                name[i]
            } else {
                '_'
            },
    )
}

/// Those of the first `n` calls that `focus` makes or that are made to it;
/// all of them where no function is named.
pub open spec fn related_calls(cs: Seq<CallRecord>, focus: Option<Seq<char>>, n: int) -> Seq<
    CallRecord,
>
    decreases n,
{
    if n <= 0 || n > cs.len() {
        Seq::empty()
    } else if focus is None || cs[n - 1].caller == focus->0 || cs[n - 1].callee == focus->0 {
        related_calls(cs, focus, n - 1).push(cs[n - 1])
    } else {
        related_calls(cs, focus, n - 1)
    }
}

/// The caller and the function called of each of the first `n` calls, each
/// pair once, in the order of the calls.
pub open spec fn edges(cs: Seq<CallRecord>, n: int) -> Seq<(Seq<char>, Seq<char>)>
    decreases n,
{
    if n <= 0 || n > cs.len() {
        Seq::empty()
    } else {
        let before = edges(cs, n - 1);
        let edge = (cs[n - 1].caller, cs[n - 1].callee);
        if before.contains(edge) {
            before
        } else {
            before.push(edge)
        }
    }
}

/// The lines of a diagram that declare the first `n` of `nodes`.
pub open spec fn node_lines(nodes: Seq<Seq<char>>, n: int) -> Seq<char>
    decreases n,
{
    if n <= 0 || n > nodes.len() {
        Seq::empty()
    } else {
        node_lines(nodes, n - 1) + "    "@ + node_name(nodes[n - 1]) + "["@ + nodes[n - 1] + "]\n"@
    }
}

/// The lines of a diagram that draw the first `n` of `es`.
pub open spec fn edge_lines(es: Seq<(Seq<char>, Seq<char>)>, n: int) -> Seq<char>
    decreases n,
{
    if n <= 0 || n > es.len() {
        Seq::empty()
    } else {
        edge_lines(es, n - 1) + "    "@ + node_name(es[n - 1].0) + " --> "@ + node_name(es[n - 1].1)
            + "\n"@
    }
}

/// The diagram of the calls that `focus` makes or that are made to it, or
/// of all calls: a head, a line for each function, a line for each pair of
/// caller and function called, and a foot.
pub open spec fn mermaid_text(s: ParserState, focus: Option<Seq<char>>) -> Seq<char> {
    let related = related_calls(s.calls, focus, s.calls.len() as int);
    let nodes = merged(Seq::empty(), call_ends(related, related.len() as int));
    let es = edges(related, related.len() as int);
    "```mermaid\ngraph TD\n"@ + node_lines(nodes, nodes.len() as int) + edge_lines(
        es,
        es.len() as int,
    ) + "```\n"@
}

/// The counts of the call graph as text.
pub open spec fn graph_stats_text(s: ParserState) -> Seq<char> {
    let names = all_functions(s);
    "📊 Call Graph Statistics:\n├── Total Functions: "@ + decimal(names.len())
        + "\n├── Total Calls: "@ + decimal(s.calls.len()) + "\n├── Entry Points: "@ + decimal(
        entry_points(s.calls, names).len(),
    ) + "\n└── Leaf Functions: "@ + decimal(leaf_functions(s.calls, names, names.len() as int).len())
        + "\n"@
}

/// The views of the two names of each pair.
pub open spec fn pair_texts(v: Seq<(String, String)>) -> Seq<(Seq<char>, Seq<char>)> {
    v.map_values(|p: (String, String)| (p.0@, p.1@))
}

fn push_repeated(out: &mut String, unit: &str, n: usize)
    ensures
        final(out)@ == old(out)@ + repeated(unit@, n as nat),
{
    let mut i: usize = 0;
    assert(out@ =~= old(out)@ + repeated(unit@, 0));
    while i < n
        invariant
            i <= n,
            out@ == old(out)@ + repeated(unit@, i as nat),
        decreases n - i,
    {
        out.append(unit);
        i += 1;
        assert(out@ =~= old(out)@ + repeated(unit@, i as nat));
    }
}

/// See `base_name`.
pub fn file_name_of(path: &str) -> (r: Vec<char>)
    ensures
        r@ == base_name(path@),
{
    let chars = to_chars(path);
    let mut i: usize = chars.len();
    assert(chars@.take(chars@.len() as int) == chars@);
    while i > 0 && chars[i - 1] != '/'
        invariant
            i <= chars@.len(),
            base_start(chars@) == base_start(chars@.take(i as int)),
        decreases i,
    {
        assert(chars@.take(i as int).drop_last() == chars@.take(i as int - 1));
        i -= 1;
    }
    copy_range(chars.as_slice(), i, chars.len())
}

/// See `node_name`.
pub fn node_id(name: &str) -> (r: String)
    ensures
        r@ == node_name(name@),
{
    let chars = to_chars(name);
    let mut r = String::new();
    let mut i: usize = 0;
    while i < chars.len()
        invariant
            i <= chars@.len(),
            chars@ == name@,
            r@ == node_name(name@).take(i as int),
        decreases chars.len() - i,
    {
        let c = chars[i];
        if is_alphanumeric(c) {
            r.push(c);
        } else {
            r.push('_');
        }
        i += 1;
        assert(r@ =~= node_name(name@).take(i as int));
    }
    assert(node_name(name@).take(chars@.len() as int) =~= node_name(name@));
    r
}

fn holds_pair(pairs: &Vec<(String, String)>, a: &String, b: &String) -> (r: bool)
    ensures
        r == pair_texts(pairs@).contains((a@, b@)),
{
    let mut k: usize = 0;
    while k < pairs.len()
        invariant
            k <= pairs@.len(),
            forall|j: int| 0 <= j < k ==> pair_texts(pairs@)[j] != (a@, b@),
        decreases pairs.len() - k,
    {
        if pairs[k].0 == *a && pairs[k].1 == *b {
            assert(pair_texts(pairs@)[k as int] == (a@, b@));
            return true;
        }
        k += 1;
    }
    false
}

fn push_new(names: &mut Vec<String>, name: &String)
    ensures
        texts(final(names)@) == merged(texts(old(names)@), seq![name@]),
{
    assert(seq![name@].drop_last() =~= Seq::<Seq<char>>::empty());
    assert(merged(texts(names@), Seq::<Seq<char>>::empty()) == texts(names@));
    if !holds_name(names, name) {
        let ghost before = texts(names@);
        let copy = name.clone();
        names.push(copy);
        assert(texts(names@) =~= before.push(copy@));
    }
}

/// Merging a name at a time is merging all at once.
proof fn lemma_merged_push(acc: Seq<Seq<char>>, names: Seq<Seq<char>>, x: Seq<char>)
    ensures
        merged(acc, names.push(x)) == merged(merged(acc, names), seq![x]),
{
    assert(names.push(x).drop_last() == names);
    assert(seq![x].drop_last() =~= Seq::<Seq<char>>::empty());
    assert(merged(merged(acc, names), Seq::<Seq<char>>::empty()) == merged(acc, names));
}

/// Shows the call graph of a project as trees, as a diagram and in counts.
pub struct CallGraphGenerator {
    indexer: CodeIndexer,
}

impl View for CallGraphGenerator {
    type V = IndexerState;

    closed spec fn view(&self) -> IndexerState {
        self.indexer@
    }
}

impl CallGraphGenerator {
    /// The index of the generator is well formed.
    pub open spec fn wf(&self) -> bool {
        crate::indexer::state_wf(self@)
    }

    /// A generator that knows no function yet.
    pub fn new() -> (r: Self)
        ensures
            r@.parser.groups.len() == 0,
            r@.parser.calls.len() == 0,
            r.wf(),
    {
        CallGraphGenerator { indexer: CodeIndexer::new() }
    }

    /// Indexes the files of a project, in the order in which they were found.
    pub fn analyze_project(&mut self, files: &Vec<SourceFile>)
        requires
            old(self).wf(),
        ensures
            final(self)@ == indexed_files(old(self)@, all_parsed(files@), files@.len() as int),
            final(self).wf(),
    {
        self.indexer.index_directory(files);
    }

    /// Indexes files that were parsed already, in order.
    pub fn analyze_parsed(&mut self, files: &Vec<ParsedFile>)
        requires
            old(self).wf(),
        ensures
            final(self)@ == indexed_files(
                old(self)@,
                parsed_views(files@),
                files@.len() as int,
            ),
            final(self).wf(),
    {
        self.indexer.index_parsed_files(files);
    }

    /// See `function_info`.
    pub fn get_function_info(&self, function_name: &str) -> (r: String)
        ensures
            r@ == function_info(self@.parser.groups, function_name@),
    {
        let mut r = String::new();
        match self.indexer.find_definition(function_name, None) {
            Some(symbols) => {
                assert(of_kind(
                    lookup(self@.parser.groups, function_name@)->0,
                    None,
                ) == lookup(self@.parser.groups, function_name@)->0) by {
                    lemma_of_kind_all(lookup(self@.parser.groups, function_name@)->0);
                }
                if symbols.len() > 0 {
                    let symbol = symbols[0];
                    assert(symbol_ref_records(symbols@)[0] == symbol@);
                    r.append(" @ ");
                    push_chars(&mut r, file_name_of(symbol.file_path.as_str()).as_slice());
                    r.append(":");
                    push_decimal(&mut r, symbol.line);
                    assert(r@ =~= function_info(self@.parser.groups, function_name@));
                }
            },
            None => {},
        }
        r
    }

    fn neighbours_of(&self, name: &String, direction: Direction) -> (r: Vec<String>)
        ensures
            texts(r@) == neighbours(self@.parser.calls, name@, direction),
    {
        let calls = match direction {
            Direction::Callees => self.indexer.get_parser().get_calls_from_function(name.as_str()),
            Direction::Callers => self.indexer.get_parser().get_calls_to_function(name.as_str()),
        };
        let ghost cs = call_ref_records(calls@);
        let mut r: Vec<String> = Vec::new();
        let mut i: usize = 0;
        while i < calls.len()
            invariant
                i <= calls@.len(),
                cs == call_ref_records(calls@),
                texts(r@) == far_ends(cs, direction).take(i as int),
            decreases calls.len() - i,
        {
            let end = match direction {
                Direction::Callees => calls[i].callee.clone(),
                Direction::Callers => calls[i].caller.clone(),
            };
            assert(cs[i as int] == calls@[i as int]@);
            let ghost before = texts(r@);
            r.push(end);
            assert(texts(r@) =~= before.push(end@));
            i += 1;
            assert(texts(r@) =~= far_ends(cs, direction).take(i as int));
        }
        assert(far_ends(cs, direction).take(cs.len() as int) =~= far_ends(cs, direction));
        r
    }

    /// Appends to `out` the tree below `name`, which is reached from the
    /// root by `path`. See `tree`.
    fn print_recursive(
        &self,
        direction: Direction,
        name: &String,
        max_depth: usize,
        out: &mut String,
        path: &mut Vec<String>,
    )
        ensures
            final(out)@ == old(out)@ + tree(
                self@.parser,
                direction,
                name@,
                texts(old(path)@),
                max_depth as nat,
            ),
            texts(final(path)@) == texts(old(path)@),
        decreases levels_left(old(path)@.len(), max_depth as nat), 0nat,
    {
        let depth = path.len();
        if holds_name(path, name) {
            push_repeated(out, "│   ", depth);
            out.append("├── ");
            out.append(name.as_str());
            out.append(" [🔄 recursive]\n");
            assert(out@ =~= old(out)@ + recursive_line(name@, depth as nat));
            return ;
        }
        if depth > max_depth {
            assert(out@ =~= old(out)@ + Seq::<char>::empty());
            return ;
        }
        if depth > 0 {
            push_repeated(out, "│   ", depth - 1);
            out.append("├── ");
        }
        out.append(name.as_str());
        out.append(self.get_function_info(name.as_str()).as_str());
        out.append("\n");
        assert(out@ =~= old(out)@ + function_line(self@.parser.groups, name@, depth as nat));
        let below = self.neighbours_of(name, direction);
        let ghost start = texts(path@);
        path.push(name.clone());
        assert(texts(path@) =~= start.push(name@));
        self.print_forest(direction, &below, max_depth, out, path);
        let ghost full = path@;
        path.pop();
        assert(texts(path@) =~= texts(full).drop_last());
        assert(texts(path@) =~= start);
        assert(out@ =~= old(out)@ + tree(
            self@.parser,
            direction,
            name@,
            start,
            max_depth as nat,
        ));
    }

    fn print_forest(
        &self,
        direction: Direction,
        names: &Vec<String>,
        max_depth: usize,
        out: &mut String,
        path: &mut Vec<String>,
    )
        ensures
            final(out)@ == old(out)@ + forest(
                self@.parser,
                direction,
                texts(names@),
                names@.len() as nat,
                texts(old(path)@),
                max_depth as nat,
            ),
            texts(final(path)@) == texts(old(path)@),
        decreases levels_left(old(path)@.len(), max_depth as nat), names@.len() + 1,
    {
        let ghost ns = texts(names@);
        let ghost start = texts(path@);
        let mut i: usize = 0;
        assert(out@ =~= old(out)@ + forest(
            self@.parser,
            direction,
            ns,
            0,
            start,
            max_depth as nat,
        ));
        while i < names.len()
            invariant
                i <= names@.len(),
                ns == texts(names@),
                texts(path@) == start,
                path@.len() == old(path)@.len(),
                out@ == old(out)@ + forest(
                    self@.parser,
                    direction,
                    ns,
                    i as nat,
                    start,
                    max_depth as nat,
                ),
            decreases names.len() - i,
        {
            self.print_recursive(direction, &names[i], max_depth, out, path);
            i += 1;
            assert(out@ =~= old(out)@ + forest(
                self@.parser,
                direction,
                ns,
                i as nat,
                start,
                max_depth as nat,
            ));
        }
    }

    /// Appends to `out` the tree of the functions that `function_name`
    /// calls, down to the depth `max_depth`.
    pub fn print_callees_recursive(&self, function_name: &str, max_depth: usize, out: &mut String)
        ensures
            final(out)@ == old(out)@ + tree(
                self@.parser,
                Direction::Callees,
                function_name@,
                Seq::empty(),
                max_depth as nat,
            ),
    {
        let mut path: Vec<String> = Vec::new();
        assert(texts(path@) =~= Seq::<Seq<char>>::empty());
        self.print_recursive(
            Direction::Callees,
            &function_name.to_string(),
            max_depth,
            out,
            &mut path,
        );
    }

    /// Appends to `out` the tree of the functions that call
    /// `function_name`, up to the depth `max_depth`.
    pub fn print_callers_recursive(&self, function_name: &str, max_depth: usize, out: &mut String)
        ensures
            final(out)@ == old(out)@ + tree(
                self@.parser,
                Direction::Callers,
                function_name@,
                Seq::empty(),
                max_depth as nat,
            ),
    {
        let mut path: Vec<String> = Vec::new();
        assert(texts(path@) =~= Seq::<Seq<char>>::empty());
        self.print_recursive(
            Direction::Callers,
            &function_name.to_string(),
            max_depth,
            out,
            &mut path,
        );
    }

    /// See `all_functions`.
    pub fn get_all_functions(&self) -> (r: Vec<String>)
        ensures
            texts(r@) == all_functions(self@.parser),
    {
        let calls = self.indexer.get_parser().get_call_graph();
        let ghost cs = call_records(calls@);
        let mut all: Vec<String> = Vec::new();
        let mut i: usize = 0;
        assert(texts(all@) =~= merged(Seq::empty(), call_ends(cs, 0)));
        while i < calls.len()
            invariant
                i <= calls@.len(),
                cs == call_records(calls@),
                texts(all@) == merged(Seq::empty(), call_ends(cs, i as int)),
            decreases calls.len() - i,
        {
            proof {
                lemma_merged_push(Seq::empty(), call_ends(cs, i as int), cs[i as int].caller);
                lemma_merged_push(
                    Seq::empty(),
                    call_ends(cs, i as int).push(cs[i as int].caller),
                    cs[i as int].callee,
                );
            }
            push_new(&mut all, &calls[i].caller);
            push_new(&mut all, &calls[i].callee);
            i += 1;
        }
        let groups = self.indexer.get_all_symbols();
        let ghost gs = symbol_groups(groups@);
        let ghost ends = texts(all@);
        let mut k: usize = 0;
        assert(merged(ends, function_names(gs, 0)) == ends);
        while k < groups.len()
            invariant
                k <= groups@.len(),
                gs == symbol_groups(groups@),
                texts(all@) == merged(ends, function_names(gs, k as int)),
            decreases groups.len() - k,
        {
            if count_kind(&groups[k].symbols, SymbolType::Function) > 0 {
                proof {
                    lemma_merged_push(ends, function_names(gs, k as int), gs[k as int].name);
                }
                push_new(&mut all, &groups[k].name);
            }
            k += 1;
        }
        all
    }

    /// See `entry_points`.
    pub fn find_entry_points(&self, all_functions: &Vec<String>) -> (r: Vec<String>)
        ensures
            texts(r@) == entry_points(self@.parser.calls, texts(all_functions@)),
    {
        let main = "main".to_string();
        let ghost cs = self@.parser.calls;
        let ghost names = texts(all_functions@);
        let mut found: Vec<String> = Vec::new();
        let mut i: usize = 0;
        assert(texts(found@) =~= uncalled(cs, names, 0));
        while i < all_functions.len()
            invariant
                i <= all_functions@.len(),
                cs == self@.parser.calls,
                names == texts(all_functions@),
                main@ == "main"@,
                texts(found@) == uncalled(cs, names, i as int),
            decreases all_functions.len() - i,
        {
            let name = &all_functions[i];
            let callers = self.indexer.get_parser().get_calls_to_function(name.as_str());
            assert(call_ref_records(callers@).len() == callers@.len());
            if callers.len() == 0 || *name == main {
                let ghost before = texts(found@);
                let copy = name.clone();
                found.push(copy);
                assert(texts(found@) =~= before.push(copy@));
            }
            i += 1;
        }
        if holds_name(&found, &main) {
            let mut only: Vec<String> = Vec::new();
            only.push(main);
            assert(texts(only@) =~= seq!["main"@]);
            only
        } else {
            found
        }
    }

    /// The functions among `all_functions` that call nothing, in order.
    pub fn find_leaf_functions(&self, all_functions: &Vec<String>) -> (r: Vec<String>)
        ensures
            texts(r@) == leaf_functions(
                self@.parser.calls,
                texts(all_functions@),
                all_functions@.len() as int,
            ),
    {
        let ghost cs = self@.parser.calls;
        let ghost names = texts(all_functions@);
        let mut found: Vec<String> = Vec::new();
        let mut i: usize = 0;
        assert(texts(found@) =~= leaf_functions(cs, names, 0));
        while i < all_functions.len()
            invariant
                i <= all_functions@.len(),
                cs == self@.parser.calls,
                names == texts(all_functions@),
                texts(found@) == leaf_functions(cs, names, i as int),
            decreases all_functions.len() - i,
        {
            let name = &all_functions[i];
            let callees = self.indexer.get_parser().get_calls_from_function(name.as_str());
            assert(call_ref_records(callees@).len() == callees@.len());
            if callees.len() == 0 {
                let ghost before = texts(found@);
                let copy = name.clone();
                found.push(copy);
                assert(texts(found@) =~= before.push(copy@));
            }
            i += 1;
        }
        found
    }

    fn print_trees(&self, direction: Direction, roots: &Vec<String>, max_depth: usize, out: &mut String)
        ensures
            final(out)@ == old(out)@ + trees(
                self@.parser,
                direction,
                texts(roots@),
                roots@.len() as int,
                max_depth as nat,
            ),
    {
        let ghost rs = texts(roots@);
        let mut i: usize = 0;
        assert(out@ =~= old(out)@ + trees(self@.parser, direction, rs, 0, max_depth as nat));
        while i < roots.len()
            invariant
                i <= roots@.len(),
                rs == texts(roots@),
                out@ == old(out)@ + trees(self@.parser, direction, rs, i as int, max_depth as nat),
            decreases roots.len() - i,
        {
            let mut path: Vec<String> = Vec::new();
            assert(texts(path@) =~= Seq::<Seq<char>>::empty());
            self.print_recursive(direction, &roots[i], max_depth, out, &mut path);
            out.append("\n");
            i += 1;
            assert(out@ =~= old(out)@ + trees(
                self@.parser,
                direction,
                rs,
                i as int,
                max_depth as nat,
            ));
        }
    }

    /// The tree of the functions that `function_name` calls, or the trees
    /// below the entry points where no function is named.
    pub fn generate_callees_tree(&self, function_name: Option<&str>, max_depth: usize) -> (r: String)
        ensures
            r@ == tree_text(
                self@.parser,
                Direction::Callees,
                match function_name {
                    Some(name) => Some(name@),
                    None => None,
                },
                max_depth as nat,
            ),
    {
        let mut r = String::new();
        match function_name {
            Some(name) => {
                r.append("📞 Call Graph for: ");
                r.append(name);
                r.append("\n\n");
                self.print_callees_recursive(name, max_depth, &mut r);
                assert(r@ =~= tree_text(
                    self@.parser,
                    Direction::Callees,
                    Some(name@),
                    max_depth as nat,
                ));
            },
            None => {
                r.append("📞 Full Call Graph\n\n");
                let all = self.get_all_functions();
                let roots = self.find_entry_points(&all);
                self.print_trees(Direction::Callees, &roots, max_depth, &mut r);
                assert(r@ =~= tree_text(self@.parser, Direction::Callees, None, max_depth as nat));
            },
        }
        r
    }

    /// The tree of the functions that call `function_name`, or the trees
    /// above the functions that call nothing where no function is named.
    pub fn generate_callers_tree(&self, function_name: Option<&str>, max_depth: usize) -> (r: String)
        ensures
            r@ == tree_text(
                self@.parser,
                Direction::Callers,
                match function_name {
                    Some(name) => Some(name@),
                    None => None,
                },
                max_depth as nat,
            ),
    {
        let mut r = String::new();
        match function_name {
            Some(name) => {
                r.append("📞 Callers of: ");
                r.append(name);
                r.append("\n\n");
                self.print_callers_recursive(name, max_depth, &mut r);
                assert(r@ =~= tree_text(
                    self@.parser,
                    Direction::Callers,
                    Some(name@),
                    max_depth as nat,
                ));
            },
            None => {
                r.append("📞 Reverse Call Graph\n\n");
                let all = self.get_all_functions();
                let roots = self.find_leaf_functions(&all);
                self.print_trees(Direction::Callers, &roots, max_depth, &mut r);
                assert(r@ =~= tree_text(self@.parser, Direction::Callers, None, max_depth as nat));
            },
        }
        r
    }

    /// The tree of callers where `reverse` is set, and of callees otherwise.
    pub fn generate_tree_format(&self, function_name: Option<&str>, max_depth: usize, reverse: bool) -> (r:
        String)
        ensures
            r@ == tree_text(
                self@.parser,
                if reverse {
                    Direction::Callers
                } else {
                    Direction::Callees
                },
                match function_name {
                    Some(name) => Some(name@),
                    None => None,
                },
                max_depth as nat,
            ),
    {
        if reverse {
            self.generate_callers_tree(function_name, max_depth)
        } else {
            self.generate_callees_tree(function_name, max_depth)
        }
    }

    /// See `mermaid_text`.
    pub fn generate_mermaid_format(&self, function_name: Option<&str>) -> (r: String)
        ensures
            r@ == mermaid_text(
                self@.parser,
                match function_name {
                    Some(name) => Some(name@),
                    None => None,
                },
            ),
    {
        let focus: Option<String> = match function_name {
            Some(name) => Some(name.to_string()),
            None => None,
        };
        let ghost target: Option<Seq<char>> = match function_name {
            Some(name) => Some(name@),
            None => None,
        };
        let calls = self.indexer.get_parser().get_call_graph();
        let ghost cs = call_records(calls@);
        let mut nodes: Vec<String> = Vec::new();
        let mut pairs: Vec<(String, String)> = Vec::new();
        let mut i: usize = 0;
        assert(texts(nodes@) =~= merged(Seq::empty(), call_ends(related_calls(cs, target, 0), 0)));
        assert(pair_texts(pairs@) =~= edges(related_calls(cs, target, 0), 0));
        while i < calls.len()
            invariant
                i <= calls@.len(),
                cs == call_records(calls@),
                target == match focus {
                    Some(f) => Some(f@),
                    None => None::<Seq<char>>,
                },
                texts(nodes@) == merged(
                    Seq::empty(),
                    call_ends(
                        related_calls(cs, target, i as int),
                        related_calls(cs, target, i as int).len() as int,
                    ),
                ),
                pair_texts(pairs@) == edges(
                    related_calls(cs, target, i as int),
                    related_calls(cs, target, i as int).len() as int,
                ),
            decreases calls.len() - i,
        {
            let call = &calls[i];
            let related = match &focus {
                Some(f) => call.caller == *f || call.callee == *f,
                None => true,
            };
            if related {
                let ghost before = related_calls(cs, target, i as int);
                let ghost now = related_calls(cs, target, i as int + 1);
                proof {
                    assert(now == before.push(cs[i as int]));
                    assert(forall|k: int| 0 <= k < before.len() ==> now[k] == before[k]);
                    lemma_call_ends_prefix(now, before, before.len() as int);
                    lemma_edges_prefix(now, before, before.len() as int);
                    lemma_merged_push(
                        Seq::empty(),
                        call_ends(before, before.len() as int),
                        cs[i as int].caller,
                    );
                    lemma_merged_push(
                        Seq::empty(),
                        call_ends(before, before.len() as int).push(cs[i as int].caller),
                        cs[i as int].callee,
                    );
                }
                push_new(&mut nodes, &call.caller);
                push_new(&mut nodes, &call.callee);
                if !holds_pair(&pairs, &call.caller, &call.callee) {
                    let ghost old_pairs = pair_texts(pairs@);
                    let pair = (call.caller.clone(), call.callee.clone());
                    pairs.push(pair);
                    assert(pair_texts(pairs@) =~= old_pairs.push((pair.0@, pair.1@)));
                }
            }
            i += 1;
        }
        let mut r = "```mermaid\ngraph TD\n".to_string();
        let ghost head = r@;
        let ghost ns = texts(nodes@);
        let mut n: usize = 0;
        assert(r@ =~= head + node_lines(ns, 0));
        while n < nodes.len()
            invariant
                n <= nodes@.len(),
                ns == texts(nodes@),
                r@ == head + node_lines(ns, n as int),
            decreases nodes.len() - n,
        {
            r.append("    ");
            r.append(node_id(nodes[n].as_str()).as_str());
            r.append("[");
            r.append(nodes[n].as_str());
            r.append("]\n");
            n += 1;
            assert(r@ =~= head + node_lines(ns, n as int));
        }
        let ghost middle = r@;
        let ghost es = pair_texts(pairs@);
        let mut e: usize = 0;
        assert(r@ =~= middle + edge_lines(es, 0));
        while e < pairs.len()
            invariant
                e <= pairs@.len(),
                es == pair_texts(pairs@),
                r@ == middle + edge_lines(es, e as int),
            decreases pairs.len() - e,
        {
            r.append("    ");
            r.append(node_id(pairs[e].0.as_str()).as_str());
            r.append(" --> ");
            r.append(node_id(pairs[e].1.as_str()).as_str());
            r.append("\n");
            e += 1;
            assert(r@ =~= middle + edge_lines(es, e as int));
        }
        r.append("```\n");
        assert(r@ =~= mermaid_text(self@.parser, target));
        r
    }

    /// The call graph in the form `format`: the tree of callers where
    /// `callers` is set and of callees otherwise, the diagram, or the counts.
    pub fn render(
        &self,
        format: GraphFormat,
        function_name: Option<&str>,
        max_depth: usize,
        callers: bool,
    ) -> (r: String)
        ensures
            r@ == match format {
                GraphFormat::Tree => tree_text(
                    self@.parser,
                    if callers {
                        Direction::Callers
                    } else {
                        Direction::Callees
                    },
                    match function_name {
                        Some(name) => Some(name@),
                        None => None,
                    },
                    max_depth as nat,
                ),
                GraphFormat::Mermaid => mermaid_text(
                    self@.parser,
                    match function_name {
                        Some(name) => Some(name@),
                        None => None,
                    },
                ),
                GraphFormat::Stats => graph_stats_text(self@.parser),
            },
    {
        match format {
            GraphFormat::Tree => self.generate_tree_format(function_name, max_depth, callers),
            GraphFormat::Mermaid => self.generate_mermaid_format(function_name),
            GraphFormat::Stats => self.get_stats(),
        }
    }

    /// See `graph_stats_text`.
    pub fn get_stats(&self) -> (r: String)
        ensures
            r@ == graph_stats_text(self@.parser),
    {
        let all = self.get_all_functions();
        let entries = self.find_entry_points(&all);
        let leaves = self.find_leaf_functions(&all);
        let mut r = "📊 Call Graph Statistics:\n├── Total Functions: ".to_string();
        push_decimal(&mut r, all.len());
        r.append("\n├── Total Calls: ");
        push_decimal(&mut r, self.indexer.get_parser().get_call_graph().len());
        r.append("\n├── Entry Points: ");
        push_decimal(&mut r, entries.len());
        r.append("\n└── Leaf Functions: ");
        push_decimal(&mut r, leaves.len());
        r.append("\n");
        assert(r@ =~= graph_stats_text(self@.parser));
        r
    }
}

/// The form in which a call graph is shown.
#[derive(Debug, Clone, Copy, PartialEq, Eq, Structural)]
pub enum GraphFormat {
    Tree,
    Mermaid,
    Stats,
}

/// The form that a name stands for, if it stands for one.
pub open spec fn graph_format_of(name: Seq<char>) -> Option<GraphFormat> {
    if name == "tree"@ {
        Some(GraphFormat::Tree)
    } else if name == "mermaid"@ {
        Some(GraphFormat::Mermaid)
    } else if name == "stats"@ {
        Some(GraphFormat::Stats)
    } else {
        None
    }
}

/// See `graph_format_of`.
pub fn parse_graph_format(name: &str) -> (r: Option<GraphFormat>)
    ensures
        r == graph_format_of(name@),
{
    let text = name.to_string();
    if text == "tree".to_string() {
        Some(GraphFormat::Tree)
    } else if text == "mermaid".to_string() {
        Some(GraphFormat::Mermaid)
    } else if text == "stats".to_string() {
        Some(GraphFormat::Stats)
    } else {
        None
    }
}

proof fn lemma_of_kind_all(rs: Seq<crate::parser::SymbolRecord>)
    ensures
        of_kind(rs, None) == rs,
    decreases rs.len(),
{
    if rs.len() > 0 {
        lemma_of_kind_all(rs.drop_last());
        assert(rs.drop_last().push(rs.last()) == rs);
    }
}

proof fn lemma_call_ends_prefix(a: Seq<CallRecord>, b: Seq<CallRecord>, n: int)
    requires
        0 <= n <= a.len(),
        n <= b.len(),
        forall|k: int| 0 <= k < n ==> a[k] == b[k],
    ensures
        call_ends(a, n) == call_ends(b, n),
    decreases n,
{
    if n > 0 {
        lemma_call_ends_prefix(a, b, n - 1);
    }
}

proof fn lemma_edges_prefix(a: Seq<CallRecord>, b: Seq<CallRecord>, n: int)
    requires
        0 <= n <= a.len(),
        n <= b.len(),
        forall|k: int| 0 <= k < n ==> a[k] == b[k],
    ensures
        edges(a, n) == edges(b, n),
    decreases n,
{
    if n > 0 {
        lemma_edges_prefix(a, b, n - 1);
    }
}

} // verus!
