//! Compact context windows for AI prompts: excerpts of a file, the node's
//! place in the dependency graph and its outline, under byte budgets.

use vstd::prelude::*;
use crate::models::{GraphData, GraphEdge, GraphNode, NodeType, OutlineItem, OutlineItemKind};
use crate::text::{
    append_str, char_utf8_width, chars_of, contains_chars, decimal, has_substring, lemma_utf8_len_push, lowercase,
    push_char, push_decimal, to_lowercase, utf8_len,
};

verus! {

broadcast use vstd::seq_lib::group_seq_properties;

/// Byte budget of a whole context.
pub const MAX_CONTEXT_BYTES: usize = 8192;

/// Number of dependencies listed.
pub const MAX_DEPS: usize = 5;

/// Number of dependents listed.
pub const MAX_DEPENDENTS: usize = 3;

/// Builds the compact context windows handed to AI providers.
pub struct ContextBuilder;

/// Number of newlines among the first `i` characters of `s`.
pub open spec fn count_newlines(s: Seq<char>, i: int) -> nat
    decreases i,
{
    if i <= 0 || i > s.len() {
        0
    } else {
        count_newlines(s, i - 1) + if s[i - 1] == '\n' { 1nat } else { 0nat }
    }
}

/// Position `i` begins a line.
pub open spec fn is_line_start(s: Seq<char>, i: int) -> bool {
    i == 0 || s[i - 1] == '\n'
}

/// First position at or after `i` that begins a line numbered `line` or
/// later (lines count from 1).
pub open spec fn start_from(s: Seq<char>, line: nat, i: int) -> Option<int>
    decreases s.len() - i,
{
    if i < 0 || i >= s.len() {
        None
    } else if is_line_start(s, i) && count_newlines(s, i) + 1 >= line {
        Some(i)
    } else {
        start_from(s, line, i + 1)
    }
}

/// Position just after the newline that ends line `line`, searching from
/// `i`; the end of `s` if there is none.
pub open spec fn end_from(s: Seq<char>, line: nat, i: int) -> int
    decreases s.len() - i,
{
    if i < 0 || i >= s.len() {
        s.len() as int
    } else if s[i] == '\n' && count_newlines(s, i) + 1 == line {
        i + 1
    } else {
        end_from(s, line, i + 1)
    }
}

/// Lines `first..=last` of `s` (1-indexed), with their line breaks; empty
/// for an invalid range or when `s` has fewer than `first` lines.
pub open spec fn line_range(s: Seq<char>, first: nat, last: nat) -> Seq<char> {
    if last < first || first == 0 {
        Seq::empty()
    } else {
        match start_from(s, first, 0) {
            Some(p) => s.subrange(p, end_from(s, last, p)),
            None => Seq::empty(),
        }
    }
}

proof fn lemma_start_from_bounds(s: Seq<char>, line: nat, i: int)
    requires
        0 <= i,
    ensures
        start_from(s, line, i) matches Some(p) ==> i <= p < s.len(),
    decreases s.len() - i,
{
    if i < s.len() && !(is_line_start(s, i) && count_newlines(s, i) + 1 >= line) {
        lemma_start_from_bounds(s, line, i + 1);
    }
}

proof fn lemma_end_from_bounds(s: Seq<char>, line: nat, i: int)
    requires
        0 <= i <= s.len(),
    ensures
        i <= end_from(s, line, i) <= s.len(),
    decreases s.len() - i,
{
    if i < s.len() && !(s[i] == '\n' && count_newlines(s, i) + 1 == line) {
        lemma_end_from_bounds(s, line, i + 1);
    }
}

impl ContextBuilder {
    /// Source lines `line_start..=line_end` (1-indexed, inclusive) of `source`,
    /// with their line breaks; empty when the range is invalid or the source is
    /// too short.
    pub fn extract_range(source: &str, line_start: u32, line_end: u32) -> (r: String)
        ensures
            r@ == line_range(source@, line_start as nat, line_end as nat),
    {
        if line_end < line_start || line_start == 0 {
            return String::new();
        }
        let cs = chars_of(source);
        let p = match find_line_start(&cs, line_start) {
            Some(p) => p,
            None => {
                return String::new();
            },
        };
        let e = find_line_end(&cs, line_end, p);
        proof {
            lemma_end_from_bounds(cs@, line_end as nat, p as int);
        }
        chars_between(&cs, p, e)
    }
}

fn find_line_start(cs: &Vec<char>, line_start: u32) -> (r: Option<usize>)
    ensures
        r matches Some(p) ==> p < cs@.len() && start_from(cs@, line_start as nat, 0) == Some(p as int),
        r is None ==> start_from(cs@, line_start as nat, 0) is None,
{
    let n = cs.len();
    let mut i: usize = 0;
    let mut line: u128 = 1;
    while i < n
        invariant
            n == cs@.len(),
            i <= n,
            line == count_newlines(cs@, i as int) + 1,
            line <= i + 1,
            start_from(cs@, line_start as nat, 0) == start_from(cs@, line_start as nat, i as int),
        decreases n - i,
    {
        let at_start = i == 0 || cs[i - 1] == '\n';
        if at_start && line >= line_start as u128 {
            return Some(i);
        }
        if cs[i] == '\n' {
            line = line + 1;
        }
        i = i + 1;
    }
    None
}

fn find_line_end(cs: &Vec<char>, line_end: u32, p: usize) -> (e: usize)
    requires
        p < cs@.len(),
    ensures
        e == end_from(cs@, line_end as nat, p as int),
{
    let n = cs.len();
    let mut j: usize = p;
    let mut line: u128 = count_exec(cs, p);
    while j < n
        invariant
            n == cs@.len(),
            p <= j <= n,
            line == count_newlines(cs@, j as int) + 1,
            line <= j + 1,
            end_from(cs@, line_end as nat, p as int) == end_from(cs@, line_end as nat, j as int),
        decreases n - j,
    {
        if cs[j] == '\n' {
            if line == line_end as u128 {
                return j + 1;
            }
            line = line + 1;
        }
        j = j + 1;
    }
    n
}

proof fn lemma_count_newlines_bound(s: Seq<char>, i: int)
    ensures
        count_newlines(s, i) <= if i < 0 { 0 } else { i },
    decreases i,
{
    if i > 0 && i <= s.len() {
        lemma_count_newlines_bound(s, i - 1);
    }
}

fn count_exec(cs: &Vec<char>, p: usize) -> (r: u128)
    requires
        p <= cs@.len(),
    ensures
        r == count_newlines(cs@, p as int) + 1,
        r <= p + 1,
{
    let mut k: usize = 0;
    let mut line: u128 = 1;
    while k < p
        invariant
            k <= p <= cs@.len(),
            line == count_newlines(cs@, k as int) + 1,
            line <= k + 1,
        decreases p - k,
    {
        if cs[k] == '\n' {
            line = line + 1;
        }
        k = k + 1;
    }
    line
}

/// The characters `a..b` of `cs` as a string.
fn chars_between(cs: &Vec<char>, a: usize, b: usize) -> (r: String)
    requires
        a <= b <= cs@.len(),
    ensures
        r@ == cs@.subrange(a as int, b as int),
{
    let mut r = String::new();
    let mut k = a;
    while k < b
        invariant
            a <= k <= b,
            b <= cs@.len(),
            r@ == cs@.subrange(a as int, k as int),
        decreases b - k,
    {
        push_char(&mut r, cs[k]);
        assert(cs@.subrange(a as int, k + 1) =~= cs@.subrange(a as int, k as int).push(cs@[k as int]));
        k = k + 1;
    }
    r
}

/// The longest prefix of `s` whose UTF-8 encoding fits in `max` bytes.
pub open spec fn fits_prefix(s: Seq<char>, max: nat, r: Seq<char>) -> bool {
    &&& r.len() <= s.len()
    &&& r == s.take(r.len() as int)
    &&& utf8_len(r) <= max
    &&& r.len() < s.len() ==> utf8_len(s.take(r.len() + 1int)) > max
}

fn utf8_width(c: char) -> (r: usize)
    ensures
        r == char_utf8_width(c),
{
    if (c as u32) < 0x80 {
        1
    } else if (c as u32) < 0x800 {
        2
    } else if (c as u32) < 0x10000 {
        3
    } else {
        4
    }
}

/// The characters of `s` kept, from the front, while their UTF-8 bytes
/// add up to at most `max`.
pub open spec fn truncation(s: Seq<char>, max: nat) -> Seq<char>
    decreases s.len(),
{
    if s.len() == 0 || char_utf8_width(s[0]) > max {
        Seq::empty()
    } else {
        seq![s[0]] + truncation(s.drop_first(), (max - char_utf8_width(s[0])) as nat)
    }
}

/// The longest prefix of `s`, in whole characters, of at most `max_bytes`
/// UTF-8 bytes.
pub fn truncate_to_bytes(s: &str, max_bytes: usize) -> (r: String)
    ensures
        r@ == truncation(s@, max_bytes as nat),
        fits_prefix(s@, max_bytes as nat, r@),
{
    let cs = chars_of(s);
    let mut r = String::new();
    let mut used: usize = 0;
    let mut i: usize = 0;
    proof {
        assert(utf8_len(Seq::<char>::empty()) == 0) by {
            assert(vstd::utf8::encode_utf8(Seq::<char>::empty()) =~= Seq::<u8>::empty());
        }
        assert(cs@.skip(0) =~= cs@);
    }
    while i < cs.len()
        invariant
            cs@ == s@,
            i <= cs@.len(),
            r@ == cs@.take(i as int),
            used == utf8_len(r@),
            used <= max_bytes,
            truncation(cs@, max_bytes as nat) == r@ + truncation(cs@.skip(i as int), (max_bytes - used) as nat),
        decreases cs@.len() - i,
    {
        let c = cs[i];
        let w = utf8_width(c);
        proof {
            lemma_utf8_len_push(r@, c);
            assert(cs@.take(i + 1) =~= cs@.take(i as int).push(c));
            assert(cs@.skip(i as int)[0] == c);
            assert(cs@.skip(i as int).drop_first() =~= cs@.skip(i + 1));
        }
        if w > max_bytes - used {
            assert(r@ + Seq::<char>::empty() =~= r@);
            return r;
        }
        proof {
            assert(r@ + (seq![c] + truncation(cs@.skip(i + 1), (max_bytes - used - w) as nat)) =~= r@.push(c)
                + truncation(cs@.skip(i + 1), (max_bytes - used - w) as nat));
        }
        used = used + w;
        push_char(&mut r, c);
        i = i + 1;
    }
    proof {
        assert(cs@.skip(i as int) =~= Seq::<char>::empty());
        assert(r@ + Seq::<char>::empty() =~= r@);
    }
    r
}

/// Name of a node type, as `{:?}` prints it.
pub open spec fn node_type_name(t: NodeType) -> Seq<char> {
    match t {
        NodeType::Component => "Component"@,
        NodeType::Route => "Route"@,
        NodeType::Service => "Service"@,
        NodeType::Repository => "Repository"@,
        NodeType::Model => "Model"@,
        NodeType::Util => "Util"@,
        NodeType::Config => "Config"@,
        NodeType::Test => "Test"@,
        NodeType::External => "External"@,
        NodeType::Unknown => "Unknown"@,
    }
}

/// Name of a node type, as `{:?}` prints it.
pub fn node_type_str(t: NodeType) -> (r: &'static str)
    ensures
        r@ == node_type_name(t),
{
    match t {
        NodeType::Component => "Component",
        NodeType::Route => "Route",
        NodeType::Service => "Service",
        NodeType::Repository => "Repository",
        NodeType::Model => "Model",
        NodeType::Util => "Util",
        NodeType::Config => "Config",
        NodeType::Test => "Test",
        NodeType::External => "External",
        NodeType::Unknown => "Unknown",
    }
}

/// The first node of `nodes` with id `id`.
pub open spec fn find_node(nodes: Seq<GraphNode>, id: Seq<char>) -> Option<GraphNode>
    decreases nodes.len(),
{
    if nodes.len() == 0 {
        None
    } else if nodes[0].id@ == id {
        Some(nodes[0])
    } else {
        find_node(nodes.drop_first(), id)
    }
}

/// Index of the first node of `nodes` with id `id`.
pub fn find_node_index(nodes: &Vec<GraphNode>, id: &str) -> (r: Option<usize>)
    ensures
        r matches Some(k) ==> k < nodes@.len() && find_node(nodes@, id@) == Some(nodes@[k as int]),
        r is None ==> find_node(nodes@, id@) is None,
{
    let mut k: usize = 0;
    while k < nodes.len()
        invariant
            k <= nodes@.len(),
            find_node(nodes@, id@) == find_node(nodes@.skip(k as int), id@),
        decreases nodes@.len() - k,
    {
        assert(nodes@.skip(k as int)[0] == nodes@[k as int]);
        assert(nodes@.skip(k as int).drop_first() =~= nodes@.skip(k + 1));
        if crate::text::str_eq(nodes[k].id.as_str(), id) {
            return Some(k);
        }
        k = k + 1;
    }
    None
}

/// `e` leaves `id` (outgoing) or arrives at it (incoming).
pub open spec fn edge_touches(e: GraphEdge, id: Seq<char>, outgoing: bool) -> bool {
    if outgoing { e.source@ == id } else { e.target@ == id }
}

/// The other end of `e`.
pub open spec fn other_end(e: GraphEdge, outgoing: bool) -> Seq<char> {
    if outgoing { e.target@ } else { e.source@ }
}

/// Nodes at the other end of the first `limit` edges touching `id`, in edge
/// order, leaving out edges whose other end is not a node of the graph.
pub open spec fn linked(edges: Seq<GraphEdge>, nodes: Seq<GraphNode>, id: Seq<char>, outgoing: bool, limit: nat) -> Seq<GraphNode>
    decreases edges.len(),
{
    if edges.len() == 0 || limit == 0 {
        Seq::empty()
    } else if edge_touches(edges[0], id, outgoing) {
        let rest = linked(edges.drop_first(), nodes, id, outgoing, (limit - 1) as nat);
        match find_node(nodes, other_end(edges[0], outgoing)) {
            Some(n) => seq![n] + rest,
            None => rest,
        }
    } else {
        linked(edges.drop_first(), nodes, id, outgoing, limit)
    }
}

/// At most `limit` nodes are listed: never more than five dependencies or
/// three dependents in a context.
pub proof fn lemma_linked_bounded(edges: Seq<GraphEdge>, nodes: Seq<GraphNode>, id: Seq<char>, outgoing: bool, limit: nat)
    ensures
        linked(edges, nodes, id, outgoing, limit).len() <= limit,
    decreases edges.len(),
{
    if edges.len() > 0 && limit > 0 {
        if edge_touches(edges[0], id, outgoing) {
            lemma_linked_bounded(edges.drop_first(), nodes, id, outgoing, (limit - 1) as nat);
        } else {
            lemma_linked_bounded(edges.drop_first(), nodes, id, outgoing, limit);
        }
    }
}

/// A node as listed among dependencies: "- **label** (path)".
pub open spec fn node_entry(n: GraphNode) -> Seq<char> {
    "- **"@ + n.label@ + "** ("@ + n.path@ + ")"@
}

/// Lines joined by line breaks.
pub open spec fn join_lines(s: Seq<Seq<char>>) -> Seq<char>
    decreases s.len(),
{
    if s.len() == 0 {
        Seq::empty()
    } else if s.len() == 1 {
        s[0]
    } else {
        join_lines(s.drop_last()) + "\n"@ + s.last()
    }
}

/// Entries of linked nodes.
pub open spec fn entries(ns: Seq<GraphNode>) -> Seq<Seq<char>> {
    ns.map_values(|n: GraphNode| node_entry(n))
}

/// The nodes linked to `id`, as `linked` lists them.
pub(crate) fn linked_nodes(graph: &GraphData, id: &str, outgoing: bool, limit: usize) -> (r: Vec<usize>)
    ensures
        r@.len() == linked(graph.edges@, graph.nodes@, id@, outgoing, limit as nat).len(),
        forall|k: int| 0 <= k < r@.len() ==> (#[trigger] r@[k]) < graph.nodes@.len()
            && graph.nodes@[r@[k] as int] == linked(graph.edges@, graph.nodes@, id@, outgoing, limit as nat)[k],
{
    let ghost full = linked(graph.edges@, graph.nodes@, id@, outgoing, limit as nat);
    let ghost mut got: Seq<GraphNode> = Seq::empty();
    let mut out: Vec<usize> = Vec::new();
    let mut left = limit;
    let mut i: usize = 0;
    while i < graph.edges.len() && left > 0
        invariant
            i <= graph.edges@.len(),
            left <= limit,
            full == got + linked(graph.edges@.skip(i as int), graph.nodes@, id@, outgoing, left as nat),
            out@.len() == got.len(),
            forall|k: int| 0 <= k < out@.len() ==> (#[trigger] out@[k]) < graph.nodes@.len()
                && graph.nodes@[out@[k] as int] == got[k],
        decreases graph.edges@.len() - i,
    {
        let e = &graph.edges[i];
        let ghost es = graph.edges@.skip(i as int);
        proof {
            assert(es[0] == *e);
            assert(es.drop_first() =~= graph.edges@.skip(i + 1));
        }
        let touches = if outgoing {
            crate::text::str_eq(e.source.as_str(), id)
        } else {
            crate::text::str_eq(e.target.as_str(), id)
        };
        if touches {
            let other = if outgoing { e.target.as_str() } else { e.source.as_str() };
            let ghost rest = linked(graph.edges@.skip(i + 1), graph.nodes@, id@, outgoing, (left - 1) as nat);
            match find_node_index(&graph.nodes, other) {
                Some(k) => {
                    out.push(k);
                    proof {
                        assert(got + (seq![graph.nodes@[k as int]] + rest) =~= got.push(graph.nodes@[k as int]) + rest);
                        got = got.push(graph.nodes@[k as int]);
                    }
                },
                None => {},
            }
            left = left - 1;
        }
        i = i + 1;
    }
    proof {
        if left != 0 {
            assert(graph.edges@.skip(i as int) =~= Seq::<GraphEdge>::empty());
        }
        assert(linked(graph.edges@.skip(i as int), graph.nodes@, id@, outgoing, left as nat) =~= Seq::<GraphNode>::empty());
        assert(got + Seq::<GraphNode>::empty() =~= got);
    }
    out
}

/// Collects the entries of the nodes linked to `id`.
fn linked_entries(graph: &GraphData, id: &str, outgoing: bool, limit: usize) -> (r: Vec<String>)
    ensures
        r@.len() == linked(graph.edges@, graph.nodes@, id@, outgoing, limit as nat).len(),
        forall|k: int| 0 <= k < r@.len() ==> (#[trigger] r@[k])@ == node_entry(
            linked(graph.edges@, graph.nodes@, id@, outgoing, limit as nat)[k],
        ),
{
    let idx = linked_nodes(graph, id, outgoing, limit);
    let mut out: Vec<String> = Vec::new();
    let mut k: usize = 0;
    while k < idx.len()
        invariant
            k <= idx@.len(),
            out@.len() == k,
            forall|q: int| 0 <= q < idx@.len() ==> (#[trigger] idx@[q]) < graph.nodes@.len(),
            forall|q: int| 0 <= q < k ==> (#[trigger] out@[q])@ == node_entry(graph.nodes@[idx@[q] as int]),
        decreases idx@.len() - k,
    {
        let n = &graph.nodes[idx[k]];
        let mut s = String::new();
        append_str(&mut s, "- **");
        append_str(&mut s, n.label.as_str());
        append_str(&mut s, "** (");
        append_str(&mut s, n.path.as_str());
        append_str(&mut s, ")");
        assert(s@ =~= node_entry(*n));
        out.push(s);
        k = k + 1;
    }
    out
}

/// The header of a node context: the node's path, type and symbol count, or
/// only the given path when the node is not in the graph.
pub open spec fn node_info(nodes: Seq<GraphNode>, node_id: Seq<char>, file_path: Seq<char>) -> Seq<char> {
    match find_node(nodes, node_id) {
        Some(n) => "**Archivo:** "@ + n.path@ + "\n**Tipo:** "@ + node_type_name(n.node_type) + "\n**Símbolos:** "@
            + decimal(n.symbol_count as nat),
        None => "**Archivo:** "@ + file_path,
    }
}

/// The lines joined by line breaks, or `none` when there are none.
pub open spec fn list_or(items: Seq<Seq<char>>, none: Seq<char>) -> Seq<char> {
    if items.len() == 0 {
        none
    } else {
        join_lines(items)
    }
}

/// Entries of the (at most five) dependencies of `id`.
pub open spec fn dependency_entries(graph: GraphData, id: Seq<char>) -> Seq<Seq<char>> {
    entries(linked(graph.edges@, graph.nodes@, id, true, MAX_DEPS as nat))
}

/// Entries of the (at most three) dependents of `id`.
pub open spec fn dependent_entries(graph: GraphData, id: Seq<char>) -> Seq<Seq<char>> {
    entries(linked(graph.edges@, graph.nodes@, id, false, MAX_DEPENDENTS as nat))
}

/// The dependency and dependent sections of a node context.
pub open spec fn links_section(graph: GraphData, id: Seq<char>) -> Seq<char> {
    let deps = dependency_entries(graph, id);
    let dents = dependent_entries(graph, id);
    "\n\n**Dependencias ("@ + decimal(deps.len()) + "):**\n"@ + list_or(deps, "Ninguna"@) + "\n\n**Dependientes ("@
        + decimal(dents.len()) + "):**\n"@ + list_or(dents, "Ninguno"@)
}

/// A fenced excerpt of code.
pub open spec fn code_block(code: Seq<char>) -> Seq<char> {
    "\n\n**Codigo (primeras lineas):**\n```\n"@ + code + "\n```"@
}

/// The context of a node without outline.
pub open spec fn node_context(content: Seq<char>, path: Seq<char>, graph: GraphData, id: Seq<char>) -> Seq<char> {
    node_info(graph.nodes@, id, path) + links_section(graph, id) + code_block(
        truncation(content, (MAX_CONTEXT_BYTES / 2) as nat),
    )
}

fn join_or(items: &Vec<String>, none: &str) -> (r: String)
    ensures
        r@ == list_or(items@.map_values(|x: String| x@), none@),
{
    let ghost v = items@.map_values(|x: String| x@);
    if items.len() == 0 {
        return none.to_owned();
    }
    let mut r = String::new();
    append_str(&mut r, items[0].as_str());
    proof {
        assert(v.take(1) =~= seq![v[0]]);
        assert(r@ =~= join_lines(v.take(1)));
    }
    let mut k: usize = 1;
    while k < items.len()
        invariant
            1 <= k <= items@.len(),
            v == items@.map_values(|x: String| x@),
            r@ == join_lines(v.take(k as int)),
        decreases items@.len() - k,
    {
        append_str(&mut r, "\n");
        append_str(&mut r, items[k].as_str());
        proof {
            assert(v.take(k + 1).drop_last() =~= v.take(k as int));
            assert(v.take(k + 1).last() == items@[k as int]@);
        }
        k = k + 1;
    }
    assert(v.take(k as int) =~= v);
    r
}

fn node_info_text(graph: &GraphData, node_id: &str, file_path: &str) -> (r: String)
    ensures
        r@ == node_info(graph.nodes@, node_id@, file_path@),
{
    let mut r = String::new();
    match find_node_index(&graph.nodes, node_id) {
        Some(k) => {
            let n = &graph.nodes[k];
            append_str(&mut r, "**Archivo:** ");
            append_str(&mut r, n.path.as_str());
            append_str(&mut r, "\n**Tipo:** ");
            append_str(&mut r, node_type_str(n.node_type));
            append_str(&mut r, "\n**Símbolos:** ");
            push_decimal(&mut r, n.symbol_count as u64);
        },
        None => {
            append_str(&mut r, "**Archivo:** ");
            append_str(&mut r, file_path);
        },
    }
    assert(r@ =~= node_info(graph.nodes@, node_id@, file_path@));
    r
}

fn links_text(graph: &GraphData, node_id: &str) -> (r: String)
    ensures
        r@ == links_section(*graph, node_id@),
{
    let deps = linked_entries(graph, node_id, true, MAX_DEPS);
    let dents = linked_entries(graph, node_id, false, MAX_DEPENDENTS);
    proof {
        assert(deps@.map_values(|x: String| x@) =~= dependency_entries(*graph, node_id@));
        assert(dents@.map_values(|x: String| x@) =~= dependent_entries(*graph, node_id@));
    }
    let mut r = String::new();
    append_str(&mut r, "\n\n**Dependencias (");
    push_decimal(&mut r, deps.len() as u64);
    append_str(&mut r, "):**\n");
    let d = join_or(&deps, "Ninguna");
    append_str(&mut r, d.as_str());
    append_str(&mut r, "\n\n**Dependientes (");
    push_decimal(&mut r, dents.len() as u64);
    append_str(&mut r, "):**\n");
    let t = join_or(&dents, "Ninguno");
    append_str(&mut r, t.as_str());
    assert(r@ =~= links_section(*graph, node_id@));
    r
}

fn push_code_block(r: &mut String, code: &str)
    ensures
        final(r)@ == old(r)@ + code_block(code@),
{
    append_str(r, "\n\n**Codigo (primeras lineas):**\n```\n");
    append_str(r, code);
    append_str(r, "\n```");
    assert(final(r)@ =~= old(r)@ + code_block(code@));
}

impl ContextBuilder {
    /// A compact context for explaining a node: its header, up to five
    /// dependencies and three dependents, and the file's first 4 KiB.
    pub fn build_node_context(file_content: &str, file_path: &str, graph: &GraphData, node_id: &str) -> (r: String)
        ensures
            r@ == node_context(file_content@, file_path@, *graph, node_id@),
    {
        let mut r = node_info_text(graph, node_id, file_path);
        let links = links_text(graph, node_id);
        append_str(&mut r, links.as_str());
        let code = truncate_to_bytes(file_content, MAX_CONTEXT_BYTES / 2);
        push_code_block(&mut r, code.as_str());
        assert(r@ =~= node_context(file_content@, file_path@, *graph, node_id@));
        r
    }
}

/// Name of an outline kind, as `{:?}` prints it.
pub open spec fn outline_kind_name(k: OutlineItemKind) -> Seq<char> {
    match k {
        OutlineItemKind::Class => "Class"@,
        OutlineItemKind::Function => "Function"@,
        OutlineItemKind::Method => "Method"@,
        OutlineItemKind::Interface => "Interface"@,
        OutlineItemKind::Type => "Type"@,
        OutlineItemKind::Enum => "Enum"@,
        OutlineItemKind::Const => "Const"@,
        OutlineItemKind::Variable => "Variable"@,
        OutlineItemKind::Module => "Module"@,
        OutlineItemKind::Field => "Field"@,
        OutlineItemKind::Struct => "Struct"@,
        OutlineItemKind::Impl => "Impl"@,
        OutlineItemKind::Unknown => "Unknown"@,
    }
}

/// Name of an outline kind, as `{:?}` prints it.
pub fn outline_kind_str(k: OutlineItemKind) -> (r: &'static str)
    ensures
        r@ == outline_kind_name(k),
{
    match k {
        OutlineItemKind::Class => "Class",
        OutlineItemKind::Function => "Function",
        OutlineItemKind::Method => "Method",
        OutlineItemKind::Interface => "Interface",
        OutlineItemKind::Type => "Type",
        OutlineItemKind::Enum => "Enum",
        OutlineItemKind::Const => "Const",
        OutlineItemKind::Variable => "Variable",
        OutlineItemKind::Module => "Module",
        OutlineItemKind::Field => "Field",
        OutlineItemKind::Struct => "Struct",
        OutlineItemKind::Impl => "Impl",
        OutlineItemKind::Unknown => "Unknown",
    }
}

/// The line rendered for one outline item under indentation `ind`.
pub open spec fn outline_line(item: OutlineItem, ind: Seq<char>) -> Seq<char> {
    ind + "["@ + outline_kind_name(item.kind) + "] "@ + item.name@ + " (lines "@ + decimal(item.line_start as nat) + "-"@
        + decimal(item.line_end as nat) + ")\n"@
}

/// Marker written in place of items beyond the limit.
pub open spec fn more_marker() -> Seq<char> {
    "(...mas simbolos...)\n"@
}

/// Renders `item` and, depth first, its children, given that `count` items
/// were rendered before; returns the text and the new count. Past `max`
/// items, an item renders as the marker alone, without its children.
pub open spec fn render_item(item: OutlineItem, ind: Seq<char>, count: nat, max: nat) -> (Seq<char>, nat)
    decreases item, 1nat,
{
    if count >= max {
        (more_marker(), count)
    } else {
        let rest = render_items(item.children@, ind + "  "@, count + 1, max);
        (outline_line(item, ind) + rest.0, rest.1)
    }
}

/// Renders a list of sibling items, one after the other.
pub open spec fn render_items(items: Seq<OutlineItem>, ind: Seq<char>, count: nat, max: nat) -> (Seq<char>, nat)
    decreases items, 0nat,
{
    if items.len() == 0 {
        (Seq::empty(), count)
    } else {
        let first = render_item(items[0], ind, count, max);
        let rest = render_items(items.drop_first(), ind, first.1, max);
        (first.0 + rest.0, rest.1)
    }
}

fn render_item_into(item: &OutlineItem, ind: &String, out: &mut String, count: &mut usize, max: usize)
    requires
        *old(count) <= max,
    ensures
        final(out)@ == old(out)@ + render_item(*item, ind@, *old(count) as nat, max as nat).0,
        *final(count) == render_item(*item, ind@, *old(count) as nat, max as nat).1,
        *final(count) <= max,
    decreases item, 1nat,
{
    if *count >= max {
        append_str(out, "(...mas simbolos...)\n");
        return;
    }
    append_str(out, ind.as_str());
    append_str(out, "[");
    append_str(out, outline_kind_str(item.kind));
    append_str(out, "] ");
    append_str(out, item.name.as_str());
    append_str(out, " (lines ");
    push_decimal(out, item.line_start as u64);
    append_str(out, "-");
    push_decimal(out, item.line_end as u64);
    append_str(out, ")\n");
    let ghost mid = out@;
    assert(mid =~= old(out)@ + outline_line(*item, ind@));
    *count = *count + 1;
    let mut child_ind = ind.clone();
    append_str(&mut child_ind, "  ");
    render_items_into(&item.children, &child_ind, out, count, max);
}

fn render_items_into(items: &Vec<OutlineItem>, ind: &String, out: &mut String, count: &mut usize, max: usize)
    requires
        *old(count) <= max,
    ensures
        final(out)@ == old(out)@ + render_items(items@, ind@, *old(count) as nat, max as nat).0,
        *final(count) == render_items(items@, ind@, *old(count) as nat, max as nat).1,
        *final(count) <= max,
    decreases items@, 0nat,
{
    let ghost full = render_items(items@, ind@, *old(count) as nat, max as nat);
    let ghost out0 = out@;
    let mut k: usize = 0;
    proof {
        assert(items@.skip(0) =~= items@);
    }
    while k < items.len()
        invariant
            k <= items@.len(),
            *count <= max,
            out0 + full.0 == out@ + render_items(items@.skip(k as int), ind@, *count as nat, max as nat).0,
            full.1 == render_items(items@.skip(k as int), ind@, *count as nat, max as nat).1,
        decreases items@.len() - k,
    {
        let ghost c0 = *count as nat;
        let ghost o0 = out@;
        proof {
            assert(items@.skip(k as int)[0] == items@[k as int]);
            assert(items@.skip(k as int).drop_first() =~= items@.skip(k + 1));
            assert(decreases_to!(items@ => items@[k as int]));
        }
        render_item_into(&items[k], ind, out, count, max);
        proof {
            let first = render_item(items@[k as int], ind@, c0, max as nat);
            let rest = render_items(items@.skip(k + 1), ind@, first.1, max as nat);
            assert(o0 + (first.0 + rest.0) =~= (o0 + first.0) + rest.0);
        }
        k = k + 1;
    }
    proof {
        assert(items@.skip(k as int) =~= Seq::<OutlineItem>::empty());
        assert(out@ + Seq::<char>::empty() =~= out@);
    }
}

/// A depth-first summary of an outline, one line per item, at most
/// `max_items` items; every item past the limit is replaced by a marker.
pub fn render_outline_summary(items: &Vec<OutlineItem>, max_items: usize) -> (r: String)
    ensures
        r@ == render_items(items@, Seq::empty(), 0, max_items as nat).0,
{
    let mut out = String::new();
    let mut count: usize = 0;
    let ind = String::new();
    render_items_into(items, &ind, &mut out, &mut count, max_items);
    assert(Seq::<char>::empty() + render_items(items@, Seq::empty(), 0, max_items as nat).0
        =~= render_items(items@, Seq::empty(), 0, max_items as nat).0);
    out
}

/// Number of outline items rendered in a node context.
pub const MAX_OUTLINE_ITEMS: usize = 80;

/// The context of a node with its outline, before the byte cap.
pub open spec fn outline_context_body(
    content: Seq<char>,
    path: Seq<char>,
    graph: GraphData,
    id: Seq<char>,
    outline: Seq<OutlineItem>,
) -> Seq<char> {
    let summary = render_items(outline, Seq::empty(), 0, MAX_OUTLINE_ITEMS as nat).0;
    let fallback = if outline.len() == 0 {
        truncation(content, (MAX_CONTEXT_BYTES / 2) as nat)
    } else {
        Seq::empty()
    };
    node_info(graph.nodes@, id, path) + (if summary.len() > 0 {
        "\n\n**Outline:**\n"@ + summary
    } else {
        Seq::empty()
    }) + links_section(graph, id) + (if fallback.len() > 0 {
        code_block(fallback)
    } else {
        Seq::empty()
    })
}

impl ContextBuilder {
    /// A compact context for explaining a node from its outline: the header, a
    /// summary of at most eighty outline items, dependencies and dependents,
    /// and the file's first 4 KiB only when there is no outline; the whole is
    /// cut to 8 KiB.
    pub fn build_node_context_with_outline(
        file_content: &str,
        file_path: &str,
        graph: &GraphData,
        node_id: &str,
        outline: &Vec<OutlineItem>,
    ) -> (r: String)
        ensures
            r@ == truncation(
                outline_context_body(file_content@, file_path@, *graph, node_id@, outline@),
                MAX_CONTEXT_BYTES as nat,
            ),
            utf8_len(r@) <= MAX_CONTEXT_BYTES,
    {
        let mut context = node_info_text(graph, node_id, file_path);
        let summary = render_outline_summary(outline, MAX_OUTLINE_ITEMS);
        let fallback = if outline.len() == 0 {
            truncate_to_bytes(file_content, MAX_CONTEXT_BYTES / 2)
        } else {
            String::new()
        };
        if !summary.as_str().is_empty() {
            append_str(&mut context, "\n\n**Outline:**\n");
            append_str(&mut context, summary.as_str());
        }
        let links = links_text(graph, node_id);
        append_str(&mut context, links.as_str());
        if !fallback.as_str().is_empty() {
            push_code_block(&mut context, fallback.as_str());
        }
        assert(context@ =~= outline_context_body(file_content@, file_path@, *graph, node_id@, outline@));
        truncate_to_bytes(context.as_str(), MAX_CONTEXT_BYTES)
    }
}

/// `c` has the Unicode White_Space property, as `char::is_whitespace`
/// documents it.
pub open spec fn is_space(c: char) -> bool {
    let v = c as u32;
    ||| 0x09 <= v <= 0x0d
    ||| v == 0x20
    ||| v == 0x85
    ||| v == 0xa0
    ||| v == 0x1680
    ||| 0x2000 <= v <= 0x200a
    ||| v == 0x2028
    ||| v == 0x2029
    ||| v == 0x202f
    ||| v == 0x205f
    ||| v == 0x3000
}

fn is_space_exec(c: char) -> (r: bool)
    ensures
        r == is_space(c),
{
    let v = c as u32;
    (0x09 <= v && v <= 0x0d) || v == 0x20 || v == 0x85 || v == 0xa0 || v == 0x1680 || (0x2000 <= v && v <= 0x200a)
        || v == 0x2028 || v == 0x2029 || v == 0x202f || v == 0x205f || v == 0x3000
}

/// The whitespace-separated words of `s`, given the word `cur` in progress.
pub open spec fn words_from(s: Seq<char>, cur: Seq<char>) -> Seq<Seq<char>>
    decreases s.len(),
{
    if s.len() == 0 {
        if cur.len() > 0 { seq![cur] } else { Seq::empty() }
    } else if is_space(s[0]) {
        (if cur.len() > 0 { seq![cur] } else { Seq::empty() }) + words_from(s.drop_first(), Seq::empty())
    } else {
        words_from(s.drop_first(), cur.push(s[0]))
    }
}

/// The whitespace-separated words of `s`, as `split_whitespace` gives them.
pub open spec fn words(s: Seq<char>) -> Seq<Seq<char>> {
    words_from(s, Seq::empty())
}

fn split_words(s: &Vec<char>) -> (r: Vec<Vec<char>>)
    ensures
        r@.map_values(|w: Vec<char>| w@) == words(s@),
{
    let mut out: Vec<Vec<char>> = Vec::new();
    let mut cur: Vec<char> = Vec::new();
    let mut i: usize = 0;
    proof {
        assert(s@.skip(0) =~= s@);
        assert(out@.map_values(|w: Vec<char>| w@) =~= Seq::<Seq<char>>::empty());
    }
    while i < s.len()
        invariant
            i <= s@.len(),
            words(s@) == out@.map_values(|w: Vec<char>| w@) + words_from(s@.skip(i as int), cur@),
        decreases s@.len() - i,
    {
        let c = s[i];
        let ghost before = out@.map_values(|w: Vec<char>| w@);
        proof {
            assert(s@.skip(i as int)[0] == c);
            assert(s@.skip(i as int).drop_first() =~= s@.skip(i + 1));
        }
        if is_space_exec(c) {
            if cur.len() > 0 {
                let ghost cw = cur@;
                out.push(cur);
                cur = Vec::new();
                proof {
                    assert(out@.map_values(|w: Vec<char>| w@) =~= before.push(cw));
                    assert(before + (seq![cw] + words_from(s@.skip(i + 1), Seq::empty())) =~= before.push(cw)
                        + words_from(s@.skip(i + 1), Seq::empty()));
                }
            } else {
                proof {
                    assert(Seq::<Seq<char>>::empty() + words_from(s@.skip(i + 1), Seq::empty()) =~= words_from(
                        s@.skip(i + 1),
                        Seq::empty(),
                    ));
                    assert(cur@ =~= Seq::<char>::empty());
                }
            }
        } else {
            cur.push(c);
        }
        i = i + 1;
    }
    if cur.len() > 0 {
        let ghost cw = cur@;
        let ghost before = out@.map_values(|w: Vec<char>| w@);
        out.push(cur);
        proof {
            assert(s@.skip(i as int) =~= Seq::<char>::empty());
            assert(out@.map_values(|w: Vec<char>| w@) =~= before + seq![cw]);
        }
    } else {
        proof {
            assert(s@.skip(i as int) =~= Seq::<char>::empty());
            assert(out@.map_values(|w: Vec<char>| w@) + Seq::<Seq<char>>::empty() =~= out@.map_values(|w: Vec<char>| w@));
        }
    }
    out
}

/// Number of UTF-8 bytes of `s`.
pub fn byte_len(s: &str) -> (r: u128)
    ensures
        r == utf8_len(s@),
{
    let cs = chars_of(s);
    let mut n: u128 = 0;
    let mut i: usize = 0;
    proof {
        assert(vstd::utf8::encode_utf8(Seq::<char>::empty()) =~= Seq::<u8>::empty());
        assert(cs@.take(0) =~= Seq::<char>::empty());
    }
    while i < cs.len()
        invariant
            i <= cs@.len(),
            n == utf8_len(cs@.take(i as int)),
            n <= 4 * i,
        decreases cs@.len() - i,
    {
        proof {
            lemma_utf8_len_push(cs@.take(i as int), cs@[i as int]);
            assert(cs@.take(i + 1) =~= cs@.take(i as int).push(cs@[i as int]));
        }
        n = n + utf8_width(cs[i]) as u128;
        i = i + 1;
    }
    assert(cs@.take(i as int) =~= cs@);
    n
}

/// Some keyword occurs in the lower-cased `path`.
pub open spec fn mentions(path: Seq<char>, keywords: Seq<Seq<char>>) -> bool {
    exists|k: int| 0 <= k < keywords.len() && has_substring(lowercase(path), #[trigger] keywords[k])
}

/// The first `limit` files whose path mentions a keyword.
pub open spec fn relevant_files(files: Seq<(Seq<char>, Seq<char>)>, keywords: Seq<Seq<char>>, limit: nat) -> Seq<(Seq<char>, Seq<char>)>
    decreases files.len(),
{
    if files.len() == 0 || limit == 0 {
        Seq::empty()
    } else if mentions(files[0].0, keywords) {
        seq![files[0]] + relevant_files(files.drop_first(), keywords, (limit - 1) as nat)
    } else {
        relevant_files(files.drop_first(), keywords, limit)
    }
}

/// One line of the project structure.
pub open spec fn structure_line(n: GraphNode) -> Seq<char> {
    "- "@ + n.label@ + " ["@ + node_type_name(n.node_type) + "]\n"@
}

/// Appends structure lines to `acc`, stopping with a marker once the text
/// passes half the byte budget.
pub open spec fn structure_from(acc: Seq<char>, nodes: Seq<GraphNode>) -> Seq<char>
    decreases nodes.len(),
{
    if nodes.len() == 0 {
        acc
    } else {
        let next = acc + structure_line(nodes[0]);
        if utf8_len(next) > MAX_CONTEXT_BYTES / 2 {
            next + "(mas archivos...)\n"@
        } else {
            structure_from(next, nodes.drop_first())
        }
    }
}

/// A relevant file's excerpt.
pub open spec fn file_excerpt(f: (Seq<char>, Seq<char>)) -> Seq<char> {
    "\n**"@ + f.0 + ":**\n```\n"@ + truncation(f.1, 500) + "\n```\n"@
}

/// Excerpts of files, one after the other.
pub open spec fn excerpts(files: Seq<(Seq<char>, Seq<char>)>) -> Seq<char>
    decreases files.len(),
{
    if files.len() == 0 {
        Seq::empty()
    } else {
        file_excerpt(files[0]) + excerpts(files.drop_first())
    }
}

/// Views of (path, content) pairs.
pub open spec fn pair_views(files: Seq<(&str, &str)>) -> Seq<(Seq<char>, Seq<char>)> {
    files.map_values(|f: (&str, &str)| (f.0@, f.1@))
}

/// The chat context for `question`.
pub open spec fn chat_context(files: Seq<(Seq<char>, Seq<char>)>, graph: GraphData, question: Seq<char>) -> Seq<char> {
    let head = "**Pregunta:** "@ + question + "\n\n"@ + "**Estructura del proyecto:**\n"@;
    structure_from(head, graph.nodes@) + "\n**Archivos relevantes:**\n"@ + excerpts(
        relevant_files(files, words(lowercase(question)), 3),
    )
}

fn mentions_exec(path: &str, keywords: &Vec<Vec<char>>) -> (r: bool)
    ensures
        r == mentions(path@, keywords@.map_values(|w: Vec<char>| w@)),
{
    let ghost kws = keywords@.map_values(|w: Vec<char>| w@);
    let lower = to_lowercase(path);
    let lc = chars_of(lower.as_str());
    let mut k: usize = 0;
    while k < keywords.len()
        invariant
            k <= keywords@.len(),
            kws == keywords@.map_values(|w: Vec<char>| w@),
            lc@ == lowercase(path@),
            forall|q: int| 0 <= q < k ==> !has_substring(lowercase(path@), #[trigger] kws[q]),
        decreases keywords@.len() - k,
    {
        if contains_chars(lc.as_slice(), keywords[k].as_slice()) {
            assert(kws[k as int] == keywords@[k as int]@);
            return true;
        }
        assert(kws[k as int] == keywords@[k as int]@);
        k = k + 1;
    }
    false
}

impl ContextBuilder {
    /// Context for a project-wide chat question: the question, the project
    /// structure (cut once it passes 4 KiB), and excerpts of up to three files
    /// whose path mentions a word of the question.
    pub fn build_chat_context(files: &[(&str, &str)], graph: &GraphData, question: &str) -> (r: String)
        ensures
            r@ == chat_context(pair_views(files@), *graph, question@),
    {
        let mut context = String::new();
        append_str(&mut context, "**Pregunta:** ");
        append_str(&mut context, question);
        append_str(&mut context, "\n\n");
        append_str(&mut context, "**Estructura del proyecto:**\n");
        let ghost head = context@;
        assert(head =~= "**Pregunta:** "@ + question@ + "\n\n"@ + "**Estructura del proyecto:**\n"@);
        let mut i: usize = 0;
        proof {
            assert(graph.nodes@.skip(0) =~= graph.nodes@);
        }
        let mut stopped = false;
        while i < graph.nodes.len() && !stopped
            invariant
                i <= graph.nodes@.len(),
                !stopped ==> structure_from(head, graph.nodes@) == structure_from(context@, graph.nodes@.skip(i as int)),
                stopped ==> structure_from(head, graph.nodes@) == context@,
            decreases graph.nodes@.len() - i, (if stopped { 0int } else { 1int }),
        {
            let n = &graph.nodes[i];
            proof {
                assert(graph.nodes@.skip(i as int)[0] == *n);
                assert(graph.nodes@.skip(i as int).drop_first() =~= graph.nodes@.skip(i + 1));
            }
            let ghost before = context@;
            append_str(&mut context, "- ");
            append_str(&mut context, n.label.as_str());
            append_str(&mut context, " [");
            append_str(&mut context, node_type_str(n.node_type));
            append_str(&mut context, "]\n");
            assert(context@ =~= before + structure_line(*n));
            if byte_len(context.as_str()) > (MAX_CONTEXT_BYTES / 2) as u128 {
                append_str(&mut context, "(mas archivos...)\n");
                stopped = true;
            } else {
                assert(structure_from(before, graph.nodes@.skip(i as int)) == structure_from(context@, graph.nodes@.skip(i + 1)));
                i = i + 1;
            }
        }
        proof {
            if !stopped {
                assert(graph.nodes@.skip(i as int) =~= Seq::<GraphNode>::empty());
            }
        }
        let ghost structure = context@;
        append_str(&mut context, "\n**Archivos relevantes:**\n");
        let ql = to_lowercase(question);
        let qc = chars_of(ql.as_str());
        let keywords = split_words(&qc);
        let ghost kws = keywords@.map_values(|w: Vec<char>| w@);
        let ghost fv = pair_views(files@);
        let ghost rel = relevant_files(fv, kws, 3);
        let ghost after_header = context@;
        let mut left: usize = 3;
        let mut j: usize = 0;
        let ghost mut taken: Seq<(Seq<char>, Seq<char>)> = Seq::empty();
        proof {
            assert(fv.skip(0) =~= fv);
            assert(after_header + excerpts(Seq::<(Seq<char>, Seq<char>)>::empty()) =~= after_header);
        }
        while j < files.len() && left > 0
            invariant
                j <= files@.len(),
                left <= 3,
                fv == pair_views(files@),
                fv.len() == files@.len(),
                rel == taken + relevant_files(fv.skip(j as int), kws, left as nat),
                kws == keywords@.map_values(|w: Vec<char>| w@),
                context@ == after_header + excerpts(taken),
            decreases files@.len() - j,
        {
            let f = files[j];
            let ghost fp = (f.0@, f.1@);
            proof {
                assert(fv[j as int] == fp);
                assert(fv.skip(j as int)[0] == fp);
                assert(fv.skip(j as int).drop_first() =~= fv.skip(j + 1));
            }
            if mentions_exec(f.0, &keywords) {
                append_str(&mut context, "\n**");
                append_str(&mut context, f.0);
                append_str(&mut context, ":**\n```\n");
                let t = truncate_to_bytes(f.1, 500);
                append_str(&mut context, t.as_str());
                append_str(&mut context, "\n```\n");
                proof {
                    lemma_excerpts_push(taken, fp);
                    assert(taken + (seq![fp] + relevant_files(fv.skip(j + 1), kws, (left - 1) as nat)) =~= taken.push(fp)
                        + relevant_files(fv.skip(j + 1), kws, (left - 1) as nat));
                    taken = taken.push(fp);
                }
                left = left - 1;
            }
            j = j + 1;
        }
        proof {
            if left > 0 {
                assert(fv.skip(j as int) =~= Seq::<(Seq<char>, Seq<char>)>::empty());
            }
            assert(relevant_files(fv.skip(j as int), kws, left as nat) =~= Seq::<(Seq<char>, Seq<char>)>::empty());
            assert(taken + Seq::<(Seq<char>, Seq<char>)>::empty() =~= taken);
            assert(kws == words(lowercase(question@)));
        }
        context
    }
}

proof fn lemma_excerpts_push(fs: Seq<(Seq<char>, Seq<char>)>, f: (Seq<char>, Seq<char>))
    ensures
        excerpts(fs.push(f)) == excerpts(fs) + file_excerpt(f),
    decreases fs.len(),
{
    if fs.len() == 0 {
        assert(fs.push(f).drop_first() =~= Seq::<(Seq<char>, Seq<char>)>::empty());
        assert(file_excerpt(f) + Seq::<char>::empty() =~= file_excerpt(f));
        assert(Seq::<char>::empty() + file_excerpt(f) =~= file_excerpt(f));
    } else {
        assert(fs.push(f).drop_first() =~= fs.drop_first().push(f));
        lemma_excerpts_push(fs.drop_first(), f);
        assert(file_excerpt(fs[0]) + (excerpts(fs.drop_first()) + file_excerpt(f)) =~= (file_excerpt(fs[0]) + excerpts(
            fs.drop_first(),
        )) + file_excerpt(f));
    }
}

} // verus!
