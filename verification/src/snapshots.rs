//! What is derived from stored snapshots of a project: architecture (C4)
//! views at the system and container levels, and what changed between two
//! snapshots.

use vstd::prelude::*;
use crate::cycles::{distinct_views, find_id};
use crate::models::C4View;
use crate::text::{append_str, lists, push_char, str_eq};

verus! {

broadcast use vstd::seq_lib::group_seq_properties;

/// A node as a snapshot stores it.
#[derive(Debug, Clone)]
pub struct SnapshotNode {
    pub id: String,
    pub label: String,
    pub path: String,
    pub node_type: String,
}

/// The ids of the application layer are project-wide names.
pub open spec fn system_node(n: SnapshotNode) -> bool {
    n.node_type@ == "service"@ || n.node_type@ == "repository"@
}

/// Labels of the first `limit` system nodes, in order.
pub open spec fn system_labels(nodes: Seq<SnapshotNode>, limit: nat) -> Seq<Seq<char>>
    decreases nodes.len(),
{
    if nodes.len() == 0 || limit == 0 {
        Seq::empty()
    } else if system_node(nodes[0]) {
        seq![nodes[0].label@] + system_labels(nodes.drop_first(), (limit - 1) as nat)
    } else {
        system_labels(nodes.drop_first(), limit)
    }
}

/// Position of the first `/` in `s`, or its length.
pub open spec fn slash_pos(s: Seq<char>) -> int {
    crate::text::char_pos(s, '/')
}

/// The container of a path: its second and third `/`-separated segments
/// joined by `/` (`split('/').skip(1).take(2)`), empty for a single
/// segment.
pub open spec fn container_of(path: Seq<char>) -> Seq<char> {
    let p1 = slash_pos(path);
    if p1 >= path.len() {
        Seq::empty()
    } else {
        let rest = path.skip(p1 + 1);
        let p2 = slash_pos(rest);
        if p2 >= rest.len() {
            rest
        } else {
            let tail = rest.skip(p2 + 1);
            rest.take(p2) + "/"@ + tail.take(slash_pos(tail))
        }
    }
}

/// The system-level view of a snapshot's nodes.
pub open spec fn system_view(nodes: Seq<SnapshotNode>, v: C4View) -> bool {
    let systems = system_labels(nodes, 10);
    &&& v.level == 1
    &&& v.containers is None
    &&& if systems.len() == 0 {
        &&& v.systems matches Some(s) && s@.len() == 1 && s@[0]@ == "CodeAtlas Application"@
        &&& v.warning matches Some(w) && w@ == "Limited data for C4 L1; showing system placeholder."@
    } else {
        &&& v.systems matches Some(s) && s@.map_values(|x: String| x@) == systems
        &&& v.warning is None
    }
}

/// `c` is the non-empty container of one of the nodes.
pub open spec fn named_container(nodes: Seq<SnapshotNode>, c: Seq<char>) -> bool {
    c.len() > 0 && exists|i: int| 0 <= i < nodes.len() && container_of((#[trigger] nodes[i]).path@) == c
}

/// The container-level view of a snapshot's nodes: the distinct non-empty
/// containers of the node paths, at most twenty (all of them when there
/// are no more), or a placeholder when there is none.
pub open spec fn container_view(nodes: Seq<SnapshotNode>, v: C4View) -> bool {
    &&& v.level == 2
    &&& v.systems is None
    &&& v.warning is None
    &&& v.containers matches Some(cs) && {
        let any = exists|i: int| 0 <= i < nodes.len() && container_of((#[trigger] nodes[i]).path@).len() > 0;
        if !any {
            cs@.len() == 1 && cs@[0]@ == "No container data available"@
        } else {
            &&& distinct_views(cs@)
            &&& 0 < cs@.len() <= 20
            &&& forall|k: int| 0 <= k < cs@.len() ==> named_container(nodes, (#[trigger] cs@[k])@)
            &&& cs@.len() < 20 ==> forall|i: int|
                0 <= i < nodes.len() && container_of((#[trigger] nodes[i]).path@).len() > 0 ==> lists(cs@, container_of(nodes[i].path@))
        }
    }
}

/// The view when the project has no snapshot.
pub open spec fn missing_snapshot_view(level: u8, v: C4View) -> bool {
    &&& v.level == level
    &&& (level == 1 ==> (v.systems matches Some(s) && s@.len() == 1 && s@[0]@ == "CodeAtlas Application"@))
    &&& (level != 1 ==> v.systems is None)
    &&& (level == 2 ==> (v.containers matches Some(c) && c@.len() == 1 && c@[0]@ == "No snapshot data available"@))
    &&& (level != 2 ==> v.containers is None)
    &&& v.warning matches Some(w) && w@ == "No snapshot found for this project. Create a snapshot first."@
}

fn single(s: &str) -> (r: Vec<String>)
    ensures
        r@.len() == 1,
        r@[0]@ == s@,
{
    let mut v: Vec<String> = Vec::new();
    v.push(s.to_owned());
    v
}

fn system_labels_exec(nodes: &Vec<SnapshotNode>) -> (r: Vec<String>)
    ensures
        r@.map_values(|x: String| x@) == system_labels(nodes@, 10),
{
    let mut out: Vec<String> = Vec::new();
    let mut left: usize = 10;
    let mut k: usize = 0;
    let ghost full = system_labels(nodes@, 10);
    proof {
        assert(nodes@.skip(0) =~= nodes@);
        assert(out@.map_values(|x: String| x@) =~= Seq::<Seq<char>>::empty());
    }
    while k < nodes.len() && left > 0
        invariant
            k <= nodes@.len(),
            left <= 10,
            full == out@.map_values(|x: String| x@) + system_labels(nodes@.skip(k as int), left as nat),
        decreases nodes@.len() - k,
    {
        let n = &nodes[k];
        proof {
            assert(nodes@.skip(k as int)[0] == *n);
            assert(nodes@.skip(k as int).drop_first() =~= nodes@.skip(k + 1));
        }
        let ghost before = out@.map_values(|x: String| x@);
        if str_eq(n.node_type.as_str(), "service") || str_eq(n.node_type.as_str(), "repository") {
            out.push(n.label.clone());
            proof {
                assert(out@.map_values(|x: String| x@) =~= before.push(n.label@));
                assert(before + (seq![n.label@] + system_labels(nodes@.skip(k + 1), (left - 1) as nat)) =~= before.push(n.label@)
                    + system_labels(nodes@.skip(k + 1), (left - 1) as nat));
            }
            left = left - 1;
        }
        k = k + 1;
    }
    proof {
        if left > 0 {
            assert(nodes@.skip(k as int) =~= Seq::<SnapshotNode>::empty());
        }
        assert(out@.map_values(|x: String| x@) + system_labels(nodes@.skip(k as int), left as nat) =~= out@.map_values(
            |x: String| x@,
        ));
    }
    out
}

proof fn lemma_slash_pos_none(x: Seq<char>)
    requires
        !x.contains('/'),
    ensures
        slash_pos(x) == x.len(),
{
    crate::text::lemma_char_pos(x, '/');
    if slash_pos(x) < x.len() {
        assert(x[slash_pos(x)] == '/');
    }
}

proof fn lemma_slash_pos_at(x: Seq<char>, y: Seq<char>)
    requires
        !x.contains('/'),
    ensures
        slash_pos(x + "/"@ + y) == x.len(),
{
    reveal_strlit("/");
    let s = x + "/"@ + y;
    crate::text::lemma_char_pos(s, '/');
    assert(s[x.len() as int] == '/');
    if slash_pos(s) < x.len() {
        assert(s[slash_pos(s)] == x[slash_pos(s)]);
    }
}

/// A container is made of at most two path segments: it holds at most one
/// `/`.
pub proof fn lemma_container_at_most_one_slash(path: Seq<char>)
    ensures
        forall|i: int, j: int|
            0 <= i < j < container_of(path).len() && container_of(path)[i] == '/' ==> container_of(path)[j] != '/',
{
    reveal_strlit("/");
    let p1 = slash_pos(path);
    crate::text::lemma_char_pos(path, '/');
    if p1 < path.len() {
        let rest = path.skip(p1 + 1);
        let p2 = slash_pos(rest);
        crate::text::lemma_char_pos(rest, '/');
        if p2 < rest.len() {
            let tail = rest.skip(p2 + 1);
            crate::text::lemma_char_pos(tail, '/');
            let r = container_of(path);
            assert(r == rest.take(p2) + "/"@ + tail.take(slash_pos(tail)));
            assert forall|i: int, j: int| 0 <= i < j < r.len() && r[i] == '/' implies r[j] != '/' by {
                if i < p2 {
                    assert(r[i] == rest[i]);
                } else if i > p2 {
                    assert(r[i] == tail[i - p2 - 1]);
                } else {
                    assert(r[j] == tail[j - p2 - 1]);
                }
            }
        } else {
            assert forall|i: int| 0 <= i < rest.len() implies rest[i] != '/' by {}
        }
    }
}

/// The container of `a/b/c/...` is `b/c`, that of `a/b/c` is `b/c`, that
/// of `a/b` is `b`, and a single segment has none: the second and third
/// segments of the path, joined by `/`.
pub proof fn lemma_container_segments(a: Seq<char>, b: Seq<char>, c: Seq<char>, rest: Seq<char>)
    requires
        !a.contains('/'),
        !b.contains('/'),
        !c.contains('/'),
    ensures
        container_of(a + "/"@ + b + "/"@ + c + "/"@ + rest) == b + "/"@ + c,
        container_of(a + "/"@ + b + "/"@ + c) == b + "/"@ + c,
        container_of(a + "/"@ + b) == b,
        container_of(a) == Seq::<char>::empty(),
{
    reveal_strlit("/");
    lemma_slash_pos_none(a);
    lemma_slash_pos_none(b);
    lemma_slash_pos_none(c);
    // a/b/c/rest
    let p = a + "/"@ + b + "/"@ + c + "/"@ + rest;
    assert(p =~= a + "/"@ + (b + "/"@ + c + "/"@ + rest));
    lemma_slash_pos_at(a, b + "/"@ + c + "/"@ + rest);
    let r1 = p.skip(a.len() as int + 1);
    assert(r1 =~= b + "/"@ + (c + "/"@ + rest));
    lemma_slash_pos_at(b, c + "/"@ + rest);
    let t1 = r1.skip(b.len() as int + 1);
    assert(t1 =~= c + "/"@ + rest);
    lemma_slash_pos_at(c, rest);
    assert(r1.take(b.len() as int) =~= b);
    assert(t1.take(c.len() as int) =~= c);
    // a/b/c
    let q = a + "/"@ + b + "/"@ + c;
    assert(q =~= a + "/"@ + (b + "/"@ + c));
    lemma_slash_pos_at(a, b + "/"@ + c);
    let r2 = q.skip(a.len() as int + 1);
    assert(r2 =~= b + "/"@ + c);
    lemma_slash_pos_at(b, c);
    let t2 = r2.skip(b.len() as int + 1);
    assert(t2 =~= c);
    assert(r2.take(b.len() as int) =~= b);
    assert(t2.take(c.len() as int) =~= c);
    // a/b
    let u = a + "/"@ + b;
    lemma_slash_pos_at(a, b);
    assert(u.skip(a.len() as int + 1) =~= b);
}

fn slash_pos_exec(cs: &Vec<char>, from: usize) -> (r: usize)
    requires
        from <= cs@.len(),
    ensures
        r == from + slash_pos(cs@.skip(from as int)),
        from <= r,
        r <= cs@.len(),
{
    proof {
        crate::text::lemma_char_pos(cs@.skip(from as int), '/');
    }
    let mut i = from;
    while i < cs.len() && cs[i] != '/'
        invariant
            from <= i <= cs@.len(),
            forall|k: int| from <= k < i ==> cs@[k] != '/',
        decreases cs@.len() - i,
    {
        i = i + 1;
    }
    proof {
        let s = cs@.skip(from as int);
        let b = slash_pos(s);
        if b < i - from {
            assert(s[b] == cs@[from + b]);
        }
        if i - from < b {
            assert(s[i - from] == cs@[i as int]);
        }
    }
    i
}

fn push_range(r: &mut String, cs: &Vec<char>, from: usize, to: usize)
    requires
        from <= to <= cs@.len(),
    ensures
        final(r)@ == old(r)@ + cs@.subrange(from as int, to as int),
{
    let ghost head = r@;
    let mut k = from;
    while k < to
        invariant
            from <= k <= to,
            to <= cs@.len(),
            r@ == head + cs@.subrange(from as int, k as int),
        decreases to - k,
    {
        push_char(r, cs[k]);
        assert(cs@.subrange(from as int, k + 1) =~= cs@.subrange(from as int, k as int).push(cs@[k as int]));
        k = k + 1;
    }
}

fn container_exec(path: &str) -> (r: String)
    ensures
        r@ == container_of(path@),
{
    let cs = crate::text::chars_of(path);
    let p1 = slash_pos_exec(&cs, 0);
    assert(cs@.skip(0) =~= cs@);
    if p1 >= cs.len() {
        return String::new();
    }
    let p2 = slash_pos_exec(&cs, p1 + 1);
    let mut r = String::new();
    push_range(&mut r, &cs, p1 + 1, p2);
    let ghost rest = cs@.skip(p1 + 1);
    if p2 >= cs.len() {
        assert(rest =~= cs@.subrange(p1 + 1, p2 as int));
        return r;
    }
    proof {
        reveal_strlit("/");
    }
    push_char(&mut r, '/');
    let p3 = slash_pos_exec(&cs, p2 + 1);
    push_range(&mut r, &cs, p2 + 1, p3);
    proof {
        let q = (p2 - p1 - 1) as int;
        assert(slash_pos(rest) == q);
        let tail = rest.skip(q + 1);
        assert(tail =~= cs@.skip(p2 + 1));
        assert(rest.take(q) =~= cs@.subrange(p1 + 1, p2 as int));
        assert(tail.take(slash_pos(tail)) =~= cs@.subrange(p2 + 1, p3 as int));
        assert(r@ =~= rest.take(q) + "/"@ + tail.take(slash_pos(tail)));
    }
    r
}

/// The distinct non-empty containers of the node paths, in order of first
/// appearance, at most twenty.
fn containers_exec(nodes: &Vec<SnapshotNode>) -> (r: Vec<String>)
    ensures
        distinct_views(r@),
        r@.len() <= 20,
        forall|k: int| 0 <= k < r@.len() ==> named_container(nodes@, (#[trigger] r@[k])@),
        r@.len() < 20 ==> forall|i: int|
            0 <= i < nodes@.len() && container_of((#[trigger] nodes@[i]).path@).len() > 0 ==> lists(r@, container_of(nodes@[i].path@)),
{
    let mut out: Vec<String> = Vec::new();
    let mut k: usize = 0;
    while k < nodes.len() && out.len() < 20
        invariant
            k <= nodes@.len(),
            out@.len() <= 20,
            distinct_views(out@),
            forall|q: int| 0 <= q < out@.len() ==> named_container(nodes@, (#[trigger] out@[q])@),
            forall|i: int|
                0 <= i < k && container_of((#[trigger] nodes@[i]).path@).len() > 0 ==> lists(out@, container_of(nodes@[i].path@)),
        decreases nodes@.len() - k,
    {
        let c = container_exec(nodes[k].path.as_str());
        let ghost before = out@;
        if !c.as_str().is_empty() {
            match find_id(&out, &c) {
                Some(j) => {
                    proof {
                        assert(out@[j as int]@ == c@);
                    }
                },
                None => {
                    out.push(c);
                    proof {
                        assert(out@[out@.len() - 1]@ == container_of(nodes@[k as int].path@));
                        assert forall|a: int, b: int| 0 <= a < out@.len() && 0 <= b < out@.len() && a != b implies (#[trigger] out@[a])@
                            != (#[trigger] out@[b])@ by {
                            if a < before.len() && b < before.len() {
                                assert(out@[a] == before[a] && out@[b] == before[b]);
                            } else if a < before.len() {
                                assert(out@[a] == before[a]);
                            } else if b < before.len() {
                                assert(out@[b] == before[b]);
                            }
                        }
                        assert forall|q: int| 0 <= q < out@.len() implies named_container(nodes@, (#[trigger] out@[q])@) by {
                            if q < before.len() {
                                assert(out@[q] == before[q]);
                            } else {
                                assert(container_of(nodes@[k as int].path@) == out@[q]@);
                            }
                        }
                    }
                },
            }
        }
        proof {
            assert forall|i: int|
                0 <= i < k + 1 && container_of((#[trigger] nodes@[i]).path@).len() > 0 implies lists(
                out@,
                container_of(nodes@[i].path@),
            ) by {
                crate::text::lemma_lists_push(before, c, container_of(nodes@[i].path@));
                if i == k {
                    assert(c@ == container_of(nodes@[i].path@));
                }
            }
        }
        k = k + 1;
    }
    out
}

/// The C4 view of a project at `level` (1: systems, 2: containers), from
/// the nodes of its latest snapshot; an error for other levels.
pub fn c4_view_from(level: u8, nodes: Option<&Vec<SnapshotNode>>) -> (r: Result<C4View, String>)
    ensures
        !(level == 1 || level == 2) ==> (r matches Err(m) && m@ == "level must be 1 or 2"@),
        (level == 1 || level == 2) ==> (r matches Ok(v) && match nodes {
            None => missing_snapshot_view(level, v),
            Some(ns) => if level == 1 { system_view(ns@, v) } else { container_view(ns@, v) },
        }),
{
    if !(level == 1 || level == 2) {
        return Err("level must be 1 or 2".to_owned());
    }
    match nodes {
        None => {
            let systems = if level == 1 { Some(single("CodeAtlas Application")) } else { None };
            let containers = if level == 2 { Some(single("No snapshot data available")) } else { None };
            Ok(
                C4View {
                    level,
                    systems,
                    containers,
                    warning: Some("No snapshot found for this project. Create a snapshot first.".to_owned()),
                },
            )
        },
        Some(ns) => {
            if level == 1 {
                let systems = system_labels_exec(ns);
                if systems.len() == 0 {
                    Ok(
                        C4View {
                            level: 1,
                            systems: Some(single("CodeAtlas Application")),
                            containers: None,
                            warning: Some("Limited data for C4 L1; showing system placeholder.".to_owned()),
                        },
                    )
                } else {
                    Ok(C4View { level: 1, systems: Some(systems), containers: None, warning: None })
                }
            } else {
                let cs = containers_exec(ns);
                if cs.len() == 0 {
                    proof {
                        assert forall|i: int| 0 <= i < ns@.len() implies container_of((#[trigger] ns@[i]).path@).len() == 0 by {
                            if container_of(ns@[i].path@).len() > 0 {
                                assert(lists(cs@, container_of(ns@[i].path@)));
                            }
                        }
                    }
                    Ok(C4View { level: 2, systems: None, containers: Some(single("No container data available")), warning: None })
                } else {
                    proof {
                        assert(named_container(ns@, cs@[0]@));
                        let w = choose|w: int| 0 <= w < ns@.len() && container_of((#[trigger] ns@[w]).path@) == cs@[0]@;
                        assert(container_of(ns@[w].path@).len() > 0);
                    }
                    Ok(C4View { level: 2, systems: None, containers: Some(cs), warning: None })
                }
            }
        },
    }
}

/// The distinct strings of `a` that `b` does not list, in order of first
/// appearance.
pub fn set_difference(a: &Vec<String>, b: &Vec<String>) -> (r: Vec<String>)
    ensures
        distinct_views(r@),
        forall|x: Seq<char>| lists(r@, x) <==> (lists(a@, x) && !lists(b@, x)),
{
    let mut out: Vec<String> = Vec::new();
    let mut k: usize = 0;
    while k < a.len()
        invariant
            k <= a@.len(),
            distinct_views(out@),
            forall|x: Seq<char>| lists(out@, x) <==> (lists(a@.take(k as int), x) && !lists(b@, x)),
        decreases a@.len() - k,
    {
        let ghost before = out@;
        let x = &a[k];
        let in_b = find_id(b, x).is_some();
        let seen = find_id(&out, x).is_some();
        if !in_b && !seen {
            out.push(x.clone());
        }
        proof {
            assert forall|y: Seq<char>| lists(out@, y) <==> (lists(a@.take(k + 1), y) && !lists(b@, y)) by {
                crate::text::lemma_lists_take_next(a@, k as int, y);
                crate::text::lemma_lists_push(before, *x, y);
                assert(a@[k as int] == *x);
                if y == x@ && lists(b@, y) {
                    let w = choose|w: int| 0 <= w < b@.len() && (#[trigger] b@[w])@ == y;
                    assert(b@[w]@ == x@);
                }
                if y == x@ && lists(before, y) {
                    let w = choose|w: int| 0 <= w < before.len() && (#[trigger] before[w])@ == y;
                    assert(before[w]@ == x@);
                }
            }
            if !in_b && !seen {
                assert forall|p: int, q: int| 0 <= p < out@.len() && 0 <= q < out@.len() && p != q implies (#[trigger] out@[p])@
                    != (#[trigger] out@[q])@ by {
                    if p < before.len() && q < before.len() {
                        assert(out@[p] == before[p] && out@[q] == before[q]);
                    } else if p < before.len() {
                        assert(out@[p] == before[p]);
                    } else if q < before.len() {
                        assert(out@[q] == before[q]);
                    }
                }
            }
        }
        k = k + 1;
    }
    assert(a@.take(k as int) =~= a@);
    out
}


/// `r` lists, once each, exactly the strings that `a` lists and `b` does
/// not.
pub open spec fn is_difference(r: Seq<String>, a: Seq<String>, b: Seq<String>) -> bool {
    &&& distinct_views(r)
    &&& forall|x: Seq<char>| lists(r, x) <==> (lists(a, x) && !lists(b, x))
}

/// The node ids and edges stored in a snapshot.
#[derive(Debug, Clone)]
pub struct SnapshotSets {
    pub node_ids: Vec<String>,
    pub edges: Vec<String>,
}

/// What changed from one snapshot to another.
#[derive(Debug, Clone)]
pub struct SnapshotSetDiff {
    pub nodes_added: Vec<String>,
    pub nodes_removed: Vec<String>,
    pub edges_added: Vec<String>,
    pub edges_removed: Vec<String>,
}

/// Compares two snapshots: when both are known, the node ids and edges that
/// `target` has and `base` has not (added) and the other way round
/// (removed); when either is unknown, nothing changed.
pub fn diff_snapshots(base: Option<SnapshotSets>, target: Option<SnapshotSets>) -> (r: SnapshotSetDiff)
    ensures
        match (base, target) {
            (Some(b), Some(t)) => {
                &&& is_difference(r.nodes_added@, t.node_ids@, b.node_ids@)
                &&& is_difference(r.nodes_removed@, b.node_ids@, t.node_ids@)
                &&& is_difference(r.edges_added@, t.edges@, b.edges@)
                &&& is_difference(r.edges_removed@, b.edges@, t.edges@)
            },
            _ => r.nodes_added@.len() == 0 && r.nodes_removed@.len() == 0 && r.edges_added@.len() == 0
                && r.edges_removed@.len() == 0,
        },
{
    match (base, target) {
        (Some(b), Some(t)) => SnapshotSetDiff {
            nodes_added: set_difference(&t.node_ids, &b.node_ids),
            nodes_removed: set_difference(&b.node_ids, &t.node_ids),
            edges_added: set_difference(&t.edges, &b.edges),
            edges_removed: set_difference(&b.edges, &t.edges),
        },
        _ => SnapshotSetDiff { nodes_added: Vec::new(), nodes_removed: Vec::new(), edges_added: Vec::new(), edges_removed: Vec::new() },
    }
}

} // verus!
