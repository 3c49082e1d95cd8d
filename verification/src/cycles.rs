//! Cycle detection over an import graph with Tarjan's strongly connected
//! components algorithm: every component with more than one node is reported
//! as a cycle.

use vstd::prelude::*;

verus! {

/// A detected cycle in the dependency graph.
#[derive(Debug, Clone)]
pub struct Cycle {
    /// Node IDs forming the cycle.
    pub nodes: Vec<String>,
    /// Number of nodes in the cycle.
    pub length: usize,
}

/// Stops a long computation once a time budget is spent.
pub trait Deadline {
    /// The deadline can never be reached.
    spec fn never_expires(&self) -> bool;

    /// Whether the deadline has been reached.
    fn expired(&self) -> (r: bool)
        ensures
            self.never_expires() ==> !r,
    ;
}

/// A deadline that is never reached.
pub struct NoDeadline;

impl Deadline for NoDeadline {
    open spec fn never_expires(&self) -> bool {
        true
    }

    fn expired(&self) -> (r: bool) {
        false
    }
}

/// std's `Instant` order (`a > b`): whether `a` is later than `b`; it
/// depends on instants read from the clock, so nothing is stated of it.
#[verifier::external_body]
fn instant_later(a: &std::time::Instant, b: &std::time::Instant) -> bool {
    *a > *b
}

/// A deadline at an instant of the monotonic clock.
pub struct InstantDeadline {
    at: std::time::Instant,
}

impl InstantDeadline {
    /// The deadline at instant `at`.
    pub fn new(at: std::time::Instant) -> (r: Self)
        ensures
            r.instant() == at,
    {
        InstantDeadline { at }
    }

    /// The instant of the deadline, as a spec value.
    pub closed spec fn instant(&self) -> std::time::Instant {
        self.at
    }
}

impl Deadline for InstantDeadline {
    open spec fn never_expires(&self) -> bool {
        false
    }

    fn expired(&self) -> (r: bool) {
        let now = crate::ports::instant_now();
        instant_later(&now, &self.at)
    }
}

/// Maximum number of cycles after which the search stops descending.
pub const MAX_CYCLES: usize = 50;

/// Each recorded component is whole: it holds every node that reaches one
/// of its members and is reached from it.
pub open spec fn cycles_whole(adj: Seq<Vec<usize>>, cycles: Seq<Vec<usize>>) -> bool {
    forall|c: int, x: int, y: usize|
        0 <= c < cycles.len() && 0 <= x < cycles[c]@.len() && y < adj.len() && #[trigger] mutual(adj, cycles[c]@[x], y)
            ==> cycles[c]@.contains(y)
}

/// The members of each recorded component reach one another.
pub open spec fn cycles_reach(adj: Seq<Vec<usize>>, cycles: Seq<Vec<usize>>) -> bool {
    forall|c: int, x: int, y: int|
        0 <= c < cycles.len() && 0 <= x < cycles[c]@.len() && 0 <= y < cycles[c]@.len() ==> reaches(
            adj,
            #[trigger] cycles[c]@[x],
            #[trigger] cycles[c]@[y],
        )
}

/// Number of nodes that have not been given a discovery index yet.
pub open spec fn num_unvisited(s: Seq<Option<usize>>) -> nat
    decreases s.len(),
{
    if s.len() == 0 {
        0
    } else {
        num_unvisited(s.drop_last()) + if s.last() is None { 1nat } else { 0nat }
    }
}

/// `b` keeps every index that `a` has assigned.
pub open spec fn keeps_indices(a: Seq<Option<usize>>, b: Seq<Option<usize>>) -> bool {
    &&& a.len() == b.len()
    &&& forall|v: int| 0 <= v < a.len() && (#[trigger] a[v]) is Some ==> b[v] == a[v]
}

proof fn lemma_num_unvisited_le(s: Seq<Option<usize>>)
    ensures
        num_unvisited(s) <= s.len(),
    decreases s.len(),
{
    if s.len() > 0 {
        lemma_num_unvisited_le(s.drop_last());
    }
}

proof fn lemma_num_unvisited_mono(a: Seq<Option<usize>>, b: Seq<Option<usize>>)
    requires
        keeps_indices(a, b),
    ensures
        num_unvisited(b) <= num_unvisited(a),
        forall|j: int| 0 <= j < a.len() && a[j] is None && b[j] is Some ==> num_unvisited(b) < num_unvisited(a),
    decreases a.len(),
{
    if a.len() > 0 {
        let a1 = a.drop_last();
        let b1 = b.drop_last();
        assert(keeps_indices(a1, b1)) by {
            assert forall|v: int| 0 <= v < a1.len() && (#[trigger] a1[v]) is Some implies b1[v] == a1[v] by {
                assert(a[v] == a1[v]);
            }
        }
        lemma_num_unvisited_mono(a1, b1);
        assert forall|j: int| 0 <= j < a.len() && a[j] is None && b[j] is Some implies num_unvisited(b) < num_unvisited(a) by {
            if j < a.len() - 1 {
                assert(a1[j] is None && b1[j] is Some);
            }
        }
    }
}

proof fn lemma_num_unvisited_set(a: Seq<Option<usize>>, j: int, x: usize)
    requires
        0 <= j < a.len(),
        a[j] is None,
    ensures
        num_unvisited(a.update(j, Some(x))) + 1 == num_unvisited(a),
    decreases a.len(),
{
    let b = a.update(j, Some(x));
    if j == a.len() - 1 {
        assert(b.drop_last() =~= a.drop_last());
    } else {
        assert(b.drop_last() =~= a.drop_last().update(j, Some(x)));
        lemma_num_unvisited_set(a.drop_last(), j, x);
    }
}

// ── Reachability ────────────────────────────────────────────────────────────

/// Step `i` of `p` goes from a node to one of its successors.
pub open spec fn walk_step(adj: Seq<Vec<usize>>, p: Seq<usize>, i: int) -> bool {
    p[i] < adj.len() && adj[p[i] as int]@.contains(p[i + 1])
}

/// `p` is a non-empty walk along the adjacency lists.
pub open spec fn is_walk(adj: Seq<Vec<usize>>, p: Seq<usize>) -> bool {
    p.len() > 0 && forall|i: int| 0 <= i < p.len() - 1 ==> #[trigger] walk_step(adj, p, i)
}

/// `b` can be reached from `a` along the adjacency lists (in zero or more
/// steps).
pub open spec fn reaches(adj: Seq<Vec<usize>>, a: usize, b: usize) -> bool {
    exists|p: Seq<usize>| #[trigger] is_walk(adj, p) && p[0] == a && p.last() == b
}

proof fn lemma_reaches_refl(adj: Seq<Vec<usize>>, a: usize)
    ensures
        reaches(adj, a, a),
{
    let p = seq![a];
    assert(is_walk(adj, p));
}

proof fn lemma_reaches_step(adj: Seq<Vec<usize>>, a: usize, b: usize, c: usize)
    requires
        reaches(adj, a, b),
        b < adj.len(),
        adj[b as int]@.contains(c),
    ensures
        reaches(adj, a, c),
{
    let p = choose|p: Seq<usize>| #[trigger] is_walk(adj, p) && p[0] == a && p.last() == b;
    let q = p.push(c);
    assert forall|i: int| 0 <= i < q.len() - 1 implies #[trigger] walk_step(adj, q, i) by {
        if i < p.len() - 1 {
            assert(walk_step(adj, p, i));
            assert(q[i] == p[i] && q[i + 1] == p[i + 1]);
        } else {
            assert(q[i] == b && q[i + 1] == c);
        }
    }
    assert(is_walk(adj, q));
}

proof fn lemma_reaches_walk(adj: Seq<Vec<usize>>, a: usize, p: Seq<usize>)
    requires
        is_walk(adj, p),
        reaches(adj, a, p[0]),
    ensures
        reaches(adj, a, p.last()),
    decreases p.len(),
{
    if p.len() > 1 {
        let q = p.drop_last();
        assert forall|i: int| 0 <= i < q.len() - 1 implies #[trigger] walk_step(adj, q, i) by {
            assert(walk_step(adj, p, i));
        }
        assert(is_walk(adj, q));
        lemma_reaches_walk(adj, a, q);
        assert(walk_step(adj, p, p.len() - 2));
        lemma_reaches_step(adj, a, q.last(), p.last());
    }
}

proof fn lemma_reaches_trans(adj: Seq<Vec<usize>>, a: usize, b: usize, c: usize)
    requires
        reaches(adj, a, b),
        reaches(adj, b, c),
    ensures
        reaches(adj, a, c),
{
    let p = choose|p: Seq<usize>| #[trigger] is_walk(adj, p) && p[0] == b && p.last() == c;
    lemma_reaches_walk(adj, a, p);
}

/// Mutable state of the search.
pub struct TarjanState {
    /// Discovery index of each node, if visited.
    pub index: Vec<Option<usize>>,
    /// Low-link of each node.
    pub low: Vec<usize>,
    /// Whether each node is on the stack.
    pub on_stack: Vec<bool>,
    /// The stack of nodes of open components.
    pub stack: Vec<usize>,
    /// Next discovery index.
    pub counter: usize,
    /// Components with more than one node found so far.
    pub cycles: Vec<Vec<usize>>,
}

/// Every adjacency target is a node.
pub open spec fn adjacency_ok(adj: Seq<Vec<usize>>) -> bool {
    forall|u: int, k: int| 0 <= u < adj.len() && 0 <= k < adj[u]@.len() ==> (#[trigger] adj[u]@[k]) < adj.len()
}

impl TarjanState {
    /// Structural invariant of the search over `n` nodes.
    pub open spec fn wf(&self, n: nat) -> bool {
        &&& self.index@.len() == n
        &&& self.low@.len() == n
        &&& self.on_stack@.len() == n
        &&& self.counter + num_unvisited(self.index@) == n
        &&& self.stack@.no_duplicates()
        &&& forall|i: int| 0 <= i < self.stack@.len() ==> (#[trigger] self.stack@[i]) < n
        &&& forall|i: int| 0 <= i < self.stack@.len() ==> self.index@[#[trigger] self.stack@[i] as int] is Some
        &&& forall|v: int| 0 <= v < n ==> (#[trigger] self.on_stack@[v] <==> self.stack@.contains(v as usize))
        &&& self.cycles_ok(n)
    }

    /// The components found so far have at least two nodes each, no node
    /// twice, no node in common, and none of their nodes is on the stack.
    pub open spec fn cycles_ok(&self, n: nat) -> bool {
        &&& forall|k: int| 0 <= k < self.cycles@.len() ==> (#[trigger] self.cycles@[k])@.len() >= 2
        &&& forall|k: int| 0 <= k < self.cycles@.len() ==> (#[trigger] self.cycles@[k])@.no_duplicates()
        &&& forall|k: int, i: int| 0 <= k < self.cycles@.len() && 0 <= i < self.cycles@[k]@.len()
            ==> (#[trigger] self.cycles@[k]@[i]) < n
        &&& forall|k: int, i: int| 0 <= k < self.cycles@.len() && 0 <= i < self.cycles@[k]@.len()
            ==> !self.on_stack@[#[trigger] self.cycles@[k]@[i] as int]
        &&& forall|k: int, i: int| 0 <= k < self.cycles@.len() && 0 <= i < self.cycles@[k]@.len()
            ==> self.index@[#[trigger] self.cycles@[k]@[i] as int] is Some
        &&& forall|k1: int, k2: int| 0 <= k1 < self.cycles@.len() && 0 <= k2 < self.cycles@.len() && k1 != k2
            ==> (#[trigger] self.cycles@[k1])@.disjoint((#[trigger] self.cycles@[k2])@)
    }
}

impl TarjanState {
    /// Discovery index of `v`, or -1 while it is not visited.
    pub open spec fn disc(&self, v: usize) -> int {
        match self.index@[v as int] {
            Some(x) => x as int,
            None => -1,
        }
    }

    /// The low-link of the node at stack position `i` is the discovery
    /// index of the node at position `j`, at or below `i`, which it reaches.
    pub open spec fn low_witness(&self, adj: Seq<Vec<usize>>, i: int, j: int) -> bool {
        &&& 0 <= j <= i
        &&& self.disc(self.stack@[j]) == self.low@[self.stack@[i] as int]
        &&& reaches(adj, self.stack@[i], self.stack@[j])
    }

    /// The node at stack position `i` has a low-link witness.
    pub open spec fn has_low_witness(&self, adj: Seq<Vec<usize>>, i: int) -> bool {
        exists|j: int| #[trigger] self.low_witness(adj, i, j)
    }

    /// What the search knows about reachability, with `active` the nodes
    /// whose visit is in progress, outermost first: discovery indices are
    /// below the counter and increase along the stack; each stack node
    /// reaches the node whose index is its low-link, lower on the stack; an
    /// active node reaches every stack node discovered after it; every stack
    /// node reaches the innermost active node; and the nodes of each
    /// component found reach each other.
    pub open spec fn sound(&self, adj: Seq<Vec<usize>>, active: Seq<usize>) -> bool {
        &&& forall|v: int| 0 <= v < self.index@.len() && (#[trigger] self.index@[v]) is Some ==> self.index@[v]->0 < self.counter
        &&& forall|i: int, j: int|
            0 <= i < j < self.stack@.len() ==> self.disc(#[trigger] self.stack@[i]) < self.disc(#[trigger] self.stack@[j])
        &&& forall|i: int| 0 <= i < self.stack@.len() ==> self.low@[#[trigger] self.stack@[i] as int] <= self.disc(self.stack@[i])
        &&& forall|i: int| 0 <= i < self.stack@.len() ==> #[trigger] self.has_low_witness(adj, i)
        &&& forall|k: int| 0 <= k < active.len() ==> self.stack@.contains(#[trigger] active[k])
        &&& forall|k1: int, k2: int| 0 <= k1 < k2 < active.len() ==> self.disc(#[trigger] active[k1]) < self.disc(#[trigger] active[k2])
        &&& forall|k: int, i: int|
            0 <= k < active.len() && 0 <= i < self.stack@.len() && self.disc(active[k]) <= self.disc(self.stack@[i]) ==> reaches(
                adj,
                #[trigger] active[k],
                #[trigger] self.stack@[i],
            )
        &&& active.len() > 0 ==> forall|i: int| 0 <= i < self.stack@.len() ==> reaches(adj, #[trigger] self.stack@[i], active.last())
        &&& active.len() == 0 ==> self.stack@.len() == 0
        &&& forall|c: int, x: int, y: int|
            0 <= c < self.cycles@.len() && 0 <= x < self.cycles@[c]@.len() && 0 <= y < self.cycles@[c]@.len() ==> reaches(
                adj,
                #[trigger] self.cycles@[c]@[x],
                #[trigger] self.cycles@[c]@[y],
            )
    }
}

/// Visiting `node` from the innermost active node keeps the search sound,
/// with `node` as the new innermost active node.
proof fn lemma_sound_visit(s0: TarjanState, s1: TarjanState, adj: Seq<Vec<usize>>, active: Seq<usize>, node: usize)
    requires
        s0.wf(adj.len()),
        s0.sound(adj, active),
        node < adj.len(),
        s0.index@[node as int] is None,
        active.len() > 0 ==> active.last() < adj.len() && adj[active.last() as int]@.contains(node),
        s1.index@ == s0.index@.update(node as int, Some(s0.counter)),
        s1.low@ == s0.low@.update(node as int, s0.counter),
        s1.counter == s0.counter + 1,
        s1.stack@ == s0.stack@.push(node),
        s1.cycles@ == s0.cycles@,
    ensures
        s1.sound(adj, active.push(node)),
{
    let n = adj.len();
    let p = s0.stack@.len() as int;
    let act = active.push(node);
    assert forall|i: int| 0 <= i < p implies s0.stack@[i] != node && #[trigger] s1.stack@[i] == s0.stack@[i]
        && s1.disc(s0.stack@[i]) == s0.disc(s0.stack@[i]) && s1.low@[s0.stack@[i] as int] == s0.low@[s0.stack@[i] as int] by {
        assert(s0.index@[s0.stack@[i] as int] is Some);
    }
    assert(s1.stack@[p] == node);
    assert(s1.disc(node) == s0.counter);
    assert forall|k: int| 0 <= k < active.len() implies s0.stack@.contains(#[trigger] active[k]) && active[k] != node
        && s1.disc(active[k]) == s0.disc(active[k]) by {
        let i = choose|i: int| 0 <= i < s0.stack@.len() && s0.stack@[i] == active[k];
        assert(s1.stack@[i] == s0.stack@[i]);
    }
    // indices below the counter
    assert forall|v: int| 0 <= v < s1.index@.len() && (#[trigger] s1.index@[v]) is Some implies s1.index@[v]->0 < s1.counter by {
        if v != node as int {
            assert(s0.index@[v] == s1.index@[v]);
        }
    }
    // stack order
    assert forall|i: int, j: int| 0 <= i < j < s1.stack@.len() implies s1.disc(#[trigger] s1.stack@[i]) < s1.disc(
        #[trigger] s1.stack@[j],
    ) by {
        if j < p {
            assert(s0.disc(s0.stack@[i]) < s0.disc(s0.stack@[j]));
        } else {
            assert(s0.index@[s0.stack@[i] as int] is Some);
        }
    }
    // low-links
    assert forall|i: int| 0 <= i < s1.stack@.len() implies s1.low@[#[trigger] s1.stack@[i] as int] <= s1.disc(s1.stack@[i]) by {
        if i < p {
            assert(s0.low@[s0.stack@[i] as int] <= s0.disc(s0.stack@[i]));
        }
    }
    assert forall|i: int| 0 <= i < s1.stack@.len() implies #[trigger] s1.has_low_witness(adj, i) by {
        if i < p {
            assert(s0.has_low_witness(adj, i));
            let j = choose|j: int| #[trigger] s0.low_witness(adj, i, j);
            assert(s1.stack@[j] == s0.stack@[j]);
            assert(s1.low_witness(adj, i, j));
        } else {
            lemma_reaches_refl(adj, node);
            assert(s1.low_witness(adj, i, i));
        }
    }
    // active nodes
    assert forall|k: int| 0 <= k < act.len() implies s1.stack@.contains(#[trigger] act[k]) by {
        if k < active.len() {
            let i = choose|i: int| 0 <= i < s0.stack@.len() && s0.stack@[i] == active[k];
            assert(s1.stack@[i] == act[k]);
        } else {
            assert(s1.stack@[p] == act[k]);
        }
    }
    assert forall|k1: int, k2: int| 0 <= k1 < k2 < act.len() implies s1.disc(#[trigger] act[k1]) < s1.disc(#[trigger] act[k2]) by {
        assert(act[k1] == active[k1]);
        if k2 < active.len() {
            assert(act[k2] == active[k2]);
            assert(s0.disc(active[k1]) < s0.disc(active[k2]));
        } else {
            assert(s0.index@[active[k1] as int] is Some) by {
                let i = choose|i: int| 0 <= i < s0.stack@.len() && s0.stack@[i] == active[k1];
            }
        }
    }
    // an active node reaches every stack node discovered after it
    assert forall|k: int, i: int|
        0 <= k < act.len() && 0 <= i < s1.stack@.len() && s1.disc(act[k]) <= s1.disc(s1.stack@[i]) implies reaches(
        adj,
        #[trigger] act[k],
        #[trigger] s1.stack@[i],
    ) by {
        if k == active.len() {
            if i < p {
                assert(s0.index@[s0.stack@[i] as int] is Some);
            } else {
                lemma_reaches_refl(adj, node);
            }
        } else {
            assert(act[k] == active[k]);
            if i < p {
                assert(reaches(adj, active[k], s0.stack@[i]));
            } else {
                let t = active.last();
                let it = choose|it: int| 0 <= it < s0.stack@.len() && s0.stack@[it] == t;
                if k < active.len() - 1 {
                    assert(s0.disc(active[k]) < s0.disc(active[active.len() - 1]));
                }
                assert(reaches(adj, active[k], s0.stack@[it]));
                lemma_reaches_step(adj, active[k], t, node);
            }
        }
    }
    // every stack node reaches the new innermost node
    assert forall|i: int| 0 <= i < s1.stack@.len() implies reaches(adj, #[trigger] s1.stack@[i], act.last()) by {
        if i < p {
            assert(active.len() > 0);
            assert(reaches(adj, s0.stack@[i], active.last()));
            lemma_reaches_step(adj, s0.stack@[i], active.last(), node);
        } else {
            lemma_reaches_refl(adj, node);
        }
    }
}

proof fn lemma_prefix_index(a: Seq<usize>, b: Seq<usize>)
    requires
        a.is_prefix_of(b),
    ensures
        forall|i: int| 0 <= i < a.len() ==> #[trigger] b[i] == a[i],
{
    assert forall|i: int| 0 <= i < a.len() implies #[trigger] b[i] == a[i] by {
        assert(b.subrange(0, a.len() as int)[i] == b[i]);
    }
}

/// The search goes on soundly while the deadline cannot expire and fewer
/// than `MAX_CYCLES` components were found.
pub open spec fn searching<D: Deadline>(deadline: &D, st: TarjanState) -> bool {
    deadline.never_expires() && st.cycles@.len() < MAX_CYCLES
}

/// Lowering the low-link of the stack node at position `p` to the index of
/// a node at position `j <= p` that it reaches keeps the search sound.
proof fn lemma_sound_lower(s0: TarjanState, s1: TarjanState, adj: Seq<Vec<usize>>, act: Seq<usize>, p: int, j: int)
    requires
        s0.wf(adj.len()),
        s0.sound(adj, act),
        0 <= j <= p < s0.stack@.len(),
        reaches(adj, s0.stack@[p], s0.stack@[j]),
        s1.low@ == s0.low@.update(s0.stack@[p] as int, s0.disc(s0.stack@[j]) as usize),
        s1.index@ == s0.index@,
        s1.stack@ == s0.stack@,
        s1.counter == s0.counter,
        s1.cycles@ == s0.cycles@,
    ensures
        s1.sound(adj, act),
{
    let node = s0.stack@[p];
    assert(s0.index@[s0.stack@[j] as int] is Some);
    assert(s0.disc(s0.stack@[j]) >= 0);
    if j < p {
        assert(s0.disc(s0.stack@[j]) < s0.disc(s0.stack@[p]));
    }
    assert forall|i: int| 0 <= i < s1.stack@.len() implies s1.low@[#[trigger] s1.stack@[i] as int] <= s1.disc(s1.stack@[i]) by {
        if i != p {
            assert(s0.stack@[i] != node);
            assert(s0.low@[s0.stack@[i] as int] <= s0.disc(s0.stack@[i]));
        }
    }
    assert forall|i: int| 0 <= i < s1.stack@.len() implies #[trigger] s1.has_low_witness(adj, i) by {
        if i != p {
            assert(s0.stack@[i] != node);
            assert(s0.has_low_witness(adj, i));
            let w = choose|w: int| #[trigger] s0.low_witness(adj, i, w);
            assert(s1.low_witness(adj, i, w));
        } else {
            assert(s1.low_witness(adj, i, j));
        }
    }
}

/// Leaving `node` on the stack when its low-link is below its own index
/// keeps the search sound for the enclosing active nodes.
proof fn lemma_sound_leave(s0: TarjanState, s: TarjanState, adj: Seq<Vec<usize>>, active: Seq<usize>, node: usize)
    requires
        s0.wf(adj.len()),
        s.wf(adj.len()),
        s0.sound(adj, active),
        s.sound(adj, active.push(node)),
        s0.stack@.push(node).is_prefix_of(s.stack@),
        keeps_indices(s0.index@, s.index@),
        s.low@[node as int] < s.disc(node),
    ensures
        s.sound(adj, active),
{
    let p = s0.stack@.len() as int;
    let act = active.push(node);
    lemma_prefix_index(s0.stack@.push(node), s.stack@);
    assert(s0.stack@.push(node)[p] == node);
    assert(s.stack@[p] == node);
    assert forall|i: int| 0 <= i < p implies #[trigger] s.stack@[i] == s0.stack@[i] && s.disc(s0.stack@[i]) == s0.disc(
        s0.stack@[i],
    ) by {
        assert(s0.stack@.push(node)[i] == s0.stack@[i]);
        assert(s0.index@[s0.stack@[i] as int] is Some);
    }
    // the node reaches a node below it, hence every enclosing active node
    assert(s.has_low_witness(adj, p));
    let j = choose|j: int| #[trigger] s.low_witness(adj, p, j);
    assert(j < p) by {
        if j == p {
            assert(s.disc(s.stack@[p]) == s.low@[node as int]);
        }
    }
    assert forall|k: int| 0 <= k < active.len() implies s.stack@.contains(#[trigger] active[k]) by {
        assert(act[k] == active[k]);
    }
    assert forall|k1: int, k2: int| 0 <= k1 < k2 < active.len() implies s.disc(#[trigger] active[k1]) < s.disc(#[trigger] active[k2]) by {
        assert(act[k1] == active[k1] && act[k2] == active[k2]);
    }
    assert forall|k: int, i: int|
        0 <= k < active.len() && 0 <= i < s.stack@.len() && s.disc(active[k]) <= s.disc(s.stack@[i]) implies reaches(
        adj,
        #[trigger] active[k],
        #[trigger] s.stack@[i],
    ) by {
        assert(act[k] == active[k]);
    }
    if active.len() > 0 {
        let t = active.last();
        assert(reaches(adj, s0.stack@[j], t));
        lemma_reaches_trans(adj, node, s0.stack@[j], t);
        assert forall|i: int| 0 <= i < s.stack@.len() implies reaches(adj, #[trigger] s.stack@[i], active.last()) by {
            if i < p {
                assert(reaches(adj, s0.stack@[i], t));
            } else {
                assert(reaches(adj, s.stack@[i], act.last()));
                lemma_reaches_trans(adj, s.stack@[i], node, t);
            }
        }
    } else {
        assert(s0.stack@.len() == 0);
    }
}

/// Closing the component of `node`, which leaves the stack as it was when
/// `node` was visited, keeps the search sound for the enclosing active
/// nodes.
proof fn lemma_sound_close(s0: TarjanState, s: TarjanState, adj: Seq<Vec<usize>>, active: Seq<usize>)
    requires
        s0.wf(adj.len()),
        s0.sound(adj, active),
        s.stack@ == s0.stack@,
        keeps_indices(s0.index@, s.index@),
        forall|v: int| 0 <= v < s.index@.len() && (#[trigger] s.index@[v]) is Some ==> s.index@[v]->0 < s.counter,
        forall|v: int| 0 <= v < adj.len() && s0.index@[v] is Some ==> #[trigger] s.low@[v] == s0.low@[v],
        forall|c: int, x: int, y: int|
            0 <= c < s.cycles@.len() && 0 <= x < s.cycles@[c]@.len() && 0 <= y < s.cycles@[c]@.len() ==> reaches(
                adj,
                #[trigger] s.cycles@[c]@[x],
                #[trigger] s.cycles@[c]@[y],
            ),
    ensures
        s.sound(adj, active),
{
    assert forall|i: int| 0 <= i < s.stack@.len() implies s.disc(#[trigger] s.stack@[i]) == s0.disc(s.stack@[i])
        && s.low@[s.stack@[i] as int] == s0.low@[s.stack@[i] as int] by {
        assert(s0.index@[s0.stack@[i] as int] is Some);
    }
    assert forall|k: int| 0 <= k < active.len() implies s.disc(#[trigger] active[k]) == s0.disc(active[k]) by {
        let i = choose|i: int| 0 <= i < s0.stack@.len() && s0.stack@[i] == active[k];
        assert(s.stack@[i] == s0.stack@[i]);
    }
    assert forall|i: int| 0 <= i < s.stack@.len() implies #[trigger] s.has_low_witness(adj, i) by {
        assert(s0.has_low_witness(adj, i));
        let j = choose|j: int| #[trigger] s0.low_witness(adj, i, j);
        assert(s.low_witness(adj, i, j));
    }
}

/// An edge from `node` to `w`, with `w` on the stack, keeps the search
/// sound when the low-link of `node` (at position `p`) drops to the index of
/// `w`, if that is lower.
proof fn lemma_sound_back_edge(s0: TarjanState, s1: TarjanState, adj: Seq<Vec<usize>>, act: Seq<usize>, p: int, w: usize)
    requires
        s0.wf(adj.len()),
        s0.sound(adj, act),
        0 <= p < s0.stack@.len(),
        s0.stack@.contains(w),
        reaches(adj, s0.stack@[p], w),
        s1.low@ == s0.low@.update(
            s0.stack@[p] as int,
            if s0.low@[s0.stack@[p] as int] <= s0.disc(w) as usize { s0.low@[s0.stack@[p] as int] } else { s0.disc(w) as usize },
        ),
        s1.index@ == s0.index@,
        s1.stack@ == s0.stack@,
        s1.counter == s0.counter,
        s1.cycles@ == s0.cycles@,
    ensures
        s1.sound(adj, act),
{
    let node = s0.stack@[p];
    let pw = choose|i: int| 0 <= i < s0.stack@.len() && s0.stack@[i] == w;
    assert(s0.index@[w as int] is Some);
    assert(s0.low@[node as int] <= s0.disc(node));
    if s0.low@[node as int] <= s0.disc(w) as usize {
        assert(s1.low@ =~= s0.low@);
        assert(s1.sound(adj, act)) by {
            assert forall|i: int| 0 <= i < s1.stack@.len() implies #[trigger] s1.has_low_witness(adj, i) by {
                assert(s0.has_low_witness(adj, i));
                let j = choose|j: int| #[trigger] s0.low_witness(adj, i, j);
                assert(s1.low_witness(adj, i, j));
            }
        }
    } else {
        assert(pw < p) by {
            if pw >= p {
                if pw > p {
                    assert(s0.disc(s0.stack@[p]) < s0.disc(s0.stack@[pw]));
                }
            }
        }
        lemma_sound_lower(s0, s1, adj, act, p, pw);
    }
}

/// After the visit of a successor `w` of `node` returns, lowering the
/// low-link of `node` to that of `w` (if lower) keeps the search sound.
proof fn lemma_sound_child(s_before: TarjanState, s_mid: TarjanState, s_after: TarjanState, adj: Seq<Vec<usize>>, act: Seq<usize>, p: int, w: usize)
    requires
        s_before.wf(adj.len()),
        s_mid.wf(adj.len()),
        s_before.sound(adj, act),
        s_mid.sound(adj, act),
        0 <= p < s_before.stack@.len(),
        s_before.index@[w as int] is None,
        w < adj.len(),
        reaches(adj, s_before.stack@[p], w),
        s_mid.index@[w as int] == Some(s_before.counter),
        s_before.stack@.is_prefix_of(s_mid.stack@),
        keeps_indices(s_before.index@, s_mid.index@),
        forall|v: int| 0 <= v < adj.len() && s_before.index@[v] is Some ==> #[trigger] s_mid.low@[v] == s_before.low@[v],
        s_mid.on_stack@[w as int] ==> s_mid.stack@.len() > s_before.stack@.len() && s_mid.stack@[s_before.stack@.len() as int]
            == w && s_mid.low@[w as int] < s_mid.disc(w),
        !s_mid.on_stack@[w as int] ==> s_mid.stack@ == s_before.stack@ && s_mid.low@[w as int] == s_mid.disc(w),
        s_after.low@ == s_mid.low@.update(
            s_before.stack@[p] as int,
            if s_mid.low@[s_before.stack@[p] as int] <= s_mid.low@[w as int] { s_mid.low@[s_before.stack@[p] as int] } else {
                s_mid.low@[w as int]
            },
        ),
        s_after.index@ == s_mid.index@,
        s_after.stack@ == s_mid.stack@,
        s_after.counter == s_mid.counter,
        s_after.cycles@ == s_mid.cycles@,
    ensures
        s_after.sound(adj, act),
{
    let node = s_before.stack@[p];
    lemma_prefix_index(s_before.stack@, s_mid.stack@);
    assert(s_mid.stack@[p] == node);
    assert(s_before.index@[node as int] is Some);
    assert(s_mid.disc(node) == s_before.disc(node));
    assert(s_before.disc(node) < s_before.counter);
    assert(s_mid.low@[node as int] <= s_mid.disc(node));
    if s_mid.low@[node as int] <= s_mid.low@[w as int] {
        assert(s_after.low@ =~= s_mid.low@);
        assert forall|i: int| 0 <= i < s_after.stack@.len() implies #[trigger] s_after.has_low_witness(adj, i) by {
            assert(s_mid.has_low_witness(adj, i));
            let j = choose|j: int| #[trigger] s_mid.low_witness(adj, i, j);
            assert(s_after.low_witness(adj, i, j));
        }
    } else {
        // `w` stays on the stack: its low-link names a node below `node`
        assert(s_mid.on_stack@[w as int]);
        let pw = s_before.stack@.len() as int;
        assert(s_mid.stack@[pw] == w);
        assert(s_mid.has_low_witness(adj, pw));
        let j = choose|j: int| #[trigger] s_mid.low_witness(adj, pw, j);
        assert(j <= p) by {
            if j > p {
                assert(s_mid.disc(s_mid.stack@[p]) < s_mid.disc(s_mid.stack@[j]));
            }
        }
        lemma_reaches_trans(adj, node, w, s_mid.stack@[j]);
        lemma_sound_lower(s_mid, s_after, adj, act, p, j);
    }
}

// ── Completeness ────────────────────────────────────────────────────────────

/// `a` and `b` reach each other.
pub open spec fn mutual(adj: Seq<Vec<usize>>, a: usize, b: usize) -> bool {
    reaches(adj, a, b) && reaches(adj, b, a)
}

/// Some component in `cycles` holds both `a` and `b`.
pub open spec fn together(cycles: Seq<Vec<usize>>, a: usize, b: usize) -> bool {
    exists|c: int| 0 <= c < cycles.len() && (#[trigger] cycles[c])@.contains(a) && cycles[c]@.contains(b)
}

/// A property that passes from every node to its successors.
pub open spec fn successor_closed(adj: Seq<Vec<usize>>, keep: spec_fn(usize) -> bool) -> bool {
    forall|x: usize, k: int| x < adj.len() && 0 <= k < adj[x as int]@.len() && keep(x) ==> keep(#[trigger] adj[x as int]@[k])
}

proof fn lemma_closure_walk(adj: Seq<Vec<usize>>, keep: spec_fn(usize) -> bool, p: Seq<usize>, i: int)
    requires
        successor_closed(adj, keep),
        is_walk(adj, p),
        keep(p[0]),
        0 <= i < p.len(),
    ensures
        keep(p[i]),
    decreases i,
{
    if i > 0 {
        lemma_closure_walk(adj, keep, p, i - 1);
        assert(walk_step(adj, p, i - 1));
        let x = p[i - 1];
        let k = choose|k: int| 0 <= k < adj[x as int]@.len() && adj[x as int]@[k] == p[i];
        assert(keep(adj[x as int]@[k]));
    }
}

/// A property that passes to successors holds of every node reached.
proof fn lemma_closure(adj: Seq<Vec<usize>>, keep: spec_fn(usize) -> bool, a: usize, b: usize)
    requires
        successor_closed(adj, keep),
        keep(a),
        reaches(adj, a, b),
    ensures
        keep(b),
{
    let p = choose|p: Seq<usize>| #[trigger] is_walk(adj, p) && p[0] == a && p.last() == b;
    lemma_closure_walk(adj, keep, p, p.len() - 1);
}

impl TarjanState {
    /// `v` was visited and has left the stack with its component.
    pub open spec fn closed(&self, v: usize) -> bool {
        self.index@[v as int] is Some && !self.on_stack@[v as int]
    }

    /// The successor `y` of `x` has been handled: it is visited and, while
    /// on the stack, its index is no lower than the low-link of `x`.
    pub open spec fn edge_done(&self, x: usize, y: usize) -> bool {
        &&& self.index@[y as int] is Some
        &&& self.on_stack@[y as int] ==> self.low@[x as int] <= self.disc(y)
    }

    /// The first `m` successors of `x` have been handled.
    pub open spec fn edges_done(&self, adj: Seq<Vec<usize>>, x: usize, m: int) -> bool {
        forall|k: int| 0 <= k < m ==> self.edge_done(x, #[trigger] adj[x as int]@[k])
    }

    /// The low-link of `a` is at most that of every stack node discovered
    /// after it.
    pub open spec fn absorbed(&self, a: usize) -> bool {
        forall|i: int|
            0 <= i < self.stack@.len() && self.disc(a) < self.disc(self.stack@[i]) ==> self.low@[a as int]
                <= self.low@[#[trigger] self.stack@[i] as int]
    }

    /// What the search has settled, with `active` the nodes whose visit is
    /// in progress: successors of closed nodes are closed; a closed node
    /// shares a reported component with every other node it reaches and is
    /// reached from; and each stack node whose visit is over has handled
    /// all its successors.
    pub open spec fn complete(&self, adj: Seq<Vec<usize>>, active: Seq<usize>) -> bool {
        &&& forall|v: usize, k: int|
            v < adj.len() && 0 <= k < adj[v as int]@.len() && self.closed(v) ==> self.closed(#[trigger] adj[v as int]@[k])
        &&& forall|v: usize, w: usize|
            v < adj.len() && w < adj.len() && v != w && self.closed(v) && #[trigger] mutual(adj, v, w) ==> together(
                self.cycles@,
                v,
                w,
            )
        &&& forall|i: int|
            0 <= i < self.stack@.len() && !active.contains(self.stack@[i]) ==> self.edges_done(
                adj,
                #[trigger] self.stack@[i],
                adj[self.stack@[i] as int]@.len() as int,
            )
    }
}

/// Visiting `node` keeps what the search has settled, with `node` active,
/// none of its successors handled yet and nothing above it on the stack.
proof fn lemma_complete_visit(s0: TarjanState, s1: TarjanState, adj: Seq<Vec<usize>>, active: Seq<usize>, node: usize)
    requires
        adjacency_ok(adj),
        s0.wf(adj.len()),
        s0.sound(adj, active),
        s0.complete(adj, active),
        node < adj.len(),
        s0.index@[node as int] is None,
        s1.index@ == s0.index@.update(node as int, Some(s0.counter)),
        s1.low@ == s0.low@.update(node as int, s0.counter),
        s1.on_stack@ == s0.on_stack@.update(node as int, true),
        s1.counter == s0.counter + 1,
        s1.stack@ == s0.stack@.push(node),
        s1.cycles@ == s0.cycles@,
    ensures
        s1.complete(adj, active.push(node)),
        s1.edges_done(adj, node, 0),
        s1.absorbed(node),
{
    let n = adj.len();
    let p = s0.stack@.len() as int;
    let act = active.push(node);
    assert forall|i: int| 0 <= i < p implies s0.stack@[i] != node && #[trigger] s1.stack@[i] == s0.stack@[i] by {
        assert(s0.index@[s0.stack@[i] as int] is Some);
    }
    assert forall|v: usize| v < n && s1.closed(v) implies v != node && s0.closed(v) by {}
    assert forall|v: usize, k: int| v < n && 0 <= k < adj[v as int]@.len() && s1.closed(v) implies s1.closed(
        #[trigger] adj[v as int]@[k],
    ) by {
        assert(s0.closed(adj[v as int]@[k]));
    }
    assert forall|v: usize, w: usize| v < n && w < n && v != w && s1.closed(v) && #[trigger] mutual(adj, v, w) implies together(
        s1.cycles@,
        v,
        w,
    ) by {
        assert(s0.closed(v));
    }
    assert forall|i: int| 0 <= i < s1.stack@.len() && !act.contains(s1.stack@[i]) implies s1.edges_done(
        adj,
        #[trigger] s1.stack@[i],
        adj[s1.stack@[i] as int]@.len() as int,
    ) by {
        if i == p {
            assert(act[act.len() - 1] == node);
        } else {
            let x = s0.stack@[i];
            assert(!active.contains(x)) by {
                if active.contains(x) {
                    let k = choose|k: int| 0 <= k < active.len() && active[k] == x;
                    assert(act[k] == x);
                }
            }
            assert(s0.edges_done(adj, x, adj[x as int]@.len() as int));
            assert forall|k: int| 0 <= k < adj[x as int]@.len() implies s1.edge_done(x, #[trigger] adj[x as int]@[k]) by {
                assert(s0.edge_done(x, adj[x as int]@[k]));
            }
        }
    }
    assert forall|i: int| 0 <= i < s1.stack@.len() && s1.disc(node) < s1.disc(s1.stack@[i]) implies s1.low@[node as int]
        <= s1.low@[#[trigger] s1.stack@[i] as int] by {
        if i < p {
            assert(s0.index@[s0.stack@[i] as int] is Some);
        }
    }
}

/// Handling the successor `w` of the innermost active `node` when `w` was
/// already visited keeps what the search has settled.
proof fn lemma_complete_seen(s0: TarjanState, s1: TarjanState, adj: Seq<Vec<usize>>, act: Seq<usize>, node: usize, j: int, w: usize)
    requires
        adjacency_ok(adj),
        s0.wf(adj.len()),
        s0.complete(adj, act),
        act.len() > 0,
        act.last() == node,
        node < adj.len(),
        0 <= j < adj[node as int]@.len(),
        adj[node as int]@[j] == w,
        s0.edges_done(adj, node, j),
        s0.absorbed(node),
        s0.index@[w as int] is Some,
        s1.index@ == s0.index@,
        s1.on_stack@ == s0.on_stack@,
        s1.stack@ == s0.stack@,
        s1.cycles@ == s0.cycles@,
        s0.on_stack@[w as int] ==> s1.low@ == s0.low@.update(
            node as int,
            if s0.low@[node as int] <= s0.disc(w) as usize { s0.low@[node as int] } else { s0.disc(w) as usize },
        ),
        !s0.on_stack@[w as int] ==> s1.low@ == s0.low@,
        s0.disc(w) >= 0,
    ensures
        s1.complete(adj, act),
        s1.edges_done(adj, node, j + 1),
        s1.absorbed(node),
{
    assert(act[act.len() - 1] == node);
    assert(s1.low@[node as int] <= s0.low@[node as int]);
    assert forall|x: usize| x < adj.len() && x != node implies s1.low@[x as int] == s0.low@[x as int] by {}
    assert forall|v: usize| v < adj.len() implies s1.closed(v) == s0.closed(v) by {}
    assert forall|i: int| 0 <= i < s1.stack@.len() && !act.contains(s1.stack@[i]) implies s1.edges_done(
        adj,
        #[trigger] s1.stack@[i],
        adj[s1.stack@[i] as int]@.len() as int,
    ) by {
        let x = s1.stack@[i];
        assert(x != node);
        assert(s0.edges_done(adj, x, adj[x as int]@.len() as int));
        assert forall|k: int| 0 <= k < adj[x as int]@.len() implies s1.edge_done(x, #[trigger] adj[x as int]@[k]) by {
            assert(s0.edge_done(x, adj[x as int]@[k]));
        }
    }
    assert forall|k: int| 0 <= k < j + 1 implies s1.edge_done(node, #[trigger] adj[node as int]@[k]) by {
        if k < j {
            assert(s0.edge_done(node, adj[node as int]@[k]));
        }
    }
    assert forall|i: int| 0 <= i < s1.stack@.len() && s1.disc(node) < s1.disc(s1.stack@[i]) implies s1.low@[node as int]
        <= s1.low@[#[trigger] s1.stack@[i] as int] by {
        assert(s0.low@[node as int] <= s0.low@[s0.stack@[i] as int]);
    }
}

/// After the visit of an unvisited successor `c` of the innermost active
/// `node` returns, lowering the low-link of `node` to that of `c` (if lower)
/// keeps what the search has settled.
proof fn lemma_complete_child(
    s_before: TarjanState,
    s_mid: TarjanState,
    s_after: TarjanState,
    adj: Seq<Vec<usize>>,
    act: Seq<usize>,
    node: usize,
    j: int,
    c: usize,
)
    requires
        adjacency_ok(adj),
        s_before.wf(adj.len()),
        s_mid.wf(adj.len()),
        s_mid.sound(adj, act),
        s_mid.complete(adj, act),
        act.len() > 0,
        act.last() == node,
        node < adj.len(),
        s_before.index@[node as int] is Some,
        0 <= j < adj[node as int]@.len(),
        adj[node as int]@[j] == c,
        c < adj.len(),
        s_before.index@[c as int] is None,
        s_before.edges_done(adj, node, j),
        s_before.absorbed(node),
        keeps_indices(s_before.index@, s_mid.index@),
        forall|v: int| 0 <= v < adj.len() && s_before.index@[v] is Some ==> #[trigger] s_mid.low@[v] == s_before.low@[v],
        forall|v: int| 0 <= v < adj.len() && s_before.index@[v] is Some && !s_before.on_stack@[v] ==> !#[trigger] s_mid.on_stack@[v],
        s_before.stack@.is_prefix_of(s_mid.stack@),
        s_mid.index@[c as int] is Some,
        s_mid.on_stack@[c as int] ==> s_mid.stack@.len() > s_before.stack@.len() && s_mid.stack@[s_before.stack@.len() as int] == c
            && s_mid.absorbed(c),
        !s_mid.on_stack@[c as int] ==> s_mid.stack@ == s_before.stack@,
        s_after.low@ == s_mid.low@.update(
            node as int,
            if s_mid.low@[node as int] <= s_mid.low@[c as int] { s_mid.low@[node as int] } else { s_mid.low@[c as int] },
        ),
        s_after.index@ == s_mid.index@,
        s_after.on_stack@ == s_mid.on_stack@,
        s_after.stack@ == s_mid.stack@,
        s_after.cycles@ == s_mid.cycles@,
    ensures
        s_after.complete(adj, act),
        s_after.edges_done(adj, node, j + 1),
        s_after.absorbed(node),
{
    let n = adj.len();
    let pb = s_before.stack@.len() as int;
    assert(act[act.len() - 1] == node);
    assert(c != node);
    lemma_prefix_index(s_before.stack@, s_mid.stack@);
    assert(s_mid.low@[node as int] == s_before.low@[node as int]);
    assert(s_mid.disc(node) == s_before.disc(node));
    assert forall|x: usize| x < adj.len() && x != node implies s_after.low@[x as int] == s_mid.low@[x as int] by {}
    assert forall|v: usize| v < adj.len() implies s_after.closed(v) == s_mid.closed(v) by {}
    // the settled part carries over from the end of the visit of `c`
    assert forall|i: int| 0 <= i < s_after.stack@.len() && !act.contains(s_after.stack@[i]) implies s_after.edges_done(
        adj,
        #[trigger] s_after.stack@[i],
        adj[s_after.stack@[i] as int]@.len() as int,
    ) by {
        let x = s_after.stack@[i];
        assert(x != node);
        assert(s_mid.edges_done(adj, x, adj[x as int]@.len() as int));
        assert forall|k: int| 0 <= k < adj[x as int]@.len() implies s_after.edge_done(x, #[trigger] adj[x as int]@[k]) by {
            assert(s_mid.edge_done(x, adj[x as int]@[k]));
        }
    }
    // the successors handled so far, and `c`
    assert forall|k: int| 0 <= k < j + 1 implies s_after.edge_done(node, #[trigger] adj[node as int]@[k]) by {
        let y = adj[node as int]@[k];
        if k < j {
            assert(s_before.edge_done(node, y));
            assert(s_before.index@[y as int] is Some);
            if s_after.on_stack@[y as int] {
                assert(s_before.on_stack@[y as int]);
            }
        } else {
            if s_mid.on_stack@[c as int] {
                let i = choose|i: int| 0 <= i < s_mid.stack@.len() && s_mid.stack@[i] == c;
                assert(s_mid.low@[s_mid.stack@[i] as int] <= s_mid.disc(s_mid.stack@[i]));
            }
        }
    }
    // the low-link of `node` bounds those of the stack nodes above it
    assert forall|i: int| 0 <= i < s_after.stack@.len() && s_after.disc(node) < s_after.disc(s_after.stack@[i]) implies s_after.low@[node as int]
        <= s_after.low@[#[trigger] s_after.stack@[i] as int] by {
        let x = s_after.stack@[i];
        if i < pb {
            assert(s_mid.stack@[i] == s_before.stack@[i]);
            assert(s_before.index@[x as int] is Some);
            assert(s_before.disc(x) == s_mid.disc(x));
            assert(s_before.low@[node as int] <= s_before.low@[s_before.stack@[i] as int]);
        } else {
            assert(s_mid.on_stack@[c as int]) by {
                if !s_mid.on_stack@[c as int] {
                    assert(s_mid.stack@ == s_before.stack@);
                }
            }
            if i > pb {
                assert(s_mid.disc(s_mid.stack@[pb]) < s_mid.disc(s_mid.stack@[i]));
                assert(s_mid.low@[c as int] <= s_mid.low@[s_mid.stack@[i] as int]);
            }
        }
    }
}

/// When the visit of `node` ends with `node` left on the stack, what the
/// search has settled holds for the enclosing active nodes.
proof fn lemma_complete_leave(s: TarjanState, adj: Seq<Vec<usize>>, active: Seq<usize>, node: usize)
    requires
        s.complete(adj, active.push(node)),
        s.edges_done(adj, node, adj[node as int]@.len() as int),
    ensures
        s.complete(adj, active),
{
    let act = active.push(node);
    assert forall|i: int| 0 <= i < s.stack@.len() && !active.contains(s.stack@[i]) implies s.edges_done(
        adj,
        #[trigger] s.stack@[i],
        adj[s.stack@[i] as int]@.len() as int,
    ) by {
        if s.stack@[i] != node {
            assert(!act.contains(s.stack@[i])) by {
                if act.contains(s.stack@[i]) {
                    let k = choose|k: int| 0 <= k < act.len() && act[k] == s.stack@[i];
                    assert(k < active.len());
                    assert(active[k] == s.stack@[i]);
                }
            }
        }
    }
}

/// Closing the component rooted at `node` (its low-link is its own index)
/// pops exactly the nodes that `node` reaches and that reach it, so what the
/// search has settled holds for the enclosing active nodes.
proof fn lemma_complete_close(
    s_entry: TarjanState,
    s_end: TarjanState,
    s_after: TarjanState,
    adj: Seq<Vec<usize>>,
    active: Seq<usize>,
    node: usize,
    scc: Seq<usize>,
)
    requires
        adjacency_ok(adj),
        s_end.wf(adj.len()),
        s_end.sound(adj, active.push(node)),
        s_end.complete(adj, active.push(node)),
        node < adj.len(),
        s_end.edges_done(adj, node, adj[node as int]@.len() as int),
        s_end.absorbed(node),
        s_end.low@[node as int] == s_end.disc(node),
        s_entry.stack@.push(node).is_prefix_of(s_end.stack@),
        s_after.wf(adj.len()),
        s_after.stack@ == s_entry.stack@,
        s_after.index@ == s_end.index@,
        s_after.low@ == s_end.low@,
        forall|i: int| s_entry.stack@.len() <= i < s_end.stack@.len() ==> scc.contains(#[trigger] s_end.stack@[i]),
        scc.len() > 1 ==> s_after.cycles@.len() == s_end.cycles@.len() + 1 && s_after.cycles@.last()@ == scc && forall|c: int|
            0 <= c < s_end.cycles@.len() ==> #[trigger] s_after.cycles@[c] == s_end.cycles@[c],
        scc.len() <= 1 ==> s_after.cycles@ == s_end.cycles@,
    ensures
        s_after.complete(adj, active),
{
    let n = adj.len();
    let p = s_entry.stack@.len() as int;
    let act = active.push(node);
    let top = |x: usize| s_end.on_stack@[x as int] && s_end.disc(node) <= s_end.disc(x);
    lemma_prefix_index(s_entry.stack@.push(node), s_end.stack@);
    assert(s_entry.stack@.push(node)[p] == node);
    assert(s_end.stack@[p] == node);
    assert(s_end.index@[node as int] is Some);
    assert forall|i: int| 0 <= i < p implies #[trigger] s_end.stack@[i] == s_entry.stack@[i] by {
        assert(s_entry.stack@.push(node)[i] == s_entry.stack@[i]);
    }
    assert(act[act.len() - 1] == node);
    // the popped nodes are the stack nodes discovered from `node` on
    assert forall|x: usize| x < n implies (s_after.on_stack@[x as int] <==> s_end.on_stack@[x as int] && !top(x)) by {
        if s_after.on_stack@[x as int] {
            let i = choose|i: int| 0 <= i < s_entry.stack@.len() && s_entry.stack@[i] == x;
            assert(s_end.stack@[i] == x);
            assert(s_end.stack@.contains(x));
            assert(s_end.disc(s_end.stack@[i]) < s_end.disc(s_end.stack@[p]));
        }
        if s_end.on_stack@[x as int] && !top(x) {
            let i = choose|i: int| 0 <= i < s_end.stack@.len() && s_end.stack@[i] == x;
            if i > p {
                assert(s_end.disc(s_end.stack@[p]) < s_end.disc(s_end.stack@[i]));
            }
            assert(i < p);
            assert(s_entry.stack@[i] == x);
            assert(s_entry.stack@.contains(x));
        }
    }
    assert forall|x: usize| x < n && #[trigger] top(x) implies scc.contains(x) && s_end.index@[x as int] is Some by {
        let i = choose|i: int| 0 <= i < s_end.stack@.len() && s_end.stack@[i] == x;
        if i < p {
            assert(s_end.disc(s_end.stack@[i]) < s_end.disc(s_end.stack@[p]));
        }
        assert(scc.contains(s_end.stack@[i]));
    }
    // nothing popped leads below `node`: every successor of a popped node is
    // closed or popped too
    let keep = |x: usize| s_end.closed(x) || top(x);
    assert forall|x: usize, k: int| x < n && 0 <= k < adj[x as int]@.len() && keep(x) implies keep(
        #[trigger] adj[x as int]@[k],
    ) by {
        let y = adj[x as int]@[k];
        if s_end.closed(x) {
            assert(s_end.closed(y));
        } else {
            let i = choose|i: int| 0 <= i < s_end.stack@.len() && s_end.stack@[i] == x;
            if x == node {
                assert(s_end.edge_done(node, y));
            } else {
                assert(s_end.disc(node) < s_end.disc(x)) by {
                    if s_end.disc(node) == s_end.disc(x) {
                        if i < p {
                            assert(s_end.disc(s_end.stack@[i]) < s_end.disc(s_end.stack@[p]));
                        } else if i > p {
                            assert(s_end.disc(s_end.stack@[p]) < s_end.disc(s_end.stack@[i]));
                        }
                    }
                }
                assert(!act.contains(x)) by {
                    if act.contains(x) {
                        let k2 = choose|k2: int| 0 <= k2 < act.len() && act[k2] == x;
                        if k2 < act.len() - 1 {
                            assert(s_end.disc(act[k2]) < s_end.disc(act[act.len() - 1]));
                        }
                    }
                }
                assert(s_end.edges_done(adj, s_end.stack@[i], adj[s_end.stack@[i] as int]@.len() as int));
                assert(s_end.edge_done(x, y));
                assert(s_end.low@[node as int] <= s_end.low@[s_end.stack@[i] as int]);
            }
        }
    }
    assert(successor_closed(adj, keep));
    assert(successor_closed(adj, |x: usize| s_end.closed(x)));
    assert forall|x: usize| x < n implies (s_after.closed(x) <==> keep(x)) by {}
    // closed nodes lead to closed nodes
    assert forall|v: usize, k: int| v < n && 0 <= k < adj[v as int]@.len() && s_after.closed(v) implies s_after.closed(
        #[trigger] adj[v as int]@[k],
    ) by {
        assert(keep(v));
        assert(keep(adj[v as int]@[k]));
    }
    // the component of a popped node is popped with it
    assert forall|v: usize, w: usize| v < n && w < n && v != w && s_after.closed(v) && #[trigger] mutual(adj, v, w) implies together(
        s_after.cycles@,
        v,
        w,
    ) by {
        if s_end.closed(v) {
            assert(together(s_end.cycles@, v, w));
            let c = choose|c: int| 0 <= c < s_end.cycles@.len() && (#[trigger] s_end.cycles@[c])@.contains(v) && s_end.cycles@[c]@.contains(w);
            if scc.len() > 1 {
                assert(s_after.cycles@[c] == s_end.cycles@[c]);
            }
        } else {
            assert(top(v));
            let i = choose|i: int| 0 <= i < s_end.stack@.len() && s_end.stack@[i] == v;
            assert(reaches(adj, act[act.len() - 1], s_end.stack@[i]));
            assert(reaches(adj, s_end.stack@[i], act.last()));
            lemma_reaches_trans(adj, node, v, w);
            lemma_reaches_trans(adj, w, v, node);
            assert(keep(node));
            lemma_closure(adj, keep, node, w);
            assert(top(w)) by {
                if s_end.closed(w) {
                    lemma_closure(adj, |x: usize| s_end.closed(x), w, node);
                }
            }
            assert(scc.contains(v) && scc.contains(w));
            assert(scc.len() > 1) by {
                let a = choose|a: int| 0 <= a < scc.len() && scc[a] == v;
                let b = choose|b: int| 0 <= b < scc.len() && scc[b] == w;
                assert(a != b);
            }
            let last = s_end.cycles@.len() as int;
            assert(s_after.cycles@[last]@ == scc);
        }
    }
    // the stack nodes left have handled their successors
    assert forall|i: int| 0 <= i < s_after.stack@.len() && !active.contains(s_after.stack@[i]) implies s_after.edges_done(
        adj,
        #[trigger] s_after.stack@[i],
        adj[s_after.stack@[i] as int]@.len() as int,
    ) by {
        let x = s_after.stack@[i];
        assert(s_end.stack@[i] == x);
        assert(x != node) by {
            assert(s_end.stack@[p] == node);
        }
        assert(!act.contains(x)) by {
            if act.contains(x) {
                let k = choose|k: int| 0 <= k < act.len() && act[k] == x;
                assert(k < active.len());
                assert(active[k] == x);
            }
        }
        assert(s_end.edges_done(adj, s_end.stack@[i], adj[x as int]@.len() as int));
        assert forall|k: int| 0 <= k < adj[x as int]@.len() implies s_after.edge_done(x, #[trigger] adj[x as int]@[k]) by {
            assert(s_end.edge_done(x, adj[x as int]@[k]));
        }
    }
}

fn min_usize(a: usize, b: usize) -> (r: usize)
    ensures
        r == if a <= b { a } else { b },
{
    if a <= b { a } else { b }
}

/// Visits `node` and everything reachable from it that is not yet visited,
/// closing every component whose root it discovers.
fn strongconnect<D: Deadline>(
    node: usize,
    adj: &Vec<Vec<usize>>,
    deadline: &D,
    st: &mut TarjanState,
    Ghost(active): Ghost<Seq<usize>>,
)
    requires
        adjacency_ok(adj@),
        old(st).wf(adj@.len()),
        node < adj@.len(),
        old(st).index@[node as int] is None,
        searching(deadline, *old(st)) ==> old(st).sound(adj@, active),
        searching(deadline, *old(st)) ==> old(st).complete(adj@, active),
        active.len() > 0 ==> active.last() < adj@.len() && adj@[active.last() as int]@.contains(node),
        old(st).cycles@.len() <= MAX_CYCLES,
        deadline.never_expires() ==> cycles_reach(adj@, old(st).cycles@),
        deadline.never_expires() ==> cycles_whole(adj@, old(st).cycles@),
    ensures
        final(st).wf(adj@.len()),
        final(st).cycles@.len() <= MAX_CYCLES,
        deadline.never_expires() ==> cycles_reach(adj@, final(st).cycles@),
        deadline.never_expires() ==> cycles_whole(adj@, final(st).cycles@),
        keeps_indices(old(st).index@, final(st).index@),
        final(st).cycles@.len() >= old(st).cycles@.len(),
        forall|v: int|
            0 <= v < adj@.len() && old(st).index@[v] is Some && !old(st).on_stack@[v] ==> !#[trigger] final(st).on_stack@[v],
        searching(deadline, *final(st)) ==> {
            &&& final(st).sound(adj@, active)
            &&& final(st).complete(adj@, active)
            &&& final(st).on_stack@[node as int] ==> final(st).absorbed(node)
            &&& final(st).index@[node as int] == Some(old(st).counter)
            &&& old(st).stack@.is_prefix_of(final(st).stack@)
            &&& forall|v: int| 0 <= v < adj@.len() && old(st).index@[v] is Some ==> #[trigger] final(st).low@[v] == old(st).low@[v]
            &&& final(st).on_stack@[node as int] ==> final(st).stack@.len() > old(st).stack@.len() && final(st).stack@[old(st).stack@.len() as int] == node
                && final(st).low@[node as int] < final(st).disc(node)
            &&& !final(st).on_stack@[node as int] ==> final(st).stack@ == old(st).stack@ && final(st).low@[node as int] == final(st).disc(node)
        },
    decreases num_unvisited(old(st).index@),
{
    let ghost n = adj@.len();
    if deadline.expired() || st.cycles.len() >= MAX_CYCLES {
        return;
    }
    let ghost entry_index = st.index@;
    let ghost s_entry = *st;
    let ghost act = active.push(node);
    proof {
        lemma_num_unvisited_set(st.index@, node as int, st.counter);
        assert(n <= usize::MAX) by {
            assert(adj@.len() == adj.len());
        }
    }
    st.index.set(node, Some(st.counter));
    st.low.set(node, st.counter);
    st.counter = st.counter + 1;
    proof {
        assert(!st.stack@.contains(node)) by {
            if st.stack@.contains(node) {
                let i = choose|i: int| 0 <= i < st.stack@.len() && st.stack@[i] == node;
                assert(entry_index[st.stack@[i] as int] is Some);
            }
        }
    }
    let ghost old_stack = st.stack@;
    let ghost old_on_stack = st.on_stack@;
    st.stack.push(node);
    st.on_stack.set(node, true);
    proof {
        assert(n <= usize::MAX) by {
            assert(adj@.len() == adj.len());
        }
        assert(st.stack@ =~= old_stack.push(node));
        assert(st.wf(n)) by {
            assert forall|v: int| 0 <= v < n implies (#[trigger] st.on_stack@[v] <==> st.stack@.contains(v as usize)) by {
                if v != node as int {
                    assert(st.on_stack@[v] == old_on_stack[v]);
                    assert(old_on_stack[v] <==> old_stack.contains(v as usize));
                    if st.stack@.contains(v as usize) {
                        let i = choose|i: int| 0 <= i < st.stack@.len() && st.stack@[i] == v as usize;
                        assert(i < old_stack.len());
                        assert(old_stack[i] == v as usize);
                    }
                    if old_stack.contains(v as usize) {
                        let i = choose|i: int| 0 <= i < old_stack.len() && old_stack[i] == v as usize;
                        assert(st.stack@[i] == v as usize);
                    }
                } else {
                    assert(st.stack@[old_stack.len() as int] == node);
                }
            }
            assert(st.stack@.no_duplicates()) by {
                assert forall|i: int, k: int| 0 <= i < st.stack@.len() && 0 <= k < st.stack@.len() && i != k
                    implies st.stack@[i] != st.stack@[k] by {
                    if i < old_stack.len() && k < old_stack.len() {
                    } else if i == old_stack.len() {
                        assert(old_stack.contains(st.stack@[k]));
                    } else {
                        assert(old_stack.contains(st.stack@[i]));
                    }
                }
            }
            assert forall|k: int, i: int| 0 <= k < st.cycles@.len() && 0 <= i < st.cycles@[k]@.len()
                implies !st.on_stack@[#[trigger] st.cycles@[k]@[i] as int] by {
                assert(entry_index[st.cycles@[k]@[i] as int] is Some);
            }
        }
    }
    assert(entry_index == old(st).index@);
    proof {
        if searching(deadline, *st) {
            assert(st.index@ == s_entry.index@.update(node as int, Some(s_entry.counter)));
            lemma_sound_visit(s_entry, *st, adj@, active, node);
            assert(st.stack@ == s_entry.stack@.push(node));
            assert(st.on_stack@ == s_entry.on_stack@.update(node as int, true));
            lemma_complete_visit(s_entry, *st, adj@, active, node);
        }
        assert(s_entry.stack@.push(node).is_prefix_of(st.stack@));
    }
    let neighbors = &adj[node];
    let mut j: usize = 0;
    while j < neighbors.len()
        invariant
            adjacency_ok(adj@),
            n == adj@.len(),
            node < n,
            neighbors@ == adj@[node as int]@,
            st.wf(n),
            keeps_indices(entry_index, st.index@),
            entry_index == old(st).index@,
            n <= usize::MAX,
            st.index@[node as int] == Some(s_entry.counter),
            entry_index[node as int] is None,
            j <= neighbors@.len(),
            st.cycles@.len() >= s_entry.cycles@.len(),
            st.cycles@.len() <= MAX_CYCLES,
            deadline.never_expires() ==> cycles_reach(adj@, st.cycles@),
            deadline.never_expires() ==> cycles_whole(adj@, st.cycles@),
            deadline.never_expires() ==> cycles_whole(adj@, st.cycles@),
            act == active.push(node),
            searching(deadline, *st) ==> st.sound(adj@, act),
            searching(deadline, *st) ==> s_entry.stack@.push(node).is_prefix_of(st.stack@),
            searching(deadline, *st) ==> forall|v: int|
                0 <= v < n && entry_index[v] is Some ==> #[trigger] st.low@[v] == s_entry.low@[v],
            searching(deadline, *st) ==> st.complete(adj@, act) && st.edges_done(adj@, node, j as int) && st.absorbed(node),
            forall|v: int| 0 <= v < n && entry_index[v] is Some && !s_entry.on_stack@[v] ==> !#[trigger] st.on_stack@[v],
        decreases neighbors@.len() - j,
    {
        let w = neighbors[j];
        assert(w < n) by {
            assert(adj@[node as int]@[j as int] < adj@.len());
        }
        match st.index[w] {
            None => {
                proof {
                    lemma_num_unvisited_mono(entry_index, st.index@);
                    assert(entry_index[node as int] is None && st.index@[node as int] is Some);
                    assert(num_unvisited(st.index@) < num_unvisited(entry_index));
                }
                let ghost s_before = *st;
                proof {
                    assert(neighbors@[j as int] == w);
                    assert(adj@[node as int]@.contains(w));
                }
                strongconnect(w, adj, deadline, st, Ghost(act));
                let ghost s_mid = *st;
                let nl = match st.index[w] {
                    Some(_) => st.low[w],
                    None => 0,
                };
                let cur = st.low[node];
                st.low.set(node, min_usize(cur, nl));
                proof {
                    assert forall|v: int| 0 <= v < n && entry_index[v] is Some && !s_entry.on_stack@[v] implies !#[trigger] st.on_stack@[v] by {
                        assert(s_before.index@[v] is Some);
                        assert(!s_before.on_stack@[v]);
                    }
                    if searching(deadline, *st) {
                        lemma_complete_child(s_before, s_mid, *st, adj@, act, node, j as int, w);
                        let p = s_entry.stack@.len() as int;
                        lemma_prefix_index(s_entry.stack@.push(node), s_before.stack@);
                        assert(s_entry.stack@.push(node)[p] == node);
                        assert(s_before.stack@[p] == node);
                        lemma_reaches_refl(adj@, node);
                        lemma_reaches_step(adj@, node, node, w);
                        lemma_sound_child(s_before, s_mid, *st, adj@, act, p, w);
                        assert(s_entry.stack@.push(node).is_prefix_of(st.stack@)) by {
                            lemma_prefix_index(s_before.stack@, s_mid.stack@);
                            assert(st.stack@.subrange(0, p + 1) =~= s_entry.stack@.push(node)) by {
                                assert forall|i: int| 0 <= i < p + 1 implies st.stack@.subrange(0, p + 1)[i] == s_entry.stack@.push(
                                    node,
                                )[i] by {
                                    assert(st.stack@[i] == s_before.stack@[i]);
                                }
                            }
                        }
                        assert forall|v: int| 0 <= v < n && entry_index[v] is Some implies #[trigger] st.low@[v] == s_entry.low@[v] by {
                            assert(v != node as int);
                            assert(s_before.index@[v] is Some);
                        }
                    }
                }
            },
            Some(wi) => {
                if st.on_stack[w] {
                    let ghost s_before = *st;
                    let cur = st.low[node];
                    st.low.set(node, min_usize(cur, wi));
                    proof {
                        if searching(deadline, *st) {
                            assert(neighbors@[j as int] == w);
                            lemma_complete_seen(s_before, *st, adj@, act, node, j as int, w);
                            let p = s_entry.stack@.len() as int;
                            lemma_prefix_index(s_entry.stack@.push(node), s_before.stack@);
                            assert(s_entry.stack@.push(node)[p] == node);
                            assert(s_before.stack@[p] == node);
                            assert(neighbors@[j as int] == w);
                            assert(adj@[node as int]@.contains(w));
                            lemma_reaches_refl(adj@, node);
                            lemma_reaches_step(adj@, node, node, w);
                            assert(s_before.stack@.contains(w));
                            assert(s_before.disc(w) == wi);
                            lemma_sound_back_edge(s_before, *st, adj@, act, p, w);
                        }
                    }
                } else {
                    proof {
                        if searching(deadline, *st) {
                            assert(neighbors@[j as int] == w);
                            lemma_complete_seen(*st, *st, adj@, act, node, j as int, w);
                        }
                    }
                }
            },
        }
        j = j + 1;
    }
    let node_index = match st.index[node] {
        Some(x) => x,
        None => 0,
    };
    let ghost s_end = *st;
    let ghost p = s_entry.stack@.len() as int;
    let ghost srch = searching(deadline, s_end);
    proof {
        if srch {
            lemma_prefix_index(s_entry.stack@.push(node), s_end.stack@);
            assert(s_entry.stack@.push(node)[p] == node);
            assert(s_end.stack@[p] == node);
            assert(s_end.has_low_witness(adj@, p));
        }
    }
    if st.low[node] == node_index {
        let mut scc: Vec<usize> = Vec::new();
        loop
            invariant_except_break
                n <= usize::MAX,
                st.wf(n),
                keeps_indices(entry_index, st.index@),
                scc@.no_duplicates(),
                forall|i: int| 0 <= i < scc@.len() ==> (#[trigger] scc@[i]) < n,
                forall|i: int| 0 <= i < scc@.len() ==> !st.on_stack@[#[trigger] scc@[i] as int],
                forall|i: int| 0 <= i < scc@.len() ==> st.index@[#[trigger] scc@[i] as int] is Some,
                forall|k: int| 0 <= k < st.cycles@.len() ==> (#[trigger] st.cycles@[k])@.disjoint(scc@),
                st.cycles@ == s_end.cycles@,
                st.index@ == s_end.index@,
                st.low@ == s_end.low@,
                st.counter == s_end.counter,
                srch == searching(deadline, s_end),
                act == active.push(node),
                p == s_entry.stack@.len(),
                srch ==> s_end.sound(adj@, act) && s_end.wf(n) && s_end.stack@[p] == node && s_entry.stack@.push(node).is_prefix_of(
                    s_end.stack@,
                ),
                srch ==> p < st.stack@.len() <= s_end.stack@.len() && st.stack@ =~= s_end.stack@.take(st.stack@.len() as int),
                srch ==> forall|i: int| 0 <= i < scc@.len() ==> reaches(adj@, node, #[trigger] scc@[i]) && reaches(adj@, scc@[i], node),
                forall|v: int| 0 <= v < n && entry_index[v] is Some && !s_entry.on_stack@[v] ==> !#[trigger] st.on_stack@[v],
                srch ==> forall|i: int| st.stack@.len() <= i < s_end.stack@.len() ==> scc@.contains(#[trigger] s_end.stack@[i]),
            ensures
                st.wf(n),
                keeps_indices(entry_index, st.index@),
                scc@.no_duplicates(),
                forall|i: int| 0 <= i < scc@.len() ==> (#[trigger] scc@[i]) < n,
                forall|i: int| 0 <= i < scc@.len() ==> !st.on_stack@[#[trigger] scc@[i] as int],
                forall|i: int| 0 <= i < scc@.len() ==> st.index@[#[trigger] scc@[i] as int] is Some,
                forall|k: int| 0 <= k < st.cycles@.len() ==> (#[trigger] st.cycles@[k])@.disjoint(scc@),
                st.cycles@ == s_end.cycles@,
                st.index@ == s_end.index@,
                st.low@ == s_end.low@,
                st.counter == s_end.counter,
                srch ==> st.stack@ == s_entry.stack@ && scc@.contains(node),
                srch ==> forall|i: int| 0 <= i < scc@.len() ==> reaches(adj@, node, #[trigger] scc@[i]) && reaches(adj@, scc@[i], node),
                forall|v: int| 0 <= v < n && entry_index[v] is Some && !s_entry.on_stack@[v] ==> !#[trigger] st.on_stack@[v],
                srch ==> forall|i: int| st.stack@.len() <= i < s_end.stack@.len() ==> scc@.contains(#[trigger] s_end.stack@[i]),
            decreases st.stack@.len(),
        {
            if deadline.expired() {
                break;
            }
            let ghost before = st.stack@;
            let popped = st.stack.pop();
            match popped {
                None => {
                    break;
                },
                Some(w) => {
                    proof {
                        assert(before.last() == w);
                        assert(st.stack@ =~= before.drop_last());
                        assert(!st.stack@.contains(w)) by {
                            if st.stack@.contains(w) {
                                let i = choose|i: int| 0 <= i < st.stack@.len() && st.stack@[i] == w;
                                assert(before[i] == before[before.len() - 1]);
                            }
                        }
                        assert(st.on_stack@[w as int]) by {
                            assert(before.contains(w));
                        }
                        assert(!scc@.contains(w));
                        assert forall|k: int| 0 <= k < st.cycles@.len() implies !(#[trigger] st.cycles@[k])@.contains(w) by {
                            if st.cycles@[k]@.contains(w) {
                                let i = choose|i: int| 0 <= i < st.cycles@[k]@.len() && st.cycles@[k]@[i] == w;
                                assert(!st.on_stack@[st.cycles@[k]@[i] as int]);
                            }
                        }
                    }
                    st.on_stack.set(w, false);
                    let ghost scc_before = scc@;
                    scc.push(w);
                    proof {
                        assert forall|v: int| 0 <= v < n implies (#[trigger] st.on_stack@[v] <==> st.stack@.contains(v as usize)) by {
                            if v != w as int {
                                assert(before[before.len() - 1] == w);
                                assert(before.contains(v as usize) ==> st.stack@.contains(v as usize)) by {
                                    if before.contains(v as usize) {
                                        let i = choose|i: int| 0 <= i < before.len() && before[i] == v as usize;
                                        assert(i != before.len() - 1);
                                        assert(st.stack@[i] == v as usize);
                                    }
                                }
                                assert(st.stack@.contains(v as usize) ==> before.contains(v as usize)) by {
                                    if st.stack@.contains(v as usize) {
                                        let i = choose|i: int| 0 <= i < st.stack@.len() && st.stack@[i] == v as usize;
                                        assert(before[i] == v as usize);
                                    }
                                }
                            }
                        }
                        assert(st.stack@.no_duplicates()) by {
                            assert forall|i: int, k: int| 0 <= i < st.stack@.len() && 0 <= k < st.stack@.len() && i != k
                                implies st.stack@[i] != st.stack@[k] by {
                                assert(before[i] != before[k]);
                            }
                        }
                        assert(scc@.no_duplicates()) by {
                            assert forall|i: int, k: int| 0 <= i < scc@.len() && 0 <= k < scc@.len() && i != k
                                implies scc@[i] != scc@[k] by {
                                if i < scc_before.len() && k < scc_before.len() {
                                } else if i == scc_before.len() {
                                    assert(scc_before.contains(scc@[k]) || k == i);
                                } else {
                                    assert(scc_before.contains(scc@[i]));
                                }
                            }
                        }
                        assert forall|k: int| 0 <= k < st.cycles@.len() implies (#[trigger] st.cycles@[k])@.disjoint(scc@) by {
                            assert forall|a: int, b: int| 0 <= a < st.cycles@[k]@.len() && 0 <= b < scc@.len()
                                implies st.cycles@[k]@[a] != scc@[b] by {
                                if b < scc_before.len() {
                                    assert(st.cycles@[k]@.disjoint(scc_before));
                                    assert(scc_before[b] == scc@[b]);
                                } else {
                                    assert(!st.cycles@[k]@.contains(w));
                                }
                            }
                        }
                        assert(forall|i: int| 0 <= i < st.stack@.len() ==> before[i] == #[trigger] st.stack@[i]);
                    }
                    proof {
                        if srch {
                            assert forall|i: int| st.stack@.len() <= i < s_end.stack@.len() implies scc@.contains(
                                #[trigger] s_end.stack@[i],
                            ) by {
                                if i == st.stack@.len() {
                                    assert(before[i] == s_end.stack@[i]);
                                    assert(scc@[scc@.len() - 1] == w);
                                } else {
                                    assert(scc_before.contains(s_end.stack@[i]));
                                    let q = choose|q: int| 0 <= q < scc_before.len() && scc_before[q] == s_end.stack@[i];
                                    assert(scc@[q] == scc_before[q]);
                                }
                            }
                            let top = before.len() - 1;
                            assert(s_end.stack@[top] == w);
                            assert(p <= top);
                            if p < top {
                                assert(s_end.disc(s_end.stack@[p]) < s_end.disc(s_end.stack@[top]));
                            }
                            assert(act[act.len() - 1] == node);
                            assert(reaches(adj@, act[act.len() - 1], s_end.stack@[top]));
                            assert(reaches(adj@, s_end.stack@[top], act.last()));
                            assert forall|i: int| 0 <= i < scc@.len() implies reaches(adj@, node, #[trigger] scc@[i]) && reaches(
                                adj@,
                                scc@[i],
                                node,
                            ) by {
                                if i < scc_before.len() {
                                    assert(scc@[i] == scc_before[i]);
                                }
                            }
                            if w == node {
                                assert(top == p) by {
                                    if top != p {
                                        assert(s_end.stack@[top] != s_end.stack@[p]);
                                    }
                                }
                                assert(st.stack@ =~= s_entry.stack@) by {
                                    assert forall|i: int| 0 <= i < p implies st.stack@[i] == s_entry.stack@[i] by {
                                        lemma_prefix_index(s_entry.stack@.push(node), s_end.stack@);
                                        assert(s_entry.stack@.push(node)[i] == s_entry.stack@[i]);
                                    }
                                }
                                assert(scc@[scc@.len() - 1] == node);
                            } else {
                                assert(top != p);
                            }
                        }
                    }
                    if w == node {
                        break;
                    }
                },
            }
        }
        let ghost scc_seq = scc@;
        if scc.len() > 1 && st.cycles.len() < MAX_CYCLES {
            let ghost cycles_before = st.cycles@;
            st.cycles.push(scc);
            proof {
                assert forall|k1: int, k2: int| 0 <= k1 < st.cycles@.len() && 0 <= k2 < st.cycles@.len() && k1 != k2
                    implies (#[trigger] st.cycles@[k1])@.disjoint((#[trigger] st.cycles@[k2])@) by {
                    if k1 < cycles_before.len() && k2 < cycles_before.len() {
                        assert(cycles_before[k1] == st.cycles@[k1]);
                        assert(cycles_before[k2] == st.cycles@[k2]);
                    } else if k1 == cycles_before.len() {
                        assert(cycles_before[k2]@.disjoint(st.cycles@[k1]@));
                    } else {
                        assert(cycles_before[k1]@.disjoint(st.cycles@[k2]@));
                    }
                }
                assert(st.cycles_ok(n));
                if deadline.never_expires() {
                    assert(srch);
                    assert(cycles_reach(adj@, cycles_before));
                    assert forall|c: int, x: int, y: int|
                        0 <= c < st.cycles@.len() && 0 <= x < st.cycles@[c]@.len() && 0 <= y < st.cycles@[c]@.len() implies reaches(
                        adj@,
                        #[trigger] st.cycles@[c]@[x],
                        #[trigger] st.cycles@[c]@[y],
                    ) by {
                        if c < cycles_before.len() {
                            assert(st.cycles@[c] == cycles_before[c]);
                        } else {
                            assert(st.cycles@[c]@ == scc@);
                            lemma_reaches_trans(adj@, scc@[x], node, scc@[y]);
                        }
                    }
                }
            }
        }
        proof {
            if srch && scc_seq.len() > 1 {
                lemma_complete_close(s_entry, s_end, *st, adj@, active, node, scc_seq);
                let last = st.cycles@.len() - 1;
                assert forall|c: int, x: int, y: usize|
                    0 <= c < st.cycles@.len() && 0 <= x < st.cycles@[c]@.len() && y < adj@.len() && #[trigger] mutual(
                        adj@,
                        st.cycles@[c]@[x],
                        y,
                    ) implies st.cycles@[c]@.contains(y) by {
                    if c < last {
                        assert(st.cycles@[c] == s_end.cycles@[c]);
                    } else {
                        let v = st.cycles@[c]@[x];
                        if v != y {
                            assert(st.closed(v));
                            assert(together(st.cycles@, v, y));
                            let c2 = choose|c2: int| 0 <= c2 < st.cycles@.len() && (#[trigger] st.cycles@[c2])@.contains(v) && st.cycles@[c2]@.contains(y);
                            if c2 != c {
                                assert(st.cycles@[c2]@.disjoint(st.cycles@[c]@));
                            }
                        } else {
                            assert(st.cycles@[c]@[x] == y);
                        }
                    }
                }
            }
        }
        proof {
            if searching(deadline, *st) {
                assert(srch);
                assert forall|v: int| 0 <= v < st.index@.len() && (#[trigger] st.index@[v]) is Some implies st.index@[v]->0
                    < st.counter by {
                    assert(s_end.index@[v] is Some);
                }
                if st.cycles@ == s_end.cycles@ {
                    assert forall|c: int, x: int, y: int|
                        0 <= c < st.cycles@.len() && 0 <= x < st.cycles@[c]@.len() && 0 <= y < st.cycles@[c]@.len() implies reaches(
                        adj@,
                        #[trigger] st.cycles@[c]@[x],
                        #[trigger] st.cycles@[c]@[y],
                    ) by {
                        assert(reaches(adj@, s_end.cycles@[c]@[x], s_end.cycles@[c]@[y]));
                    }
                }
                lemma_sound_close(s_entry, *st, adj@, active);
                assert(s_entry.stack@.is_prefix_of(st.stack@));
                lemma_complete_close(s_entry, s_end, *st, adj@, active, node, scc_seq);
                assert(!st.on_stack@[node as int]);
            }
        }
    } else {
        proof {
            if searching(deadline, *st) {
                assert(s_end.low@[node as int] <= s_end.disc(node));
                lemma_sound_leave(s_entry, *st, adj@, active, node);
                lemma_complete_leave(*st, adj@, active, node);
                lemma_prefix_index(s_entry.stack@.push(node), st.stack@);
                assert(st.stack@.contains(node)) by {
                    assert(st.stack@[p] == node);
                }
                assert(s_entry.stack@.is_prefix_of(st.stack@)) by {
                    assert forall|i: int| 0 <= i < p implies st.stack@.subrange(0, p)[i] == s_entry.stack@[i] by {
                        assert(s_entry.stack@.push(node)[i] == s_entry.stack@[i]);
                    }
                    assert(st.stack@.subrange(0, p) =~= s_entry.stack@);
                }
            }
        }
    }
}


/// `s` names a node of the graph: a listed node or an endpoint of an edge.
pub open spec fn is_graph_id(nodes: Seq<(String, String)>, edges: Seq<(String, String)>, s: Seq<char>) -> bool {
    ||| exists|i: int| 0 <= i < nodes.len() && (#[trigger] nodes[i]).0@ == s
    ||| exists|i: int| 0 <= i < edges.len() && (#[trigger] edges[i]).0@ == s
    ||| exists|i: int| 0 <= i < edges.len() && (#[trigger] edges[i]).1@ == s
}

/// The views of the strings are pairwise distinct.
pub open spec fn distinct_views(s: Seq<String>) -> bool {
    forall|i: int, j: int| 0 <= i < s.len() && 0 <= j < s.len() && i != j ==> (#[trigger] s[i])@ != (#[trigger] s[j])@
}

/// Position of the string with the same characters as `s`, if any.
pub fn find_id(ids: &Vec<String>, s: &String) -> (r: Option<usize>)
    ensures
        r matches Some(i) ==> i < ids@.len() && ids@[i as int]@ == s@,
        r is None ==> forall|i: int| 0 <= i < ids@.len() ==> (#[trigger] ids@[i])@ != s@,
{
    let mut i: usize = 0;
    while i < ids.len()
        invariant
            i <= ids@.len(),
            forall|k: int| 0 <= k < i ==> (#[trigger] ids@[k])@ != s@,
        decreases ids@.len() - i,
    {
        if ids[i].eq(s) {
            return Some(i);
        }
        i = i + 1;
    }
    None
}

fn intern(ids: &mut Vec<String>, s: &String) -> (r: usize)
    requires
        distinct_views(old(ids)@),
    ensures
        distinct_views(final(ids)@),
        r < final(ids)@.len(),
        final(ids)@[r as int]@ == s@,
        final(ids)@.len() == old(ids)@.len() || final(ids)@.len() == old(ids)@.len() + 1,
        final(ids)@.len() == old(ids)@.len() ==> final(ids)@ == old(ids)@,
        old(ids)@.is_prefix_of(final(ids)@),
        forall|k: int| old(ids)@.len() <= k < final(ids)@.len() ==> (#[trigger] final(ids)@[k])@ == s@,
{
    match find_id(ids, s) {
        Some(i) => i,
        None => {
            let c = s.clone();
            ids.push(c);
            ids.len() - 1
        },
    }
}

/// Some edge goes from `a` to `b`.
pub open spec fn edge_between(edges: Seq<(String, String)>, a: Seq<char>, b: Seq<char>) -> bool {
    exists|e: int| 0 <= e < edges.len() && (#[trigger] edges[e]).0@ == a && edges[e].1@ == b
}

/// Step `i` of `p` follows an edge.
pub open spec fn id_step(edges: Seq<(String, String)>, p: Seq<Seq<char>>, i: int) -> bool {
    edge_between(edges, p[i], p[i + 1])
}

/// `p` is a non-empty walk along the edges.
pub open spec fn is_id_walk(edges: Seq<(String, String)>, p: Seq<Seq<char>>) -> bool {
    p.len() > 0 && forall|i: int| 0 <= i < p.len() - 1 ==> #[trigger] id_step(edges, p, i)
}

/// `a` depends on `b`, directly or transitively (or is `b`): a walk along
/// the edges leads from `a` to `b`.
pub open spec fn depends_on(edges: Seq<(String, String)>, a: Seq<char>, b: Seq<char>) -> bool {
    exists|p: Seq<Seq<char>>| #[trigger] is_id_walk(edges, p) && p[0] == a && p.last() == b
}

/// Every adjacency entry stands for an edge between the nodes it links.
pub open spec fn adjacency_sound(edges: Seq<(String, String)>, ids: Seq<String>, adj: Seq<Vec<usize>>) -> bool {
    forall|u: int, k: int|
        0 <= u < adj.len() && 0 <= k < adj[u]@.len() ==> edge_between(edges, ids[u]@, ids[#[trigger] adj[u]@[k] as int]@)
}

proof fn lemma_reaches_depends(edges: Seq<(String, String)>, ids: Seq<String>, adj: Seq<Vec<usize>>, u: usize, v: usize)
    requires
        adjacency_sound(edges, ids, adj),
        adj.len() == ids.len(),
        reaches(adj, u, v),
    ensures
        depends_on(edges, ids[u as int]@, ids[v as int]@),
{
    let p = choose|p: Seq<usize>| #[trigger] is_walk(adj, p) && p[0] == u && p.last() == v;
    let q = Seq::new(p.len(), |i: int| ids[p[i] as int]@);
    assert forall|i: int| 0 <= i < q.len() - 1 implies #[trigger] id_step(edges, q, i) by {
        assert(walk_step(adj, p, i));
        let a = p[i] as int;
        let k = choose|k: int| 0 <= k < adj[a]@.len() && adj[a]@[k] == p[i + 1];
        assert(edge_between(edges, ids[a]@, ids[adj[a]@[k] as int]@));
    }
    assert(is_id_walk(edges, q));
}

/// `s` is in the node table.
pub open spec fn has_id(ids: Seq<String>, s: Seq<char>) -> bool {
    exists|u: int| 0 <= u < ids.len() && (#[trigger] ids[u])@ == s
}

/// Every edge appears in the adjacency list of its source.
pub open spec fn adjacency_complete(edges: Seq<(String, String)>, ids: Seq<String>, adj: Seq<Vec<usize>>) -> bool {
    forall|e: int, u: int, v: int|
        #![trigger edges[e], ids[u], ids[v]]
        0 <= e < edges.len() && 0 <= u < ids.len() && 0 <= v < ids.len() && edges[e].0@ == ids[u]@ && edges[e].1@ == ids[v]@
            ==> adj[u]@.contains(v as usize)
}

/// A walk along the edges from the node at position `u` leads to a node of
/// the table that `u` reaches.
proof fn lemma_depends_reaches(
    edges: Seq<(String, String)>,
    ids: Seq<String>,
    adj: Seq<Vec<usize>>,
    p: Seq<Seq<char>>,
    u: usize,
) -> (v: usize)
    requires
        distinct_views(ids),
        ids.len() <= usize::MAX,
        adj.len() == ids.len(),
        adjacency_complete(edges, ids, adj),
        forall|e: int| 0 <= e < edges.len() ==> has_id(ids, (#[trigger] edges[e]).1@),
        is_id_walk(edges, p),
        u < ids.len(),
        p[0] == ids[u as int]@,
    ensures
        v < ids.len(),
        ids[v as int]@ == p.last(),
        reaches(adj, u, v),
    decreases p.len(),
{
    if p.len() == 1 {
        lemma_reaches_refl(adj, u);
        u
    } else {
        let q = p.drop_last();
        assert forall|i: int| 0 <= i < q.len() - 1 implies #[trigger] id_step(edges, q, i) by {
            assert(id_step(edges, p, i));
        }
        let v1 = lemma_depends_reaches(edges, ids, adj, q, u);
        assert(id_step(edges, p, p.len() - 2));
        let e = choose|e: int| 0 <= e < edges.len() && (#[trigger] edges[e]).0@ == p[p.len() - 2] && edges[e].1@ == p[p.len() - 1];
        assert(has_id(ids, edges[e].1@));
        let v = choose|v: int| 0 <= v < ids.len() && (#[trigger] ids[v])@ == edges[e].1@;
        assert(q.last() == p[p.len() - 2]);
        assert(adj[v1 as int]@.contains(v as usize));
        lemma_reaches_step(adj, u, v1, v as usize);
        v as usize
    }
}

/// Builds the node table (listed nodes first, then edge endpoints in edge
/// order) and the adjacency lists over node positions.
fn build_index(nodes: &Vec<(String, String)>, edges: &Vec<(String, String)>) -> (r: (Vec<String>, Vec<Vec<usize>>))
    ensures
        distinct_views(r.0@),
        r.1@.len() == r.0@.len(),
        adjacency_ok(r.1@),
        adjacency_sound(edges@, r.0@, r.1@),
        adjacency_complete(edges@, r.0@, r.1@),
        forall|i: int| 0 <= i < r.0@.len() ==> is_graph_id(nodes@, edges@, #[trigger] r.0@[i]@),
        forall|q: int| 0 <= q < nodes@.len() ==> has_id(r.0@, (#[trigger] nodes@[q]).0@),
        forall|e: int| 0 <= e < edges@.len() ==> has_id(r.0@, (#[trigger] edges@[e]).0@) && has_id(r.0@, edges@[e].1@),
{
    let mut ids: Vec<String> = Vec::new();
    let mut i: usize = 0;
    while i < nodes.len()
        invariant
            i <= nodes@.len(),
            distinct_views(ids@),
            forall|k: int| 0 <= k < ids@.len() ==> is_graph_id(nodes@, edges@, #[trigger] ids@[k]@),
            forall|q: int| 0 <= q < i ==> has_id(ids@, (#[trigger] nodes@[q]).0@),
        decreases nodes@.len() - i,
    {
        let ghost before = ids@;
        let at = intern(&mut ids, &nodes[i].0);
        proof {
            assert forall|k: int| 0 <= k < ids@.len() implies is_graph_id(nodes@, edges@, #[trigger] ids@[k]@) by {
                if k < before.len() {
                    assert(before[k] == ids@[k]);
                } else {
                    assert(nodes@[i as int].0@ == ids@[k]@);
                }
            }
            assert forall|q: int| 0 <= q < i + 1 implies has_id(ids@, (#[trigger] nodes@[q]).0@) by {
                if q < i {
                    let u = choose|u: int| 0 <= u < before.len() && (#[trigger] before[u])@ == nodes@[q].0@;
                    assert(ids@[u] == before[u]);
                } else {
                    assert(ids@[at as int]@ == nodes@[q].0@);
                }
            }
        }
        i = i + 1;
    }
    let mut e: usize = 0;
    while e < edges.len()
        invariant
            e <= edges@.len(),
            distinct_views(ids@),
            forall|k: int| 0 <= k < ids@.len() ==> is_graph_id(nodes@, edges@, #[trigger] ids@[k]@),
            forall|q: int| 0 <= q < nodes@.len() ==> has_id(ids@, (#[trigger] nodes@[q]).0@),
            forall|f: int| 0 <= f < e ==> has_id(ids@, (#[trigger] edges@[f]).0@) && has_id(ids@, edges@[f].1@),
        decreases edges@.len() - e,
    {
        let ghost before = ids@;
        let a = intern(&mut ids, &edges[e].0);
        let ghost mid = ids@;
        let b = intern(&mut ids, &edges[e].1);
        proof {
            assert forall|k: int| 0 <= k < ids@.len() implies is_graph_id(nodes@, edges@, #[trigger] ids@[k]@) by {
                if k < before.len() {
                    assert(before[k] == ids@[k]);
                } else if k < mid.len() {
                    assert(mid[k] == ids@[k]);
                    assert(edges@[e as int].0@ == ids@[k]@);
                } else {
                    assert(edges@[e as int].1@ == ids@[k]@);
                }
            }
            assert forall|t: Seq<char>| has_id(before, t) implies has_id(ids@, t) by {
                let u = choose|u: int| 0 <= u < before.len() && (#[trigger] before[u])@ == t;
                assert(mid[u] == before[u]);
                assert(ids@[u] == mid[u]);
            }
            assert forall|q: int| 0 <= q < nodes@.len() implies has_id(ids@, (#[trigger] nodes@[q]).0@) by {
                assert(has_id(before, nodes@[q].0@));
            }
            assert(has_id(ids@, edges@[e as int].0@)) by {
                assert(ids@[a as int] == mid[a as int]);
                assert(ids@[a as int]@ == edges@[e as int].0@);
            }
            assert(has_id(ids@, edges@[e as int].1@)) by {
                assert(ids@[b as int]@ == edges@[e as int].1@);
            }
            assert forall|f: int| 0 <= f < e + 1 implies has_id(ids@, (#[trigger] edges@[f]).0@) && has_id(ids@, edges@[f].1@) by {
                if f < e {
                    assert(has_id(before, edges@[f].0@) && has_id(before, edges@[f].1@));
                }
            }
        }
        e = e + 1;
    }
    let n = ids.len();
    let mut adj: Vec<Vec<usize>> = Vec::new();
    let mut u: usize = 0;
    while u < n
        invariant
            n == ids@.len(),
            u <= n,
            adj@.len() == u,
            forall|a: int| 0 <= a < u ==> (#[trigger] adj@[a])@.len() == 0,
        decreases n - u,
    {
        adj.push(Vec::new());
        u = u + 1;
    }
    let mut e: usize = 0;
    while e < edges.len()
        invariant
            n == ids@.len(),
            adj@.len() == n,
            distinct_views(ids@),
            adjacency_ok(adj@),
            adjacency_sound(edges@, ids@, adj@),
            forall|f: int| 0 <= f < edges@.len() ==> has_id(ids@, (#[trigger] edges@[f]).0@) && has_id(ids@, edges@[f].1@),
            forall|f: int, x: int, y: int|
                #![trigger edges@[f], ids@[x], ids@[y]]
                0 <= f < e && 0 <= x < n && 0 <= y < n && edges@[f].0@ == ids@[x]@ && edges@[f].1@ == ids@[y]@ ==> adj@[x]@.contains(
                    y as usize,
                ),
            e <= edges@.len(),
        decreases edges@.len() - e,
    {
        let su = find_id(&ids, &edges[e].0);
        let tu = find_id(&ids, &edges[e].1);
        proof {
            assert(has_id(ids@, edges@[e as int].0@) && has_id(ids@, edges@[e as int].1@));
        }
        match (su, tu) {
            (Some(a), Some(b)) => {
                let ghost before = adj@;
                let mut row: Vec<usize> = Vec::new();
                std::mem::swap(&mut row, &mut adj[a]);
                row.push(b);
                adj.set(a, row);
                proof {
                    assert forall|x: int, k: int| 0 <= x < adj@.len() && 0 <= k < adj@[x]@.len()
                        implies (#[trigger] adj@[x]@[k]) < adj@.len() by {
                        if x != a as int {
                            assert(adj@[x] == before[x]);
                        } else if k < before[x]@.len() {
                            assert(adj@[x]@[k] == before[x]@[k]);
                        }
                    }
                    assert forall|x: int, k: int| 0 <= x < adj@.len() && 0 <= k < adj@[x]@.len()
                        implies edge_between(edges@, ids@[x]@, ids@[#[trigger] adj@[x]@[k] as int]@) by {
                        if x != a as int {
                            assert(adj@[x] == before[x]);
                            assert(edge_between(edges@, ids@[x]@, ids@[before[x]@[k] as int]@));
                        } else if k < before[x]@.len() {
                            assert(adj@[x]@[k] == before[x]@[k]);
                            assert(edge_between(edges@, ids@[x]@, ids@[before[x]@[k] as int]@));
                        } else {
                            assert(adj@[x]@[k] == b);
                            assert(edges@[e as int].0@ == ids@[x]@ && edges@[e as int].1@ == ids@[b as int]@);
                        }
                    }
                    assert forall|x: int, k: usize| 0 <= x < n && (#[trigger] before[x]@.contains(k)) implies adj@[x]@.contains(k) by {
                        let q = choose|q: int| 0 <= q < before[x]@.len() && before[x]@[q] == k;
                        if x != a as int {
                            assert(adj@[x] == before[x]);
                        } else {
                            assert(adj@[x]@[q] == before[x]@[q]);
                        }
                    }
                    assert forall|f: int, x: int, y: int|
                        #![trigger edges@[f], ids@[x], ids@[y]]
                        0 <= f < e + 1 && 0 <= x < n && 0 <= y < n && edges@[f].0@ == ids@[x]@ && edges@[f].1@ == ids@[y]@
                        implies adj@[x]@.contains(y as usize) by {
                        if f < e {
                            assert(before[x]@.contains(y as usize));
                        } else {
                            assert(x == a as int) by {
                                if x != a as int {
                                    assert(ids@[x]@ != ids@[a as int]@);
                                }
                            }
                            assert(y == b as int) by {
                                if y != b as int {
                                    assert(ids@[y]@ != ids@[b as int]@);
                                }
                            }
                            assert(adj@[x]@[adj@[x]@.len() - 1] == b);
                        }
                    }
                }
            },
            _ => {
                proof {
                    let x = choose|x: int| 0 <= x < ids@.len() && (#[trigger] ids@[x])@ == edges@[e as int].0@;
                    let y = choose|y: int| 0 <= y < ids@.len() && (#[trigger] ids@[y])@ == edges@[e as int].1@;
                    assert(su is Some);
                    assert(tu is Some);
                }
            },
        }
        e = e + 1;
    }
    (ids, adj)
}

/// The ids of each cycle.
pub open spec fn cycle_groups(cycles: Seq<Cycle>) -> Seq<Seq<Seq<char>>> {
    cycles.map_values(|c: Cycle| c.nodes@.map_values(|v: String| v@))
}

/// `groups` are distinct strongly connected components of the edge graph
/// with at least two ids each: the ids of a group depend on one another,
/// and a group holds every id that depends on one of its ids and on which
/// that id depends.
pub open spec fn are_components(edges: Seq<(String, String)>, groups: Seq<Seq<Seq<char>>>) -> bool {
    &&& forall|g: int| 0 <= g < groups.len() ==> (#[trigger] groups[g]).len() >= 2
    &&& forall|g: int, a: int, b: int|
        0 <= g < groups.len() && 0 <= a < groups[g].len() && 0 <= b < groups[g].len() ==> depends_on(
            edges,
            #[trigger] groups[g][a],
            #[trigger] groups[g][b],
        )
    &&& forall|g: int, a: int, y: Seq<char>|
        0 <= g < groups.len() && 0 <= a < groups[g].len() && #[trigger] depends_on(edges, groups[g][a], y) && depends_on(
            edges,
            y,
            groups[g][a],
        ) ==> groups[g].contains(y)
    &&& forall|g1: int, g2: int, a: int, b: int|
        0 <= g1 < groups.len() && 0 <= g2 < groups.len() && g1 != g2 && 0 <= a < groups[g1].len() && 0 <= b
            < groups[g2].len() ==> #[trigger] groups[g1][a] != #[trigger] groups[g2][b]
}

/// Detects dependency cycles as the strongly connected components of more
/// than one node, found by Tarjan's algorithm started from each listed node
/// in order. The search stops descending once the deadline is reached or
/// `MAX_CYCLES` cycles have been found, and records no cycle beyond that
/// number. Unless the deadline passed, every cycle reported is a whole
/// component (its nodes depend on each other, and it holds every node that
/// depends on one of them both ways), so a graph with fewer than
/// `MAX_CYCLES` such components gets fewer cycles; and then every node
/// that a listed node depends on (the listed node itself included) shares a
/// reported cycle with each other node that it depends on and that depends
/// on it.
pub fn detect_cycles<D: Deadline>(
    nodes: &Vec<(String, String)>,
    edges: &Vec<(String, String)>,
    deadline: &D,
) -> (cycles: Vec<Cycle>)
    ensures
        forall|c: int| 0 <= c < cycles@.len() ==> (#[trigger] cycles@[c]).length == cycles@[c].nodes@.len(),
        forall|c: int| 0 <= c < cycles@.len() ==> (#[trigger] cycles@[c]).nodes@.len() >= 2,
        forall|c: int| 0 <= c < cycles@.len() ==> distinct_views((#[trigger] cycles@[c]).nodes@),
        forall|c: int, i: int| 0 <= c < cycles@.len() && 0 <= i < cycles@[c].nodes@.len()
            ==> is_graph_id(nodes@, edges@, (#[trigger] cycles@[c].nodes@[i])@),
        forall|c1: int, c2: int, i: int, j: int|
            0 <= c1 < cycles@.len() && 0 <= c2 < cycles@.len() && c1 != c2
            && 0 <= i < cycles@[c1].nodes@.len() && 0 <= j < cycles@[c2].nodes@.len()
            ==> (#[trigger] cycles@[c1].nodes@[i])@ != (#[trigger] cycles@[c2].nodes@[j])@,
        cycles@.len() <= MAX_CYCLES,
        deadline.never_expires() ==> are_components(edges@, cycle_groups(cycles@)),
        deadline.never_expires() && (forall|g: Seq<Seq<Seq<char>>>| #[trigger] are_components(edges@, g) ==> g.len() < MAX_CYCLES)
            ==> cycles@.len() < MAX_CYCLES,
        deadline.never_expires() ==> forall|c: int, i: int, y: Seq<char>|
            #![trigger depends_on(edges@, cycles@[c].nodes@[i]@, y)]
            0 <= c < cycles@.len() && 0 <= i < cycles@[c].nodes@.len() && depends_on(edges@, cycles@[c].nodes@[i]@, y)
                && depends_on(edges@, y, cycles@[c].nodes@[i]@) ==> exists|j: int|
                0 <= j < cycles@[c].nodes@.len() && (#[trigger] cycles@[c].nodes@[j])@ == y,
        deadline.never_expires() ==> forall|c: int, i: int, j: int|
            0 <= c < cycles@.len() && 0 <= i < cycles@[c].nodes@.len() && 0 <= j < cycles@[c].nodes@.len() ==> depends_on(
                edges@,
                (#[trigger] cycles@[c].nodes@[i])@,
                (#[trigger] cycles@[c].nodes@[j])@,
            ),
        deadline.never_expires() && cycles@.len() < MAX_CYCLES ==> forall|a: int, x: Seq<char>|
            0 <= a < nodes@.len() && x != nodes@[a].0@ && #[trigger] depends_on(edges@, nodes@[a].0@, x) && depends_on(
                edges@,
                x,
                nodes@[a].0@,
            ) ==> exists|c: int, i: int, j: int|
                0 <= c < cycles@.len() && 0 <= i < cycles@[c].nodes@.len() && 0 <= j < cycles@[c].nodes@.len()
                    && (#[trigger] cycles@[c].nodes@[i])@ == nodes@[a].0@ && (#[trigger] cycles@[c].nodes@[j])@ == x,
        deadline.never_expires() && cycles@.len() < MAX_CYCLES ==> forall|a: int, y: Seq<char>, x: Seq<char>|
            0 <= a < nodes@.len() && #[trigger] depends_on(edges@, nodes@[a].0@, y) && x != y
                && #[trigger] depends_on(edges@, y, x) && depends_on(edges@, x, y)
                ==> exists|c: int, i: int, j: int|
                0 <= c < cycles@.len() && 0 <= i < cycles@[c].nodes@.len() && 0 <= j < cycles@[c].nodes@.len()
                    && (#[trigger] cycles@[c].nodes@[i])@ == y && (#[trigger] cycles@[c].nodes@[j])@ == x,
{
    let (ids, adj) = build_index(nodes, edges);
    let n = ids.len();
    let mut index: Vec<Option<usize>> = Vec::new();
    let mut low: Vec<usize> = Vec::new();
    let mut on_stack: Vec<bool> = Vec::new();
    let mut u: usize = 0;
    while u < n
        invariant
            n == ids@.len(),
            u <= n,
            index@.len() == u,
            low@.len() == u,
            on_stack@.len() == u,
            forall|a: int| 0 <= a < u ==> (#[trigger] index@[a]) is None,
            forall|a: int| 0 <= a < u ==> !(#[trigger] on_stack@[a]),
            num_unvisited(index@) == u,
        decreases n - u,
    {
        let ghost before = index@;
        index.push(None);
        low.push(0);
        on_stack.push(false);
        proof {
            assert(index@.drop_last() =~= before);
        }
        u = u + 1;
    }
    let mut st = TarjanState { index, low, on_stack, stack: Vec::new(), counter: 0, cycles: Vec::new() };
    proof {
        assert(st.wf(n as nat));
        assert(st.sound(adj@, Seq::<usize>::empty()));
        assert(st.complete(adj@, Seq::<usize>::empty()));
    }
    let mut r: usize = 0;
    while r < nodes.len()
        invariant
            n == ids@.len(),
            adj@.len() == n,
            adjacency_ok(adj@),
            distinct_views(ids@),
            forall|q: int| 0 <= q < nodes@.len() ==> has_id(ids@, (#[trigger] nodes@[q]).0@),
            r <= nodes@.len(),
            st.wf(n as nat),
            searching(deadline, st) ==> st.sound(adj@, Seq::<usize>::empty()),
            searching(deadline, st) ==> st.complete(adj@, Seq::<usize>::empty()),
            searching(deadline, st) ==> forall|q: int, u: int|
                0 <= q < r && 0 <= u < n && (#[trigger] ids@[u])@ == (#[trigger] nodes@[q]).0@ ==> st.index@[u] is Some,
            st.cycles@.len() <= MAX_CYCLES,
            deadline.never_expires() ==> cycles_reach(adj@, st.cycles@),
            deadline.never_expires() ==> cycles_whole(adj@, st.cycles@),
        ensures
            deadline.never_expires() ==> r == nodes@.len(),
        decreases nodes@.len() - r,
    {
        if deadline.expired() {
            break;
        }
        let ghost s_before = st;
        match find_id(&ids, &nodes[r].0) {
            Some(root) => {
                if st.index[root].is_none() {
                    strongconnect(root, &adj, deadline, &mut st, Ghost(Seq::<usize>::empty()));
                }
                proof {
                    if searching(deadline, st) {
                        assert(searching(deadline, s_before));
                        assert forall|q: int, u: int|
                            0 <= q < r + 1 && 0 <= u < n && (#[trigger] ids@[u])@ == (#[trigger] nodes@[q]).0@ implies st.index@[u]
                            is Some by {
                            if q < r {
                                assert(s_before.index@[u] is Some);
                            } else {
                                assert(u == root as int) by {
                                    if u != root as int {
                                        assert(ids@[u]@ != ids@[root as int]@);
                                    }
                                }
                            }
                        }
                    }
                }
            },
            None => {
                proof {
                    assert(has_id(ids@, nodes@[r as int].0@));
                    let u = choose|u: int| 0 <= u < ids@.len() && (#[trigger] ids@[u])@ == nodes@[r as int].0@;
                }
            },
        }
        r = r + 1;
    }
    let mut out: Vec<Cycle> = Vec::new();
    let mut c: usize = 0;
    while c < st.cycles.len()
        invariant
            n == ids@.len(),
            st.wf(n as nat),
            distinct_views(ids@),
            forall|i: int| 0 <= i < ids@.len() ==> is_graph_id(nodes@, edges@, #[trigger] ids@[i]@),
            c <= st.cycles@.len(),
            out@.len() == c,
            forall|k: int| 0 <= k < c ==> (#[trigger] out@[k]).nodes@.len() == st.cycles@[k]@.len(),
            forall|k: int| 0 <= k < c ==> (#[trigger] out@[k]).length == st.cycles@[k]@.len(),
            forall|k: int, i: int| 0 <= k < c && 0 <= i < out@[k].nodes@.len()
                ==> (#[trigger] out@[k].nodes@[i]) == ids@[st.cycles@[k]@[i] as int],
            adj@.len() == n,
            adjacency_sound(edges@, ids@, adj@),
            searching(deadline, st) ==> st.sound(adj@, Seq::<usize>::empty()),
            st.cycles@.len() <= MAX_CYCLES,
            deadline.never_expires() ==> cycles_reach(adj@, st.cycles@),
            deadline.never_expires() ==> cycles_whole(adj@, st.cycles@),
        decreases st.cycles@.len() - c,
    {
        let members = &st.cycles[c];
        let mut names: Vec<String> = Vec::new();
        let mut i: usize = 0;
        while i < members.len()
            invariant
                n == ids@.len(),
                st.wf(n as nat),
                c < st.cycles@.len(),
                members@ == st.cycles@[c as int]@,
                i <= members@.len(),
                names@.len() == i,
                forall|x: int| 0 <= x < i ==> (#[trigger] names@[x]) == ids@[members@[x] as int],
            decreases members@.len() - i,
        {
            let v = members[i];
            assert(v < n) by {
                assert(st.cycles@[c as int]@[i as int] < n);
            }
            names.push(ids[v].clone());
            i = i + 1;
        }
        let len = names.len();
        out.push(Cycle { nodes: names, length: len });
        c = c + 1;
    }
    proof {
        assert forall|k: int| 0 <= k < out@.len() implies distinct_views((#[trigger] out@[k]).nodes@) by {
            assert forall|i: int, j: int| 0 <= i < out@[k].nodes@.len() && 0 <= j < out@[k].nodes@.len() && i != j
                implies (#[trigger] out@[k].nodes@[i])@ != (#[trigger] out@[k].nodes@[j])@ by {
                let a = st.cycles@[k]@[i];
                let b = st.cycles@[k]@[j];
                assert(a != b);
                assert(a < n && b < n);
            }
        }
        assert forall|c1: int, c2: int, i: int, j: int|
            0 <= c1 < out@.len() && 0 <= c2 < out@.len() && c1 != c2
            && 0 <= i < out@[c1].nodes@.len() && 0 <= j < out@[c2].nodes@.len()
            implies (#[trigger] out@[c1].nodes@[i])@ != (#[trigger] out@[c2].nodes@[j])@ by {
            let a = st.cycles@[c1]@[i];
            let b = st.cycles@[c2]@[j];
            assert(st.cycles@[c1]@.disjoint(st.cycles@[c2]@));
            assert(a != b);
            assert(a < n && b < n);
        }
        assert forall|k: int, i: int| 0 <= k < out@.len() && 0 <= i < out@[k].nodes@.len()
            implies is_graph_id(nodes@, edges@, (#[trigger] out@[k].nodes@[i])@) by {
            assert(st.cycles@[k]@[i] < n);
        }
        if deadline.never_expires() {
            assert forall|k: int, i: int, j: int|
                0 <= k < out@.len() && 0 <= i < out@[k].nodes@.len() && 0 <= j < out@[k].nodes@.len() implies depends_on(
                edges@,
                (#[trigger] out@[k].nodes@[i])@,
                (#[trigger] out@[k].nodes@[j])@,
            ) by {
                let u = st.cycles@[k]@[i];
                let v = st.cycles@[k]@[j];
                assert(reaches(adj@, u, v));
                lemma_reaches_depends(edges@, ids@, adj@, u, v);
            }
        }
        if deadline.never_expires() {
            // a reported cycle holds its whole component
            assert forall|c: int, i: int, y: Seq<char>|
                #![trigger depends_on(edges@, out@[c].nodes@[i]@, y)]
                0 <= c < out@.len() && 0 <= i < out@[c].nodes@.len() && depends_on(edges@, out@[c].nodes@[i]@, y)
                    && depends_on(edges@, y, out@[c].nodes@[i]@) implies exists|j: int|
                0 <= j < out@[c].nodes@.len() && (#[trigger] out@[c].nodes@[j])@ == y by {
                let u = st.cycles@[c]@[i];
                assert(u < n);
                assert(out@[c].nodes@[i] == ids@[u as int]);
                let pw = choose|pw: Seq<Seq<char>>| #[trigger] is_id_walk(edges@, pw) && pw[0] == out@[c].nodes@[i]@ && pw.last() == y;
                let v = lemma_depends_reaches(edges@, ids@, adj@, pw, u);
                let pw2 = choose|pw2: Seq<Seq<char>>| #[trigger] is_id_walk(edges@, pw2) && pw2[0] == y && pw2.last() == out@[c].nodes@[i]@;
                let u2 = lemma_depends_reaches(edges@, ids@, adj@, pw2, v);
                assert(u2 == u) by {
                    if u2 != u {
                        assert(ids@[u2 as int]@ != ids@[u as int]@);
                    }
                }
                assert(mutual(adj@, u, v));
                assert(st.cycles@[c]@.contains(v));
                let j = choose|j: int| 0 <= j < st.cycles@[c]@.len() && st.cycles@[c]@[j] == v;
                assert(out@[c].nodes@[j] == ids@[v as int]);
            }
            let groups = cycle_groups(out@);
            assert(groups.len() == out@.len());
            assert forall|g: int, a: int| 0 <= g < groups.len() && 0 <= a < groups[g].len() implies #[trigger] groups[g][a] == out@[g].nodes@[a]@ by {
            }
            assert forall|g: int| 0 <= g < groups.len() implies (#[trigger] groups[g]).len() >= 2 by {
                assert(groups[g].len() == out@[g].nodes@.len());
            }
            assert forall|g: int, a: int, b: int|
                0 <= g < groups.len() && 0 <= a < groups[g].len() && 0 <= b < groups[g].len() implies depends_on(
                    edges@,
                    #[trigger] groups[g][a],
                    #[trigger] groups[g][b],
                ) by {
                assert(groups[g][a] == out@[g].nodes@[a]@);
                assert(groups[g][b] == out@[g].nodes@[b]@);
            }
            assert forall|g: int, a: int, y: Seq<char>|
                0 <= g < groups.len() && 0 <= a < groups[g].len() && #[trigger] depends_on(edges@, groups[g][a], y) && depends_on(
                    edges@,
                    y,
                    groups[g][a],
                ) implies groups[g].contains(y) by {
                assert(groups[g][a] == out@[g].nodes@[a]@);
                assert(depends_on(edges@, out@[g].nodes@[a]@, y));
                let j = choose|j: int| 0 <= j < out@[g].nodes@.len() && (#[trigger] out@[g].nodes@[j])@ == y;
                assert(groups[g][j] == y);
            }
            assert forall|g1: int, g2: int, a: int, b: int|
                0 <= g1 < groups.len() && 0 <= g2 < groups.len() && g1 != g2 && 0 <= a < groups[g1].len() && 0 <= b
                    < groups[g2].len() implies #[trigger] groups[g1][a] != #[trigger] groups[g2][b] by {
                assert(groups[g1][a] == out@[g1].nodes@[a]@);
                assert(groups[g2][b] == out@[g2].nodes@[b]@);
            }
            assert(are_components(edges@, groups));
        }
        if deadline.never_expires() && out@.len() < MAX_CYCLES {
            assert(searching(deadline, st));
            // every listed node lies in the cycle of its component
            assert(st.stack@.len() == 0);
            assert forall|a: int, x: Seq<char>|
                0 <= a < nodes@.len() && x != nodes@[a].0@ && #[trigger] depends_on(edges@, nodes@[a].0@, x) && depends_on(
                    edges@,
                    x,
                    nodes@[a].0@,
                ) implies exists|c: int, i: int, j: int|
                0 <= c < out@.len() && 0 <= i < out@[c].nodes@.len() && 0 <= j < out@[c].nodes@.len()
                    && (#[trigger] out@[c].nodes@[i])@ == nodes@[a].0@ && (#[trigger] out@[c].nodes@[j])@ == x by {
                assert(has_id(ids@, nodes@[a].0@));
                let u = choose|u: int| 0 <= u < ids@.len() && (#[trigger] ids@[u])@ == nodes@[a].0@;
                let pw = choose|pw: Seq<Seq<char>>| #[trigger] is_id_walk(edges@, pw) && pw[0] == nodes@[a].0@ && pw.last() == x;
                let v = lemma_depends_reaches(edges@, ids@, adj@, pw, u as usize);
                let pw2 = choose|pw2: Seq<Seq<char>>| #[trigger] is_id_walk(edges@, pw2) && pw2[0] == x && pw2.last() == nodes@[a].0@;
                let u2 = lemma_depends_reaches(edges@, ids@, adj@, pw2, v);
                assert(u2 == u as usize) by {
                    if u2 != u as usize {
                        assert(ids@[u2 as int]@ != ids@[u]@);
                    }
                }
                assert(v != u as usize);
                assert(mutual(adj@, u as usize, v));
                assert(st.index@[u] is Some);
                assert(!st.on_stack@[u]) by {
                    assert(!st.stack@.contains(u as usize));
                }
                assert(st.closed(u as usize));
                assert(together(st.cycles@, u as usize, v));
                let c = choose|c: int| 0 <= c < st.cycles@.len() && (#[trigger] st.cycles@[c])@.contains(u as usize) && st.cycles@[c]@.contains(v);
                let i = choose|i: int| 0 <= i < st.cycles@[c]@.len() && st.cycles@[c]@[i] == u as usize;
                let j = choose|j: int| 0 <= j < st.cycles@[c]@.len() && st.cycles@[c]@[j] == v;
                assert(out@[c].nodes@[i] == ids@[u]);
                assert(out@[c].nodes@[j] == ids@[v as int]);
            }
            // so does every node reached from a listed one
            assert(successor_closed(adj@, |z: usize| st.closed(z)));
            assert forall|a: int, y: Seq<char>, x: Seq<char>|
                0 <= a < nodes@.len() && #[trigger] depends_on(edges@, nodes@[a].0@, y) && x != y
                    && #[trigger] depends_on(edges@, y, x) && depends_on(edges@, x, y)
                implies exists|c: int, i: int, j: int|
                0 <= c < out@.len() && 0 <= i < out@[c].nodes@.len() && 0 <= j < out@[c].nodes@.len()
                    && (#[trigger] out@[c].nodes@[i])@ == y && (#[trigger] out@[c].nodes@[j])@ == x by {
                assert(has_id(ids@, nodes@[a].0@));
                let u = choose|u: int| 0 <= u < ids@.len() && (#[trigger] ids@[u])@ == nodes@[a].0@;
                let pw0 = choose|pw: Seq<Seq<char>>| #[trigger] is_id_walk(edges@, pw) && pw[0] == nodes@[a].0@ && pw.last() == y;
                let w = lemma_depends_reaches(edges@, ids@, adj@, pw0, u as usize);
                let pw = choose|pw: Seq<Seq<char>>| #[trigger] is_id_walk(edges@, pw) && pw[0] == y && pw.last() == x;
                let v = lemma_depends_reaches(edges@, ids@, adj@, pw, w);
                let pw2 = choose|pw2: Seq<Seq<char>>| #[trigger] is_id_walk(edges@, pw2) && pw2[0] == x && pw2.last() == y;
                let w2 = lemma_depends_reaches(edges@, ids@, adj@, pw2, v);
                assert(w2 == w) by {
                    if w2 != w {
                        assert(ids@[w2 as int]@ != ids@[w as int]@);
                    }
                }
                assert(v != w);
                assert(mutual(adj@, w, v));
                assert(st.index@[u] is Some);
                assert(!st.on_stack@[u]) by {
                    assert(!st.stack@.contains(u as usize));
                }
                assert(st.closed(u as usize));
                lemma_closure(adj@, |z: usize| st.closed(z), u as usize, w);
                assert(st.closed(w));
                assert(together(st.cycles@, w, v));
                let c = choose|c: int| 0 <= c < st.cycles@.len() && (#[trigger] st.cycles@[c])@.contains(w) && st.cycles@[c]@.contains(v);
                let i = choose|i: int| 0 <= i < st.cycles@[c]@.len() && st.cycles@[c]@[i] == w;
                let j = choose|j: int| 0 <= j < st.cycles@[c]@.len() && st.cycles@[c]@[j] == v;
                assert(out@[c].nodes@[i] == ids@[w as int]);
                assert(out@[c].nodes@[j] == ids@[v as int]);
            }
        }
    }
    out
}

} // verus!
