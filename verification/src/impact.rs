//! Change impact: which files are affected, directly or transitively, when a
//! file changes. The traversal follows import edges backwards (from a file
//! to the files that import it) breadth first, level by level, up to a
//! maximum depth.

use vstd::prelude::*;
use crate::cycles::{distinct_views, find_id};
use crate::ai::{join_strings, join_with, string_views};
use crate::text::{append_str, decimal, lists, push_decimal, sorted_unique, str_eq, strictly_sorted};

verus! {

/// Configuration for impact analysis.
#[derive(Debug, Clone)]
pub struct ImpactConfig {
    /// Maximum traversal depth.
    pub max_depth: usize,
}

impl Default for ImpactConfig {
    fn default() -> (r: Self)
        ensures
            r.max_depth == 10,
    {
        ImpactConfig { max_depth: 10 }
    }
}

/// Row `i` of `imports` says that `s` imports the resolved file `t`.
pub open spec fn edge_at(imports: Seq<(String, Option<String>)>, i: int, s: Seq<char>, t: Seq<char>) -> bool {
    &&& 0 <= i < imports.len()
    &&& imports[i].0@ == s
    &&& imports[i].1 is Some
    &&& imports[i].1->0@ == t
}

/// `s` imports `t` according to some row of `imports`.
pub open spec fn imports_edge(imports: Seq<(String, Option<String>)>, s: Seq<char>, t: Seq<char>) -> bool {
    exists|i: int| #[trigger] edge_at(imports, i, s, t)
}

/// There is a chain of `d` import edges leading from `v` back to `start`:
/// `v` depends on `start` at distance `d`.
pub open spec fn has_path(imports: Seq<(String, Option<String>)>, start: Seq<char>, v: Seq<char>, d: nat) -> bool
    decreases d,
{
    if d == 0 {
        v == start
    } else {
        exists|u: Seq<char>| has_path(imports, start, u, (d - 1) as nat) && #[trigger] imports_edge(imports, v, u)
    }
}


/// `v` depends on `start` by a chain of at most `d` import edges.
pub open spec fn within(imports: Seq<(String, Option<String>)>, start: Seq<char>, v: Seq<char>, d: nat) -> bool {
    exists|k: nat| k <= d && #[trigger] has_path(imports, start, v, k)
}

/// The shortest chain of import edges from `v` back to `start` has `d`
/// edges.
pub open spec fn distance_is(imports: Seq<(String, Option<String>)>, start: Seq<char>, v: Seq<char>, d: nat) -> bool {
    &&& has_path(imports, start, v, d)
    &&& forall|k: nat| k < d ==> !#[trigger] has_path(imports, start, v, k)
}

/// What the breadth-first traversal from `start` gives: each file whose
/// distance to `start` is between 1 and `max_depth`, once, with that
/// distance, nearer files first.
pub open spec fn traversal_ok(
    imports: Seq<(String, Option<String>)>,
    start: Seq<char>,
    max_depth: nat,
    affected: Seq<String>,
    depths: Seq<usize>,
) -> bool {
    &&& affected.len() == depths.len()
    &&& distinct_views(affected)
    &&& forall|k: int| 0 <= k < depths.len() ==> 1 <= #[trigger] depths[k] <= max_depth
    &&& forall|k: int| 0 <= k < affected.len() ==> distance_is(imports, start, (#[trigger] affected[k])@, depths[k] as nat)
    &&& forall|k1: int, k2: int| 0 <= k1 < k2 < depths.len() ==> #[trigger] depths[k1] <= #[trigger] depths[k2]
    &&& forall|y: Seq<char>| y != start && #[trigger] within(imports, start, y, max_depth) ==> lists(affected, y)
}

/// Files affected by a change, with the depth at which each was reached.
#[derive(Debug, Clone)]
pub struct ImpactTraversal {
    /// Affected files, in visiting order.
    pub affected: Vec<String>,
    /// Depth at which each affected file was reached.
    pub depths: Vec<usize>,
}

proof fn lemma_path_step(imports: Seq<(String, Option<String>)>, start: Seq<char>, u: Seq<char>, v: Seq<char>, d: nat)
    requires
        has_path(imports, start, u, d),
        imports_edge(imports, v, u),
    ensures
        has_path(imports, start, v, d + 1),
{
    assert(has_path(imports, start, u, ((d + 1) - 1) as nat));
}

/// A file at some distance has a shortest one.
proof fn lemma_min_distance(imports: Seq<(String, Option<String>)>, start: Seq<char>, y: Seq<char>, k: nat) -> (m: nat)
    requires
        has_path(imports, start, y, k),
    ensures
        m <= k,
        distance_is(imports, start, y, m),
    decreases k,
{
    if exists|k2: nat| k2 < k && #[trigger] has_path(imports, start, y, k2) {
        let k2 = choose|k2: nat| k2 < k && #[trigger] has_path(imports, start, y, k2);
        lemma_min_distance(imports, start, y, k2)
    } else {
        k
    }
}

/// A shortest chain passes, one edge nearer, a file at distance one less.
proof fn lemma_step_down(imports: Seq<(String, Option<String>)>, start: Seq<char>, y: Seq<char>, m: nat) -> (u: Seq<char>)
    requires
        distance_is(imports, start, y, m),
        m > 0,
    ensures
        distance_is(imports, start, u, (m - 1) as nat),
{
    let u = choose|u: Seq<char>| has_path(imports, start, u, (m - 1) as nat) && #[trigger] imports_edge(imports, y, u);
    assert forall|k: nat| k < m - 1 implies !#[trigger] has_path(imports, start, u, k) by {
        if has_path(imports, start, u, k) {
            lemma_path_step(imports, start, u, y, k);
        }
    }
    u
}

/// Below a file at distance `m`, every distance `l <= m` is taken by some
/// file.
proof fn lemma_level_taken(imports: Seq<(String, Option<String>)>, start: Seq<char>, y: Seq<char>, m: nat, l: nat) -> (u: Seq<char>)
    requires
        distance_is(imports, start, y, m),
        l <= m,
    ensures
        distance_is(imports, start, u, l),
    decreases m - l,
{
    if m == l {
        y
    } else {
        let x = lemma_step_down(imports, start, y, m);
        lemma_level_taken(imports, start, x, (m - 1) as nat, l)
    }
}

proof fn lemma_lists_prefix(a: Seq<String>, b: Seq<String>, y: Seq<char>)
    requires
        a.len() <= b.len(),
        forall|k: int| 0 <= k < a.len() ==> b[k] == a[k],
        lists(a, y),
    ensures
        lists(b, y),
{
    let k = choose|k: int| 0 <= k < a.len() && (#[trigger] a[k])@ == y;
    assert(b[k] == a[k]);
}

/// Every file that imports `f` has been visited.
pub open spec fn importers_seen(imports: Seq<(String, Option<String>)>, start: Seq<char>, affected: Seq<String>, f: Seq<char>) -> bool {
    forall|y: Seq<char>| #[trigger] imports_edge(imports, y, f) ==> y == start || lists(affected, y)
}

/// Visits, breadth first, the files that import `start` directly or
/// transitively, never deeper than `max_depth`: level by level, each file the
/// first time a chain from `start` reaches it. `start` itself is not
/// reported.
pub fn traverse_dependents(imports: &Vec<(String, Option<String>)>, start: &str, max_depth: usize) -> (r: ImpactTraversal)
    ensures
        traversal_ok(imports@, start@, max_depth as nat, r.affected@, r.depths@),
{
    let mut affected: Vec<String> = Vec::new();
    let mut depths: Vec<usize> = Vec::new();
    let mut frontier: Vec<String> = Vec::new();
    frontier.push(start.to_owned());
    let mut level: usize = 0;
    proof {
        assert(has_path(imports@, start@, start@, 0));
        assert forall|y: Seq<char>| #[trigger] distance_is(imports@, start@, y, 0) implies lists(frontier@, y) by {
            assert(frontier@[0]@ == start@);
        }
        assert forall|y: Seq<char>| y != start@ && #[trigger] within(imports@, start@, y, 0) implies lists(affected@, y) by {
            let k = choose|k: nat| k <= 0 && #[trigger] has_path(imports@, start@, y, k);
        }
    }
    while level < max_depth && frontier.len() > 0
        invariant
            level <= max_depth,
            affected@.len() == depths@.len(),
            distinct_views(affected@),
            forall|k: int| 0 <= k < depths@.len() ==> 1 <= #[trigger] depths@[k] <= level,
            forall|k: int| 0 <= k < affected@.len() ==> distance_is(imports@, start@, (#[trigger] affected@[k])@, depths@[k] as nat),
            forall|k1: int, k2: int| 0 <= k1 < k2 < depths@.len() ==> #[trigger] depths@[k1] <= #[trigger] depths@[k2],
            forall|y: Seq<char>| y != start@ && #[trigger] within(imports@, start@, y, level as nat) ==> lists(affected@, y),
            forall|j: int| 0 <= j < frontier@.len() ==> distance_is(imports@, start@, (#[trigger] frontier@[j])@, level as nat),
            forall|y: Seq<char>| #[trigger] distance_is(imports@, start@, y, level as nat) ==> lists(frontier@, y),
        decreases max_depth - level,
    {
        let ghost aff0 = affected@;
        let ghost dep0 = depths@;
        let mut next: Vec<String> = Vec::new();
        let mut a: usize = 0;
        while a < frontier.len()
            invariant
                level < max_depth,
                affected@.len() == depths@.len(),
                affected@ == aff0 + next@,
                depths@.len() == dep0.len() + next@.len(),
                forall|k: int| 0 <= k < dep0.len() ==> depths@[k] == dep0[k],
                forall|k: int| dep0.len() <= k < depths@.len() ==> depths@[k] == level + 1,
                distinct_views(affected@),
                forall|k: int| 0 <= k < dep0.len() ==> 1 <= #[trigger] dep0[k] <= level,
                forall|k: int| 0 <= k < aff0.len() ==> distance_is(imports@, start@, (#[trigger] aff0[k])@, dep0[k] as nat),
                forall|k1: int, k2: int| 0 <= k1 < k2 < dep0.len() ==> #[trigger] dep0[k1] <= #[trigger] dep0[k2],
                forall|y: Seq<char>| y != start@ && #[trigger] within(imports@, start@, y, level as nat) ==> lists(aff0, y),
                forall|j: int| 0 <= j < frontier@.len() ==> distance_is(imports@, start@, (#[trigger] frontier@[j])@, level as nat),
                forall|j: int| 0 <= j < next@.len() ==> distance_is(imports@, start@, (#[trigger] next@[j])@, (level + 1) as nat),
                a <= frontier@.len(),
                forall|a2: int| 0 <= a2 < a ==> importers_seen(imports@, start@, affected@, (#[trigger] frontier@[a2])@),
            decreases frontier@.len() - a,
        {
            let f = &frontier[a];
            let ghost aff_a = affected@;
            let mut i: usize = 0;
            while i < imports.len()
                invariant
                    level < max_depth,
                    a < frontier@.len(),
                    f == frontier@[a as int],
                    affected@.len() == depths@.len(),
                    affected@ == aff0 + next@,
                    depths@.len() == dep0.len() + next@.len(),
                    forall|k: int| 0 <= k < dep0.len() ==> depths@[k] == dep0[k],
                    forall|k: int| dep0.len() <= k < depths@.len() ==> depths@[k] == level + 1,
                    distinct_views(affected@),
                    forall|y: Seq<char>| y != start@ && #[trigger] within(imports@, start@, y, level as nat) ==> lists(aff0, y),
                    distance_is(imports@, start@, f@, level as nat),
                    forall|j: int| 0 <= j < next@.len() ==> distance_is(imports@, start@, (#[trigger] next@[j])@, (level + 1) as nat),
                    aff_a.len() <= affected@.len(),
                    forall|k: int| 0 <= k < aff_a.len() ==> affected@[k] == aff_a[k],
                    forall|a2: int| 0 <= a2 < a ==> importers_seen(imports@, start@, aff_a, (#[trigger] frontier@[a2])@),
                    i <= imports@.len(),
                    forall|i2: int, y: Seq<char>| 0 <= i2 < i && #[trigger] edge_at(imports@, i2, y, f@) ==> y == start@ || lists(affected@, y),
                decreases imports@.len() - i,
            {
                let ghost before = affected@;
                let ghost next_before = next@;
                if let Some(t) = &imports[i].1 {
                    if t.eq(f) {
                        let s = &imports[i].0;
                        let seen = str_eq(s.as_str(), start) || find_id(&affected, s).is_some();
                        if !seen {
                            proof {
                                assert(edge_at(imports@, i as int, s@, f@));
                                lemma_path_step(imports@, start@, f@, s@, level as nat);
                                assert forall|k: nat| k < level + 1 implies !#[trigger] has_path(imports@, start@, s@, k) by {
                                    if has_path(imports@, start@, s@, k) {
                                        assert(within(imports@, start@, s@, level as nat));
                                        let k0 = choose|k0: int| 0 <= k0 < aff0.len() && (#[trigger] aff0[k0])@ == s@;
                                        assert(affected@[k0] == aff0[k0]);
                                    }
                                }
                            }
                            affected.push(s.clone());
                            depths.push(level + 1);
                            next.push(s.clone());
                            proof {
                                assert(affected@ =~= aff0 + next@);
                                assert(affected@[affected@.len() - 1]@ == s@);
                                assert forall|x: int, z: int| 0 <= x < affected@.len() && 0 <= z < affected@.len() && x != z
                                    implies (#[trigger] affected@[x])@ != (#[trigger] affected@[z])@ by {
                                    if x < before.len() && z < before.len() {
                                        assert(affected@[x] == before[x] && affected@[z] == before[z]);
                                    } else if x < before.len() {
                                        assert(affected@[x] == before[x]);
                                    } else if z < before.len() {
                                        assert(affected@[z] == before[z]);
                                    }
                                }
                            }
                        }
                    }
                }
                proof {
                    assert forall|i2: int, y: Seq<char>| 0 <= i2 < i + 1 && #[trigger] edge_at(imports@, i2, y, f@)
                        implies y == start@ || lists(affected@, y) by {
                        if i2 < i {
                            if lists(before, y) {
                                lemma_lists_prefix(before, affected@, y);
                            }
                        } else if !(y == start@) {
                            if lists(before, y) {
                                lemma_lists_prefix(before, affected@, y);
                            } else {
                                assert(affected@[affected@.len() - 1]@ == y);
                            }
                        }
                    }
                    assert forall|j: int| 0 <= j < next@.len() implies distance_is(imports@, start@, (#[trigger] next@[j])@, (level + 1) as nat) by {
                        if j < next_before.len() {
                            assert(next@[j] == next_before[j]);
                        }
                    }
                }
                i = i + 1;
            }
            proof {
                assert(importers_seen(imports@, start@, affected@, f@)) by {
                    assert forall|y: Seq<char>| #[trigger] imports_edge(imports@, y, f@) implies y == start@ || lists(affected@, y) by {
                        let i2 = choose|i2: int| #[trigger] edge_at(imports@, i2, y, f@);
                        assert(edge_at(imports@, i2, y, f@));
                    }
                }
                assert forall|a2: int| 0 <= a2 < a + 1 implies importers_seen(imports@, start@, affected@, (#[trigger] frontier@[a2])@) by {
                    if a2 < a {
                        assert forall|y: Seq<char>| #[trigger] imports_edge(imports@, y, frontier@[a2]@) implies y == start@ || lists(affected@, y) by {
                            assert(importers_seen(imports@, start@, aff_a, frontier@[a2]@));
                            if lists(aff_a, y) {
                                lemma_lists_prefix(aff_a, affected@, y);
                            }
                        }
                    }
                }
            }
            a = a + 1;
        }
        proof {
            let lv = level as nat;
            // everything listed before this level lies within it
            assert forall|y: Seq<char>| lists(aff0, y) implies within(imports@, start@, y, lv) by {
                let k = choose|k: int| 0 <= k < aff0.len() && (#[trigger] aff0[k])@ == y;
                assert(has_path(imports@, start@, y, dep0[k] as nat));
            }
            // what is within one more level is listed
            assert forall|y: Seq<char>| y != start@ && #[trigger] within(imports@, start@, y, lv + 1) implies lists(affected@, y) by {
                let k = choose|k: nat| k <= lv + 1 && #[trigger] has_path(imports@, start@, y, k);
                if k <= lv {
                    assert(within(imports@, start@, y, lv));
                    lemma_lists_prefix(aff0, affected@, y);
                } else {
                    let u = choose|u: Seq<char>| has_path(imports@, start@, u, lv) && #[trigger] imports_edge(imports@, y, u);
                    if exists|k2: nat| k2 < lv && #[trigger] has_path(imports@, start@, u, k2) {
                        let k2 = choose|k2: nat| k2 < lv && #[trigger] has_path(imports@, start@, u, k2);
                        lemma_path_step(imports@, start@, u, y, k2);
                        assert(within(imports@, start@, y, lv));
                        lemma_lists_prefix(aff0, affected@, y);
                    } else {
                        assert(distance_is(imports@, start@, u, lv));
                        let a2 = choose|a2: int| 0 <= a2 < frontier@.len() && (#[trigger] frontier@[a2])@ == u;
                        assert(importers_seen(imports@, start@, affected@, frontier@[a2]@));
                    }
                }
            }
            // the next frontier holds every file at the next distance
            assert forall|y: Seq<char>| #[trigger] distance_is(imports@, start@, y, lv + 1) implies lists(next@, y) by {
                assert(has_path(imports@, start@, start@, 0));
                assert(y != start@);
                assert(within(imports@, start@, y, lv + 1));
                let k = choose|k: int| 0 <= k < affected@.len() && (#[trigger] affected@[k])@ == y;
                if k < aff0.len() {
                    assert(affected@[k] == aff0[k]);
                    assert(has_path(imports@, start@, y, dep0[k] as nat));
                } else {
                    assert(next@[k - aff0.len()] == affected@[k]);
                }
            }
            assert forall|k: int| 0 <= k < depths@.len() implies 1 <= #[trigger] depths@[k] <= lv + 1 by {
                if k < dep0.len() {
                    assert(depths@[k] == dep0[k]);
                }
            }
            assert forall|k1: int, k2: int| 0 <= k1 < k2 < depths@.len() implies #[trigger] depths@[k1] <= #[trigger] depths@[k2] by {
                if k2 < dep0.len() {
                    assert(depths@[k1] == dep0[k1] && depths@[k2] == dep0[k2]);
                } else if k1 < dep0.len() {
                    assert(depths@[k1] == dep0[k1]);
                }
            }
            assert forall|k: int| 0 <= k < affected@.len() implies distance_is(imports@, start@, (#[trigger] affected@[k])@, depths@[k] as nat) by {
                if k < aff0.len() {
                    assert(affected@[k] == aff0[k]);
                } else {
                    assert(next@[k - aff0.len()] == affected@[k]);
                }
            }
        }
        frontier = next;
        level = level + 1;
    }
    proof {
        if level < max_depth {
            assert forall|y: Seq<char>| y != start@ && #[trigger] within(imports@, start@, y, max_depth as nat) implies lists(affected@, y) by {
                let k = choose|k: nat| k <= max_depth && #[trigger] has_path(imports@, start@, y, k);
                let m = lemma_min_distance(imports@, start@, y, k);
                if m <= level {
                    assert(within(imports@, start@, y, level as nat));
                } else {
                    let u = lemma_level_taken(imports@, start@, y, m, level as nat);
                    let j = choose|j: int| 0 <= j < frontier@.len() && (#[trigger] frontier@[j])@ == u;
                }
            }
        }
    }
    ImpactTraversal { affected, depths }
}

/// The traversal reports exactly the files other than `start` that depend
/// on `start` by a chain of at most `max_depth` import edges.
pub proof fn lemma_traversal_is_exact(
    imports: Seq<(String, Option<String>)>,
    start: Seq<char>,
    max_depth: nat,
    affected: Seq<String>,
    depths: Seq<usize>,
    v: Seq<char>,
)
    requires
        traversal_ok(imports, start, max_depth, affected, depths),
    ensures
        lists(affected, v) <==> (v != start && within(imports, start, v, max_depth)),
{
    if lists(affected, v) {
        let k = choose|k: int| 0 <= k < affected.len() && (#[trigger] affected[k])@ == v;
        assert(has_path(imports, start, v, depths[k] as nat));
        assert(within(imports, start, v, max_depth));
        assert(has_path(imports, start, start, 0));
    }
}

// ── Explanation ─────────────────────────────────────────────────────────────

/// Number of affected files reached at depth `d`.
pub open spec fn level_count(depths: Seq<usize>, d: usize) -> nat
    decreases depths.len(),
{
    if depths.len() == 0 {
        0
    } else {
        level_count(depths.drop_last(), d) + if depths.last() == d { 1nat } else { 0nat }
    }
}

/// The entry of the distribution for depth `d`:
/// "<count> archivo(s) a <d> nivel(es)".
pub open spec fn level_text(depths: Seq<usize>, d: usize) -> Seq<char> {
    decimal(level_count(depths, d)) + " archivo(s) a "@ + decimal(d as nat) + " nivel(es)"@
}

/// `levels` holds, in increasing order and once each, the distribution
/// entries of the depths reached.
pub open spec fn level_list(depths: Seq<usize>, levels: Seq<String>) -> bool {
    &&& strictly_sorted(levels)
    &&& forall|x: Seq<char>|
        lists(levels, x) <==> exists|k: int| 0 <= k < depths.len() && x == level_text(depths, #[trigger] depths[k])
}

/// The explanation of a change that affects files.
pub open spec fn impact_text(node_id: Seq<char>, affected: nat, levels: Seq<String>) -> Seq<char> {
    "El cambio en '"@ + node_id + "' afecta "@ + decimal(affected) + " archivo(s) en "@ + decimal(levels.len())
        + " niveles. Distribución: "@ + join_with(string_views(levels), ", "@) + "."@
}

/// The explanation of a change that affects no file.
pub open spec fn no_impact_text(node_id: Seq<char>) -> Seq<char> {
    "El archivo '"@ + node_id + "' no tiene dependencias dependientes en el grafo de imports."@
}

fn count_level(depths: &Vec<usize>, d: usize) -> (r: usize)
    ensures
        r == level_count(depths@, d),
{
    let mut n: usize = 0;
    let mut i: usize = 0;
    assert(depths@.take(0) =~= Seq::<usize>::empty());
    while i < depths.len()
        invariant
            i <= depths@.len(),
            n == level_count(depths@.take(i as int), d),
            n <= i,
        decreases depths@.len() - i,
    {
        assert(depths@.take(i + 1).drop_last() =~= depths@.take(i as int));
        if depths[i] == d {
            n = n + 1;
        }
        i = i + 1;
    }
    assert(depths@.take(i as int) =~= depths@);
    n
}

/// The explanation of an impact: how many files are affected, and how many
/// at each depth, the entries in increasing order of their text.
pub fn impact_explanation(node_id: &str, depths: &Vec<usize>) -> (r: String)
    ensures
        depths@.len() == 0 ==> r@ == no_impact_text(node_id@),
        depths@.len() > 0 ==> exists|levels: Seq<String>|
            level_list(depths@, levels) && r@ == impact_text(node_id@, depths@.len(), levels),
{
    let mut r = String::new();
    if depths.len() == 0 {
        append_str(&mut r, "El archivo '");
        append_str(&mut r, node_id);
        append_str(&mut r, "' no tiene dependencias dependientes en el grafo de imports.");
        assert(r@ =~= no_impact_text(node_id@));
        return r;
    }
    let mut texts: Vec<String> = Vec::new();
    let mut k: usize = 0;
    while k < depths.len()
        invariant
            k <= depths@.len(),
            texts@.len() == k,
            forall|q: int| 0 <= q < k ==> (#[trigger] texts@[q])@ == level_text(depths@, depths@[q]),
        decreases depths@.len() - k,
    {
        let d = depths[k];
        let c = count_level(depths, d);
        let mut t = String::new();
        push_decimal(&mut t, c as u64);
        append_str(&mut t, " archivo(s) a ");
        push_decimal(&mut t, d as u64);
        append_str(&mut t, " nivel(es)");
        assert(t@ =~= level_text(depths@, d));
        texts.push(t);
        k = k + 1;
    }
    let levels = sorted_unique(&texts);
    proof {
        assert forall|x: Seq<char>|
            lists(levels@, x) <==> exists|j: int| 0 <= j < depths@.len() && x == level_text(depths@, #[trigger] depths@[j]) by {
            if lists(texts@, x) {
                let q = choose|q: int| 0 <= q < texts@.len() && (#[trigger] texts@[q])@ == x;
                assert(x == level_text(depths@, depths@[q]));
            }
            if exists|j: int| 0 <= j < depths@.len() && x == level_text(depths@, #[trigger] depths@[j]) {
                let j = choose|j: int| 0 <= j < depths@.len() && x == level_text(depths@, #[trigger] depths@[j]);
                assert(texts@[j]@ == x);
            }
        }
    }
    let joined = join_strings(levels.as_slice(), ", ");
    append_str(&mut r, "El cambio en '");
    append_str(&mut r, node_id);
    append_str(&mut r, "' afecta ");
    push_decimal(&mut r, depths.len() as u64);
    append_str(&mut r, " archivo(s) en ");
    push_decimal(&mut r, levels.len() as u64);
    append_str(&mut r, " niveles. Distribución: ");
    append_str(&mut r, joined.as_str());
    append_str(&mut r, ".");
    assert(r@ =~= impact_text(node_id@, depths@.len(), levels@));
    assert(level_list(depths@, levels@));
    r
}

} // verus!
