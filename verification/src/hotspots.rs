//! Hotspot ranking: nodes ordered by coupling degree (in + out edges).

use vstd::prelude::*;
use crate::text::{decimal, push_decimal, append_str};

verus! {

/// A node flagged for its coupling.
#[derive(Debug, Clone)]
pub struct Hotspot {
    /// Node identifier.
    pub node_id: String,
    /// Coupling degree: number of edges in which the node is source or target.
    pub degree: usize,
    /// Human-readable reason for the flag.
    pub reason: String,
}

/// Number of edges whose source (`out`) or target (`!out`) is `id`.
pub open spec fn count_endpoint(edges: Seq<(String, String)>, id: Seq<char>, out: bool) -> nat
    decreases edges.len(),
{
    if edges.len() == 0 {
        0
    } else {
        count_endpoint(edges.drop_last(), id, out) + if (if out { edges.last().0@ } else { edges.last().1@ }) == id {
            1nat
        } else {
            0nat
        }
    }
}

/// Coupling degree of `id`: edges leaving it plus edges entering it.
pub open spec fn degree_of(edges: Seq<(String, String)>, id: Seq<char>) -> nat {
    count_endpoint(edges, id, true) + count_endpoint(edges, id, false)
}

proof fn lemma_count_le(edges: Seq<(String, String)>, id: Seq<char>, out: bool)
    ensures
        count_endpoint(edges, id, out) <= edges.len(),
    decreases edges.len(),
{
    if edges.len() > 0 {
        lemma_count_le(edges.drop_last(), id, out);
    }
}

/// Coupling degree of `id` in `edges`.
pub fn coupling_degree(edges: &Vec<(String, String)>, id: &String) -> (d: usize)
    requires
        edges@.len() <= usize::MAX / 2,
    ensures
        d == degree_of(edges@, id@),
{
    let mut outs: usize = 0;
    let mut ins: usize = 0;
    let mut i: usize = 0;
    while i < edges.len()
        invariant
            i <= edges@.len(),
            edges@.len() <= usize::MAX / 2,
            outs == count_endpoint(edges@.take(i as int), id@, true),
            ins == count_endpoint(edges@.take(i as int), id@, false),
            outs <= i,
            ins <= i,
        decreases edges@.len() - i,
    {
        proof {
            assert(edges@.take(i + 1).drop_last() =~= edges@.take(i as int));
        }
        if edges[i].0.eq(id) {
            outs = outs + 1;
        }
        if edges[i].1.eq(id) {
            ins = ins + 1;
        }
        i = i + 1;
    }
    proof {
        assert(edges@.take(edges@.len() as int) =~= edges@);
    }
    outs + ins
}

/// Position `i` comes before position `j` in the ranking: higher degree first,
/// listing order among equal degrees.
pub open spec fn ranks_before(deg: Seq<usize>, i: int, j: int) -> bool {
    deg[i] > deg[j] || (deg[i] == deg[j] && i < j)
}

/// `order` lists every position of `deg` once, in ranking order.
pub open spec fn is_ranking(deg: Seq<usize>, order: Seq<usize>) -> bool {
    &&& order.len() == deg.len()
    &&& forall|k: int| 0 <= k < order.len() ==> (#[trigger] order[k]) < deg.len()
    &&& forall|a: int, b: int| 0 <= a < b < order.len() ==> ranks_before(deg, #[trigger] order[a] as int, #[trigger] order[b] as int)
}

/// Stable ranking of positions by descending degree.
pub fn rank_by_degree(deg: &Vec<usize>) -> (order: Vec<usize>)
    ensures
        is_ranking(deg@, order@),
{
    let mut order: Vec<usize> = Vec::new();
    let mut i: usize = 0;
    while i < deg.len()
        invariant
            i <= deg@.len(),
            order@.len() == i,
            forall|k: int| 0 <= k < order@.len() ==> (#[trigger] order@[k]) < i,
            forall|a: int, b: int| 0 <= a < b < order@.len() ==> ranks_before(deg@, #[trigger] order@[a] as int, #[trigger] order@[b] as int),
        decreases deg@.len() - i,
    {
        let mut p: usize = 0;
        while p < order.len() && deg[order[p]] >= deg[i]
            invariant
                i < deg@.len(),
                p <= order@.len(),
                forall|k: int| 0 <= k < order@.len() ==> (#[trigger] order@[k]) < i,
                forall|k: int| 0 <= k < p ==> deg@[#[trigger] order@[k] as int] >= deg@[i as int],
            decreases order@.len() - p,
        {
            p = p + 1;
        }
        let ghost before = order@;
        order.insert(p, i);
        proof {
            assert(order@ =~= before.insert(p as int, i));
            assert forall|a: int, b: int| 0 <= a < b < order@.len() implies ranks_before(deg@, #[trigger] order@[a] as int, #[trigger] order@[b] as int) by {
                if b < p {
                    assert(order@[a] == before[a] && order@[b] == before[b]);
                } else if b == p {
                    assert(order@[a] == before[a]);
                    assert(deg@[before[a] as int] >= deg@[i as int]);
                    assert(before[a] < i);
                } else if a == p {
                    assert(order@[b] == before[b - 1]);
                    if b - 1 == p as int {
                        assert(!(deg@[before[p as int] as int] >= deg@[i as int]));
                    } else {
                        assert(ranks_before(deg@, before[p as int] as int, before[b - 1] as int));
                        assert(!(deg@[before[p as int] as int] >= deg@[i as int]));
                    }
                } else if a < p {
                    assert(order@[a] == before[a] && order@[b] == before[b - 1]);
                } else {
                    assert(order@[a] == before[a - 1] && order@[b] == before[b - 1]);
                }
            }
        }
        i = i + 1;
    }
    order
}

/// Number of hotspots reported for a graph of `n` nodes when `count` are asked.
pub open spec fn hotspot_total(count: nat, n: nat) -> nat {
    let c = if count < 1 { 1 } else { count };
    if c < n { c } else { n }
}

/// The reason text attached to a hotspot of the given degree.
pub open spec fn hotspot_reason(degree: nat) -> Seq<char> {
    "Acoplamiento moderado: "@ + decimal(degree) + " conexiones"@
}

/// The degree of each listed node.
pub open spec fn node_degrees(nodes: Seq<(String, String)>, edges: Seq<(String, String)>) -> Seq<usize> {
    nodes.map_values(|p: (String, String)| degree_of(edges, p.0@) as usize)
}

/// `hs` lists the nodes at the first positions of the ranking `order`, with
/// their degrees and reasons.
pub open spec fn ranked_hotspots(
    nodes: Seq<(String, String)>,
    edges: Seq<(String, String)>,
    hs: Seq<Hotspot>,
    order: Seq<usize>,
) -> bool {
    &&& is_ranking(node_degrees(nodes, edges), order)
    &&& forall|k: int| 0 <= k < hs.len() ==> {
        &&& (#[trigger] hs[k]).node_id@ == nodes[order[k] as int].0@
        &&& hs[k].degree == degree_of(edges, nodes[order[k] as int].0@)
        &&& hs[k].reason@ == hotspot_reason(hs[k].degree as nat)
    }
}

/// Flags the top `count` nodes (at least one, at most all) by coupling degree,
/// in ranking order: higher degree first, listing order among ties.
pub fn detect_hotspots(nodes: &Vec<(String, String)>, edges: &Vec<(String, String)>, count: usize) -> (hs: Vec<Hotspot>)
    requires
        edges@.len() <= usize::MAX / 2,
    ensures
        hs@.len() == hotspot_total(count as nat, nodes@.len()),
        exists|order: Seq<usize>| #[trigger] ranked_hotspots(nodes@, edges@, hs@, order),
{
    let ghost degs = node_degrees(nodes@, edges@);
    let mut deg: Vec<usize> = Vec::new();
    let mut i: usize = 0;
    while i < nodes.len()
        invariant
            i <= nodes@.len(),
            edges@.len() <= usize::MAX / 2,
            deg@.len() == i,
            degs == node_degrees(nodes@, edges@),
            forall|k: int| 0 <= k < i ==> (#[trigger] deg@[k]) == degs[k],
        decreases nodes@.len() - i,
    {
        let d = coupling_degree(edges, &nodes[i].0);
        deg.push(d);
        i = i + 1;
    }
    assert(deg@ =~= degs);
    let order = rank_by_degree(&deg);
    let c = if count < 1 { 1 } else { count };
    let total = if c < nodes.len() { c } else { nodes.len() };
    let mut hs: Vec<Hotspot> = Vec::new();
    let mut k: usize = 0;
    while k < total
        invariant
            total <= nodes@.len(),
            edges@.len() <= usize::MAX / 2,
            degs == node_degrees(nodes@, edges@),
            is_ranking(degs, order@),
            deg@ == degs,
            degs.len() == nodes@.len(),
            k <= total,
            hs@.len() == k,
            forall|x: int| 0 <= x < k ==> {
                &&& (#[trigger] hs@[x]).node_id@ == nodes@[order@[x] as int].0@
                &&& hs@[x].degree == degree_of(edges@, nodes@[order@[x] as int].0@)
                &&& hs@[x].reason@ == hotspot_reason(hs@[x].degree as nat)
            },
        decreases total - k,
    {
        let p = order[k];
        let d = deg[p];
        let mut reason = String::from_str("Acoplamiento moderado: ");
        push_decimal(&mut reason, d as u64);
        append_str(&mut reason, " conexiones");
        proof {
            reveal_strlit("Acoplamiento moderado: ");
            reveal_strlit(" conexiones");
            assert(p < nodes@.len());
            lemma_count_le(edges@, nodes@[p as int].0@, true);
            lemma_count_le(edges@, nodes@[p as int].0@, false);
            assert(degs[p as int] == degree_of(edges@, nodes@[p as int].0@) as usize);
            assert(d as nat == degree_of(edges@, nodes@[p as int].0@));
        }
        let ghost hs_before = hs@;
        hs.push(Hotspot { node_id: nodes[p].0.clone(), degree: d, reason });
        proof {
            assert forall|x: int| 0 <= x < k + 1 implies {
                &&& (#[trigger] hs@[x]).node_id@ == nodes@[order@[x] as int].0@
                &&& hs@[x].degree == degree_of(edges@, nodes@[order@[x] as int].0@)
                &&& hs@[x].reason@ == hotspot_reason(hs@[x].degree as nat)
            } by {
                if x < k {
                    assert(hs@[x] == hs_before[x]);
                }
            }
        }
        k = k + 1;
    }
    assert(ranked_hotspots(nodes@, edges@, hs@, order@));
    hs
}

} // verus!
