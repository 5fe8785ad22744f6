//! Single-source shortest distances over the weight domain: the
//! classic relaxation that the reference fixture exercises, on a
//! square matrix given row by row, with the infinity pattern standing
//! for a missing edge.

use vstd::prelude::*;

use crate::weights::ABSENT;
use crate::weights::INFINITY_BITS;
use crate::weights::wadd;
use crate::weights::weq;
use crate::weights::wle;
use crate::weights::wlt;
use crate::weights::weight_add;
use crate::weights::weight_eq;
use crate::weights::weight_le;
use crate::weights::weight_lt;

verus! {

/// The rows of a matrix held as a vector of row vectors.
pub open spec fn rows_view(g: Seq<Vec<u32>>) -> Seq<Seq<u32>> {
    Seq::new(g.len(), |i: int| g[i]@)
}

/// A matrix of row vectors is square with side `n`.
pub open spec fn square(g: Seq<Vec<u32>>, n: int) -> bool {
    &&& g.len() == n
    &&& forall|i: int| 0 <= i < n ==> (#[trigger] g[i])@.len() == n
}

/// The scan state after looking at nodes `0 .. i`: the index of the
/// unprocessed node with the least distance seen so far, and that
/// distance, starting from node zero at infinity. A node replaces the
/// selection when its distance is less than or equal, so later ties
/// win.
pub open spec fn min_scan_upto(d: Seq<u32>, proc: Seq<bool>, i: int) -> (int, u32)
    decreases i,
{
    if i <= 0 {
        (0, INFINITY_BITS)
    } else {
        let prev = min_scan_upto(d, proc, i - 1);
        if !proc[i - 1] && wle(d[i - 1], prev.1) {
            (i - 1, d[i - 1])
        } else {
            prev
        }
    }
}

/// The distance vector after the edges out of `u` towards nodes
/// `0 .. v` have been relaxed: an unprocessed node with a present edge
/// moves down to the path through `u` whenever that path is strictly
/// shorter.
pub open spec fn relax_edges_upto(
    gv: Seq<Seq<u32>>,
    d: Seq<u32>,
    proc: Seq<bool>,
    u: int,
    v: int,
) -> Seq<u32>
    decreases v,
{
    if v <= 0 {
        d
    } else {
        let prev = relax_edges_upto(gv, d, proc, u, v - 1);
        let w = gv[u][v - 1];
        if !proc[v - 1] && !weq(w, INFINITY_BITS) && wlt(wadd(prev[u], w), prev[v - 1]) {
            prev.update(v - 1, wadd(prev[u], w))
        } else {
            prev
        }
    }
}

/// One round: pick the unprocessed node of least distance, mark it
/// processed, and relax its outgoing edges.
pub open spec fn dij_round(gv: Seq<Seq<u32>>, d: Seq<u32>, proc: Seq<bool>, n: int) -> (
    Seq<u32>,
    Seq<bool>,
) {
    let u = min_scan_upto(d, proc, n).0;
    let proc2 = proc.update(u, true);
    (relax_edges_upto(gv, d, proc2, u, n), proc2)
}

/// The state after `c` rounds.
pub open spec fn dij_rounds_upto(
    gv: Seq<Seq<u32>>,
    d: Seq<u32>,
    proc: Seq<bool>,
    n: int,
    c: int,
) -> (Seq<u32>, Seq<bool>)
    decreases c,
{
    if c <= 0 {
        (d, proc)
    } else {
        let prev = dij_rounds_upto(gv, d, proc, n, c - 1);
        dij_round(gv, prev.0, prev.1, n)
    }
}

/// The distances from `source`: start at infinity everywhere but the
/// source itself, then run one round short of the node count.
pub open spec fn dijkstras_spec(gv: Seq<Seq<u32>>, n: int, source: int) -> Seq<u32> {
    let d0 = Seq::new(n as nat, |i: int| INFINITY_BITS).update(source, ABSENT);
    let p0 = Seq::new(n as nat, |i: int| false);
    dij_rounds_upto(gv, d0, p0, n, n - 1).0
}

/// The unprocessed node with the least distance, scanning in ascending
/// order with a non-strict comparison, verified against
/// `min_scan_upto`.
#[verifier::loop_isolation(false)]
fn min_distance(distance: &Vec<u32>, processed: &Vec<bool>) -> (r: usize)
    requires
        distance.len() >= 1,
        processed.len() == distance.len(),
    ensures
        r as int == min_scan_upto(distance@, processed@, distance.len() as int).0,
        r < distance.len(),
{
    let mut least = INFINITY_BITS;
    let mut index: usize = 0;
    let mut i: usize = 0;
    while i < distance.len()
        invariant
            i <= distance.len(),
            index < distance.len(),
            (index as int, least) == min_scan_upto(distance@, processed@, i as int),
        decreases distance.len() - i,
    {
        if !processed[i] && weight_le(distance[i], least) {
            least = distance[i];
            index = i;
        }
        i = i + 1;
    }
    index
}

/// Shortest distances from `source` in a square matrix of edge
/// weights, as `dijkstras_spec` describes them.
#[verifier::loop_isolation(false)]
pub fn dijkstras(graph: &Vec<Vec<u32>>, source: usize) -> (r: Vec<u32>)
    requires
        graph.len() >= 1,
        source < graph.len(),
        square(graph@, graph.len() as int),
    ensures
        r@ == dijkstras_spec(rows_view(graph@), graph.len() as int, source as int),
{
    let n = graph.len();
    let mut distances: Vec<u32> = Vec::new();
    let mut processed: Vec<bool> = Vec::new();
    let mut i: usize = 0;
    while i < n
        invariant
            i <= n,
            distances@ == Seq::new(i as nat, |t: int| INFINITY_BITS),
            processed@ == Seq::new(i as nat, |t: int| false),
        decreases n - i,
    {
        distances.push(INFINITY_BITS);
        processed.push(false);
        i = i + 1;
        proof {
            assert(distances@ =~= Seq::new(i as nat, |t: int| INFINITY_BITS));
            assert(processed@ =~= Seq::new(i as nat, |t: int| false));
        }
    }
    distances.set(source, ABSENT);
    let ghost d0 = distances@;
    let ghost p0 = processed@;
    let ghost gv = rows_view(graph@);
    let mut count: usize = 0;
    while count < n - 1
        invariant
            count <= n - 1,
            distances.len() == n,
            processed.len() == n,
            (distances@, processed@) == dij_rounds_upto(gv, d0, p0, n as int, count as int),
        decreases n - 1 - count,
    {
        let u = min_distance(&distances, &processed);
        processed.set(u, true);
        let ghost dr = distances@;
        let ghost pr = processed@;
        let mut v: usize = 0;
        while v < n
            invariant
                v <= n,
                u < n,
                distances.len() == n,
                processed.len() == n,
                processed@ == pr,
                distances@ == relax_edges_upto(gv, dr, pr, u as int, v as int),
            decreases n - v,
        {
            if !processed[v] {
                let w = graph[u][v];
                if !weight_eq(w, INFINITY_BITS) {
                    let cand = weight_add(distances[u], w);
                    if weight_lt(cand, distances[v]) {
                        distances.set(v, cand);
                    }
                }
            }
            v = v + 1;
        }
        count = count + 1;
    }
    distances
}

} // verus!
