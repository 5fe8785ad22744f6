//! The payoff scorer: reduce the closure matrix to one scalar per node
//! and select the node of maximum magnitude.

use vstd::prelude::*;

use crate::spec_vec_offset;
use crate::vec_offset;
use crate::weights::ABSENT;
use crate::weights::ONE;
use crate::weights::wabs;
use crate::weights::wadd;
use crate::weights::wgt;
use crate::weights::wsub;
use crate::weights::weight_abs;
use crate::weights::weight_add;
use crate::weights::weight_gt;
use crate::weights::weight_sub;

verus! {

/// The running sum of the first `j` entries of row `i`, accumulated in
/// ascending column order starting from zero.
pub open spec fn row_sum_upto(g: Seq<u32>, n: int, i: int, j: int) -> u32
    decreases j,
{
    if j <= 0 {
        ABSENT
    } else {
        wadd(row_sum_upto(g, n, i, j - 1), g[spec_vec_offset(i, j - 1, n)])
    }
}

/// The payoff of node `i`: the sum of its closure row, minus one for
/// the implicit self-term on the diagonal.
pub open spec fn payoff_spec(g: Seq<u32>, n: int, i: int) -> u32 {
    wsub(row_sum_upto(g, n, i, n), ONE)
}

/// The payoff vector of a closure matrix.
pub open spec fn payoffs_spec(g: Seq<u32>, n: int) -> Seq<u32> {
    Seq::new(n as nat, |i: int| payoff_spec(g, n, i))
}

/// The scan state after looking at payoffs `0 .. i`: the index of the
/// selected node and the selected magnitude. A later entry replaces the
/// selection only when its magnitude is strictly greater, so ties keep
/// the first (lowest) index.
pub open spec fn select_upto(p: Seq<u32>, i: int) -> (int, u32)
    decreases i,
{
    if i <= 1 {
        (0, wabs(p[0]))
    } else {
        let prev = select_upto(p, i - 1);
        if wgt(wabs(p[i - 1]), prev.1) {
            (i - 1, wabs(p[i - 1]))
        } else {
            prev
        }
    }
}

/// The selected node of a payoff vector, with its magnitude.
pub open spec fn select_spec(p: Seq<u32>) -> (int, u32) {
    select_upto(p, p.len() as int)
}

/// The scan over a prefix selects an index inside that prefix.
pub proof fn lemma_select_bound(p: Seq<u32>, i: int)
    requires
        1 <= i,
    ensures
        0 <= select_upto(p, i).0 < i,
    decreases i,
{
    if i > 1 {
        lemma_select_bound(p, i - 1);
    }
}

/// The magnitude the scan returns is the magnitude of the payoff it
/// selected.
pub proof fn lemma_select_magnitude(p: Seq<u32>, i: int)
    requires
        1 <= i,
    ensures
        select_upto(p, i).1 == wabs(p[select_upto(p, i).0]),
    decreases i,
{
    if i > 1 {
        lemma_select_magnitude(p, i - 1);
    }
}

/// The scan really selects a maximum: no scanned payoff's magnitude is
/// strictly greater than the selected one.
pub proof fn lemma_select_dominates(p: Seq<u32>)
    requires
        p.len() >= 1,
    ensures
        forall|t: int| 0 <= t < p.len() ==> !wgt(wabs(#[trigger] p[t]), select_spec(p).1),
{
    lemma_select_dominates_upto(p, p.len() as int);
}

/// Scan helper for `lemma_select_dominates`.
proof fn lemma_select_dominates_upto(p: Seq<u32>, i: int)
    requires
        1 <= i <= p.len(),
    ensures
        forall|t: int| 0 <= t < i ==> !wgt(wabs(#[trigger] p[t]), select_upto(p, i).1),
    decreases i,
{
    if i > 1 {
        lemma_select_dominates_upto(p, i - 1);
        let prev = select_upto(p, i - 1);
        if wgt(wabs(p[i - 1]), prev.1) {
            assert forall|t: int| 0 <= t < i implies !wgt(wabs(#[trigger] p[t]), wabs(p[i - 1]))
            by {
                if t < i - 1 && wgt(wabs(p[t]), wabs(p[i - 1])) {
                    crate::weights::lemma_wlt_transitive(prev.1, wabs(p[i - 1]), wabs(p[t]));
                }
            }
        }
    } else {
        assert(!wgt(wabs(p[0]), wabs(p[0])));
    }
}

/// Scan helper for `lemma_select_strict_max`: before the dominating
/// index is reached the selection stays inside the prefix with its own
/// magnitude, and from the moment it is passed the selection is the
/// dominating index itself.
proof fn lemma_select_scan(p: Seq<u32>, m: int, i: int)
    requires
        1 <= i <= p.len(),
        0 <= m < p.len(),
        forall|t: int| 0 <= t < p.len() && t != m ==> wgt(wabs(p[m]), wabs(#[trigger] p[t])),
    ensures
        m < i ==> select_upto(p, i) == (m, wabs(p[m])),
        m >= i ==> 0 <= select_upto(p, i).0 < i && select_upto(p, i).1 == wabs(
            p[select_upto(p, i).0],
        ),
    decreases i,
{
    if i > 1 {
        lemma_select_scan(p, m, i - 1);
        if i - 1 > m {
            crate::weights::lemma_wlt_asymmetric(wabs(p[i - 1]), wabs(p[m]));
        }
    }
}

/// The scorer's selection is blind to where the winner sits: a payoff
/// vector with one strictly dominating magnitude selects exactly that
/// node. With `lemma_select_permutation_stable` this is what makes the
/// selection stable under relabelling.
pub proof fn lemma_select_strict_max(p: Seq<u32>, m: int)
    requires
        p.len() >= 1,
        0 <= m < p.len(),
        forall|t: int| 0 <= t < p.len() && t != m ==> wgt(wabs(p[m]), wabs(#[trigger] p[t])),
    ensures
        select_spec(p) == (m, wabs(p[m])),
{
    lemma_select_scan(p, m, p.len() as int);
}

/// The selected node is stable under a row permutation consistent with
/// a relabelling: when the payoffs of one vector are those of another
/// read through a permutation of the node indices, and one magnitude
/// strictly dominates all others (no tie asks the index-based
/// tie-break to decide), both scans select the same underlying node
/// and the same magnitude.
pub proof fn lemma_select_permutation_stable(
    p1: Seq<u32>,
    p2: Seq<u32>,
    perm: Seq<int>,
    m: int,
    mp: int,
)
    requires
        p1.len() >= 1,
        p2.len() == p1.len(),
        perm.len() == p1.len(),
        forall|t: int| 0 <= t < perm.len() ==> 0 <= #[trigger] perm[t] < perm.len(),
        forall|s: int, t: int|
            0 <= s < perm.len() && 0 <= t < perm.len() && s != t ==> #[trigger] perm[s]
                != #[trigger] perm[t],
        forall|t: int| 0 <= t < p2.len() ==> #[trigger] p2[t] == p1[perm[t]],
        0 <= m < p1.len(),
        0 <= mp < perm.len(),
        perm[mp] == m,
        forall|t: int| 0 <= t < p1.len() && t != m ==> wgt(wabs(p1[m]), wabs(#[trigger] p1[t])),
    ensures
        select_spec(p1) == (m, wabs(p1[m])),
        perm[select_spec(p2).0] == m,
        select_spec(p2).1 == select_spec(p1).1,
{
    lemma_select_strict_max(p1, m);
    assert forall|t: int| 0 <= t < p2.len() && t != mp implies wgt(
        wabs(p2[mp]),
        wabs(#[trigger] p2[t]),
    ) by {
        assert(perm[t] != m);
    }
    lemma_select_strict_max(p2, mp);
}

/// Compute the payoff vector of a closure matrix: each node's row sum
/// minus one.
#[verifier::loop_isolation(false)]
pub fn compute_payoffs(adj: &Vec<u32>, n: usize) -> (p: Vec<u32>)
    requires
        adj.len() == n * n,
    ensures
        p@ == payoffs_spec(adj@, n as int),
        p.len() == n,
{
    let mut p: Vec<u32> = Vec::new();
    let mut i: usize = 0;
    while i < n
        invariant
            i <= n,
            p.len() == i,
            forall|t: int| 0 <= t < i ==> p@[t] == payoff_spec(adj@, n as int, t),
        decreases n - i,
    {
        let mut acc: u32 = ABSENT;
        let mut j: usize = 0;
        while j < n
            invariant
                j <= n,
                i < n,
                acc == row_sum_upto(adj@, n as int, i as int, j as int),
            decreases n - j,
        {
            let off = vec_offset(i, j, n);
            acc = weight_add(acc, adj[off]);
            j = j + 1;
        }
        p.push(weight_sub(acc, ONE));
        i = i + 1;
    }
    proof {
        assert(p@ =~= payoffs_spec(adj@, n as int));
    }
    p
}

/// Select the node whose payoff has the greatest magnitude, scanning in
/// ascending index order with a strict comparison: an equal magnitude
/// later in the vector does not replace an earlier selection. Returns
/// the node index and the selected magnitude.
#[verifier::loop_isolation(false)]
pub fn select_max(p: &Vec<u32>) -> (r: (usize, u32))
    requires
        p.len() >= 1,
    ensures
        (r.0 as int, r.1) == select_spec(p@),
        r.0 < p.len(),
        r.1 == wabs(p@[r.0 as int]),
{
    proof {
        lemma_select_bound(p@, p.len() as int);
        lemma_select_magnitude(p@, p.len() as int);
    }
    let mut node: usize = 0;
    let mut best = weight_abs(p[0]);
    let mut i: usize = 1;
    while i < p.len()
        invariant
            1 <= i <= p.len(),
            node < i,
            (node as int, best) == select_upto(p@, i as int),
        decreases p.len() - i,
    {
        let a = weight_abs(p[i]);
        if weight_gt(a, best) {
            node = i;
            best = a;
        }
        i = i + 1;
    }
    (node, best)
}

} // verus!
