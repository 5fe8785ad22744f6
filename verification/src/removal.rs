//! The triad remover: after a node is selected, every edge of the triad
//! structure around the selected node's pair is overwritten with the
//! removal sentinel, and the diagonal workspace cells are swept back to
//! absent.
//!
//! The outer index is partitioned for concurrent execution; since the
//! partitions tile the node range and every iteration writes only its
//! own `(i, j)` / `(j, i)` cell pair, the sequential ascending order
//! below computes the same matrix as any partition schedule.

use vstd::prelude::*;

use crate::lemma_offset_bounds;
use crate::lemma_offset_injective;
use crate::spec_vec_offset;
use crate::vec_offset;
use crate::weights::ABSENT;
use crate::weights::REMOVED;
use crate::weights::weq;
use crate::weights::weight_eq;

verus! {

/// Whether node `x` is adjacent (a weight other than absent) to either
/// member of the selected node's pair. The mate row `mn + 1` only
/// exists when it is inside the matrix; otherwise it contributes no
/// adjacency.
pub open spec fn adjacent_to_pair(g: Seq<u32>, n: int, mn: int, x: int) -> bool {
    ||| !weq(g[spec_vec_offset(mn, x, n)], ABSENT)
    ||| (mn + 1 < n && !weq(g[spec_vec_offset(mn + 1, x, n)], ABSENT))
}

/// One inner step of the removal for outer node `i`: when node `j` is
/// outside the selected pair, adjacent to the pair, and the edge
/// `(i, j)` is present, both matrix halves of that edge become the
/// removal sentinel.
pub open spec fn mark_cell(g: Seq<u32>, n: int, mn: int, i: int, j: int) -> Seq<u32> {
    if j / 2 != mn && adjacent_to_pair(g, n, mn, j) && !weq(
        g[spec_vec_offset(i, j, n)],
        ABSENT,
    ) {
        g.update(spec_vec_offset(i, j, n), REMOVED).update(spec_vec_offset(j, i, n), REMOVED)
    } else {
        g
    }
}

/// The matrix after the inner scan of outer node `i` has covered the
/// columns `i + 1 .. j`, in ascending order.
pub open spec fn mark_row_upto(g: Seq<u32>, n: int, mn: int, i: int, j: int) -> Seq<u32>
    decreases j - i,
{
    if j <= i + 1 {
        g
    } else {
        mark_cell(mark_row_upto(g, n, mn, i, j - 1), n, mn, i, j - 1)
    }
}

/// The direct edges between the selected pair and node `i`: each one
/// that is present becomes the sentinel in both directions.
pub open spec fn mark_direct(g: Seq<u32>, n: int, mn: int, i: int) -> Seq<u32> {
    let g1 = if !weq(g[spec_vec_offset(mn, i, n)], ABSENT) {
        g.update(spec_vec_offset(mn, i, n), REMOVED).update(spec_vec_offset(i, mn, n), REMOVED)
    } else {
        g
    };
    if mn + 1 < n && !weq(g1[spec_vec_offset(mn + 1, i, n)], ABSENT) {
        g1.update(spec_vec_offset(mn + 1, i, n), REMOVED).update(
            spec_vec_offset(i, mn + 1, n),
            REMOVED,
        )
    } else {
        g1
    }
}

/// The whole removal step for outer node `i`: nothing happens unless
/// `i` lies outside the selected pair and is adjacent to it; otherwise
/// the inner scan marks the triad edges and the direct edges follow.
pub open spec fn remove_step(g: Seq<u32>, n: int, mn: int, i: int) -> Seq<u32> {
    if i / 2 != mn && adjacent_to_pair(g, n, mn, i) {
        mark_direct(mark_row_upto(g, n, mn, i, n), n, mn, i)
    } else {
        g
    }
}

/// The matrix after the removal has processed the outer nodes
/// `0 .. i`, in ascending order.
pub open spec fn remove_upto(g: Seq<u32>, n: int, mn: int, i: int) -> Seq<u32>
    decreases i,
{
    if i <= 0 {
        g
    } else {
        remove_step(remove_upto(g, n, mn, i - 1), n, mn, i - 1)
    }
}

/// The triad removal over the full node range.
pub open spec fn remove_spec(g: Seq<u32>, n: int, mn: int) -> Seq<u32> {
    remove_upto(g, n, mn, n)
}

/// The matrix after the diagonal sweep has covered rows `0 .. i`: each
/// diagonal cell equal to the removal sentinel is reset to absent.
pub open spec fn sweep_upto(g: Seq<u32>, n: int, i: int) -> Seq<u32>
    decreases i,
{
    if i <= 0 {
        g
    } else {
        let g1 = sweep_upto(g, n, i - 1);
        if weq(g1[spec_vec_offset(i - 1, i - 1, n)], REMOVED) {
            g1.update(spec_vec_offset(i - 1, i - 1, n), ABSENT)
        } else {
            g1
        }
    }
}

/// The full diagonal sweep.
pub open spec fn sweep_spec(g: Seq<u32>, n: int) -> Seq<u32> {
    sweep_upto(g, n, n)
}

/// Every cell of a `mark_cell` step either keeps its value or becomes
/// the removal sentinel, and the matrix keeps its size.
proof fn lemma_mark_cell_frame(g: Seq<u32>, n: int, mn: int, i: int, j: int)
    requires
        g.len() == n * n,
        0 <= i < n,
        0 <= j < n,
    ensures
        mark_cell(g, n, mn, i, j).len() == g.len(),
        forall|c: int|
            0 <= c < g.len() ==> #[trigger] mark_cell(g, n, mn, i, j)[c] == g[c] || mark_cell(
                g,
                n,
                mn,
                i,
                j,
            )[c] == REMOVED,
{
    lemma_offset_bounds(n, i, j);
    lemma_offset_bounds(n, j, i);
}

/// Every cell of an inner scan either keeps its value or becomes the
/// removal sentinel, and the matrix keeps its size.
proof fn lemma_mark_row_frame(g: Seq<u32>, n: int, mn: int, i: int, j: int)
    requires
        g.len() == n * n,
        0 <= i < n,
        j <= n,
    ensures
        mark_row_upto(g, n, mn, i, j).len() == g.len(),
        forall|c: int|
            0 <= c < g.len() ==> #[trigger] mark_row_upto(g, n, mn, i, j)[c] == g[c]
                || mark_row_upto(g, n, mn, i, j)[c] == REMOVED,
    decreases j - i,
{
    if j > i + 1 {
        lemma_mark_row_frame(g, n, mn, i, j - 1);
        lemma_mark_cell_frame(mark_row_upto(g, n, mn, i, j - 1), n, mn, i, j - 1);
    }
}

/// Every cell of the direct-edge step either keeps its value or
/// becomes the removal sentinel, and the matrix keeps its size.
proof fn lemma_mark_direct_frame(g: Seq<u32>, n: int, mn: int, i: int)
    requires
        g.len() == n * n,
        0 <= i < n,
        0 <= mn < n,
    ensures
        mark_direct(g, n, mn, i).len() == g.len(),
        forall|c: int|
            0 <= c < g.len() ==> #[trigger] mark_direct(g, n, mn, i)[c] == g[c] || mark_direct(
                g,
                n,
                mn,
                i,
            )[c] == REMOVED,
{
    lemma_offset_bounds(n, mn, i);
    lemma_offset_bounds(n, i, mn);
    if mn + 1 < n {
        lemma_offset_bounds(n, mn + 1, i);
        lemma_offset_bounds(n, i, mn + 1);
    }
}

/// Every cell of one outer removal step either keeps its value or
/// becomes the removal sentinel, and the matrix keeps its size.
proof fn lemma_remove_step_frame(g: Seq<u32>, n: int, mn: int, i: int)
    requires
        g.len() == n * n,
        0 <= i < n,
        0 <= mn < n,
    ensures
        remove_step(g, n, mn, i).len() == g.len(),
        forall|c: int|
            0 <= c < g.len() ==> #[trigger] remove_step(g, n, mn, i)[c] == g[c] || remove_step(
                g,
                n,
                mn,
                i,
            )[c] == REMOVED,
{
    lemma_mark_row_frame(g, n, mn, i, n);
    lemma_mark_direct_frame(mark_row_upto(g, n, mn, i, n), n, mn, i);
}

/// Every cell of the removal either keeps its value or becomes the
/// removal sentinel, and the matrix keeps its size.
pub proof fn lemma_remove_frame(g: Seq<u32>, n: int, mn: int, i: int)
    requires
        g.len() == n * n,
        0 <= i <= n,
        0 <= mn < n,
    ensures
        remove_upto(g, n, mn, i).len() == g.len(),
        forall|c: int|
            0 <= c < g.len() ==> #[trigger] remove_upto(g, n, mn, i)[c] == g[c] || remove_upto(
                g,
                n,
                mn,
                i,
            )[c] == REMOVED,
    decreases i,
{
    if i > 0 {
        lemma_remove_frame(g, n, mn, i - 1);
        lemma_remove_step_frame(remove_upto(g, n, mn, i - 1), n, mn, i - 1);
    }
}

/// The triad remover is idempotent on sentinel cells: a cell that
/// already holds the removal sentinel still holds exactly the removal
/// sentinel after the removal, whatever node is selected.
pub proof fn lemma_remove_preserves_sentinel(g: Seq<u32>, n: int, mn: int, c: int)
    requires
        g.len() == n * n,
        0 <= mn < n,
        0 <= c < g.len(),
        g[c] == REMOVED,
    ensures
        remove_spec(g, n, mn)[c] == REMOVED,
{
    lemma_remove_frame(g, n, mn, n);
}

/// The diagonal sweep keeps the matrix size.
proof fn lemma_sweep_len(g: Seq<u32>, n: int, i: int)
    requires
        g.len() == n * n,
        0 <= i <= n,
    ensures
        sweep_upto(g, n, i).len() == g.len(),
    decreases i,
{
    if i > 0 {
        lemma_sweep_len(g, n, i - 1);
        lemma_offset_bounds(n, i - 1, i - 1);
    }
}

/// After the diagonal sweep, no diagonal cell equals the removal
/// sentinel.
pub proof fn lemma_sweep_clears_diagonal(g: Seq<u32>, n: int, i: int)
    requires
        g.len() == n * n,
        0 <= i < n,
    ensures
        !weq(sweep_spec(g, n)[spec_vec_offset(i, i, n)], REMOVED),
{
    lemma_sweep_cell_clean(g, n, i, n);
}

/// Once the sweep has passed row `i`, cell `(i, i)` does not equal the
/// sentinel, and later rows leave it alone.
proof fn lemma_sweep_cell_clean(g: Seq<u32>, n: int, i: int, t: int)
    requires
        g.len() == n * n,
        0 <= i < t <= n,
    ensures
        !weq(sweep_upto(g, n, t)[spec_vec_offset(i, i, n)], REMOVED),
    decreases t,
{
    lemma_sweep_len(g, n, t - 1);
    lemma_offset_bounds(n, t - 1, t - 1);
    lemma_offset_bounds(n, i, i);
    if t - 1 == i {
        assert(0u32 & 0x7FFF_FFFFu32 == 0u32) by (bit_vector);
        assert(0x7F7F_FFFFu32 & 0x7FFF_FFFFu32 == 0x7F7F_FFFFu32) by (bit_vector);
        assert(!weq(ABSENT, REMOVED));
    } else {
        lemma_sweep_cell_clean(g, n, i, t - 1);
        lemma_offset_injective(n, i, i, t - 1, t - 1);
    }
}

/// Whether node `x` is adjacent to either member of the selected pair,
/// verified against `adjacent_to_pair`.
fn is_adjacent_to_pair(g: &Vec<u32>, n: usize, mn: usize, x: usize) -> (r: bool)
    requires
        g.len() == n * n,
        mn < n,
        x < n,
    ensures
        r == adjacent_to_pair(g@, n as int, mn as int, x as int),
{
    let off0 = vec_offset(mn, x, n);
    if !weight_eq(g[off0], ABSENT) {
        true
    } else if mn + 1 < n {
        let off1 = vec_offset(mn + 1, x, n);
        !weight_eq(g[off1], ABSENT)
    } else {
        false
    }
}

/// Mark the triad around the selected node `mn` in the live matrix:
/// for every node outside the selected pair that is adjacent to it,
/// overwrite its present edges to other such nodes, and its direct
/// edges to the pair, with the removal sentinel in both directions.
#[verifier::loop_isolation(false)]
pub fn remove_triad(g: &mut Vec<u32>, n: usize, mn: usize)
    requires
        old(g).len() == n * n,
        mn < n,
    ensures
        final(g)@ == remove_spec(old(g)@, n as int, mn as int),
        final(g).len() == old(g).len(),
{
    let ghost g0 = g@;
    proof {
        assert(n * n <= usize::MAX);
    }
    let mut i: usize = 0;
    while i < n
        invariant
            i <= n,
            g@ == remove_upto(g0, n as int, mn as int, i as int),
            g.len() == n * n,
        decreases n - i,
    {
        if i / 2 != mn && is_adjacent_to_pair(g, n, mn, i) {
            let ghost gi = g@;
            let mut j: usize = i + 1;
            while j < n
                invariant
                    i + 1 <= j <= n,
                    i < n,
                    g@ == mark_row_upto(gi, n as int, mn as int, i as int, j as int),
                    g.len() == n * n,
                decreases n - j,
            {
                if j / 2 != mn && is_adjacent_to_pair(g, n, mn, j) {
                    let off_ij = vec_offset(i, j, n);
                    if !weight_eq(g[off_ij], ABSENT) {
                        let off_ji = vec_offset(j, i, n);
                        g.set(off_ij, REMOVED);
                        g.set(off_ji, REMOVED);
                    }
                }
                j = j + 1;
            }
            let off_mi = vec_offset(mn, i, n);
            if !weight_eq(g[off_mi], ABSENT) {
                let off_im = vec_offset(i, mn, n);
                g.set(off_mi, REMOVED);
                g.set(off_im, REMOVED);
            }
            if mn + 1 < n {
                let off_pi = vec_offset(mn + 1, i, n);
                if !weight_eq(g[off_pi], ABSENT) {
                    let off_ip = vec_offset(i, mn + 1, n);
                    g.set(off_pi, REMOVED);
                    g.set(off_ip, REMOVED);
                }
            }
        }
        i = i + 1;
    }
}

/// Reset every diagonal cell that holds the removal sentinel back to
/// the absent-edge value: the diagonal is workspace, never a genuine
/// removed edge.
#[verifier::loop_isolation(false)]
pub fn sweep_diagonal(g: &mut Vec<u32>, n: usize)
    requires
        old(g).len() == n * n,
    ensures
        final(g)@ == sweep_spec(old(g)@, n as int),
        final(g).len() == old(g).len(),
{
    let ghost g0 = g@;
    proof {
        assert(n * n <= usize::MAX);
    }
    let mut i: usize = 0;
    while i < n
        invariant
            i <= n,
            g@ == sweep_upto(g0, n as int, i as int),
            g.len() == n * n,
        decreases n - i,
    {
        let off = vec_offset(i, i, n);
        if weight_eq(g[off], REMOVED) {
            g.set(off, ABSENT);
        }
        i = i + 1;
    }
}

} // verus!
