//! The closure computer: the partitioned, parity-dependent relaxation
//! that turns a snapshot of the adjacency matrix into the accumulated
//! path-value matrix scored by the payoff step.
//!
//! The node index range is split into contiguous blocks of a fixed
//! width; each block runs a triple-nested relaxation restricted to its
//! own index range. Blocks touch disjoint cells, so the sequential
//! block order below computes the same matrix as any schedule that
//! keeps each block's triple loop atomic.

use vstd::prelude::*;

use crate::spec_vec_offset;
use crate::vec_offset;
use crate::weights::wgt;
use crate::weights::wlt;
use crate::weights::wmul;
use crate::weights::weight_gt;
use crate::weights::weight_lt;
use crate::weights::weight_mul;

verus! {

/// One relaxation step on cell `(i, j)` through `k`: the candidate is
/// the product of the two legs, and it replaces the cell when the
/// parity rule says so — even `i + j` keeps the larger value, odd
/// `i + j` keeps the smaller.
pub open spec fn relax_cell(g: Seq<u32>, n: int, k: int, i: int, j: int) -> Seq<u32> {
    if i != j && j != k {
        let cand = wmul(g[spec_vec_offset(i, k, n)], g[spec_vec_offset(k, j, n)]);
        let cur = g[spec_vec_offset(i, j, n)];
        if ((i + j) % 2 == 0 && wlt(cur, cand)) || ((i + j) % 2 == 1 && wgt(cur, cand)) {
            g.update(spec_vec_offset(i, j, n), cand)
        } else {
            g
        }
    } else {
        g
    }
}

/// The matrix after relaxing cells `(i, lo) .. (i, j)` through `k`,
/// in ascending column order.
pub open spec fn relax_row_upto(g: Seq<u32>, n: int, k: int, i: int, lo: int, j: int) -> Seq<u32>
    decreases j - lo,
{
    if j <= lo {
        g
    } else {
        relax_cell(relax_row_upto(g, n, k, i, lo, j - 1), n, k, i, j - 1)
    }
}

/// The matrix after relaxing the full rows `lo .. i` of the block
/// `[lo, hi)` through `k`, in ascending row order.
pub open spec fn relax_rows_upto(g: Seq<u32>, n: int, k: int, lo: int, hi: int, i: int) -> Seq<u32>
    decreases i - lo,
{
    if i <= lo {
        g
    } else {
        relax_row_upto(relax_rows_upto(g, n, k, lo, hi, i - 1), n, k, i - 1, lo, hi)
    }
}

/// The matrix after running the block `[lo, hi)` through the pivots
/// `lo .. k`, in ascending pivot order.
pub open spec fn relax_block_upto(g: Seq<u32>, n: int, lo: int, hi: int, k: int) -> Seq<u32>
    decreases k - lo,
{
    if k <= lo {
        g
    } else {
        relax_rows_upto(relax_block_upto(g, n, lo, hi, k - 1), n, k - 1, lo, hi, hi)
    }
}

/// The full triple-nested relaxation of the block `[lo, hi)`.
pub open spec fn relax_block(g: Seq<u32>, n: int, lo: int, hi: int) -> Seq<u32> {
    relax_block_upto(g, n, lo, hi, hi)
}

/// The first node index of partition `p`.
pub open spec fn part_lo(p: int, psize: int) -> int {
    p * psize
}

/// One past the last node index of partition `p`: a full block of
/// `psize` indices, clipped to the node range.
pub open spec fn part_hi(p: int, psize: int, n: int) -> int {
    if p * psize + psize < n {
        p * psize + psize
    } else {
        n
    }
}

/// The matrix after the blocks of partitions `0 .. p` have been
/// relaxed.
pub open spec fn closure_upto(g: Seq<u32>, n: int, psize: int, p: int) -> Seq<u32>
    decreases p,
{
    if p <= 0 {
        g
    } else {
        relax_block(closure_upto(g, n, psize, p - 1), n, part_lo(p - 1, psize), part_hi(p - 1, psize, n))
    }
}

/// The closure of a snapshot: every partition's block relaxed. The
/// result is a function of the snapshot and the partition size alone,
/// whatever order the partitions are scheduled in.
pub open spec fn closure_spec(g: Seq<u32>, n: int, psize: int) -> Seq<u32> {
    closure_upto(g, n, psize, n / psize + 1)
}

/// The closure computer is deterministic: two equal snapshots close to
/// the same matrix under the same partition size. The result is a
/// function of the snapshot alone — the schedule of the index-disjoint
/// partitions has no influence on it.
pub proof fn lemma_closure_deterministic(g1: Seq<u32>, g2: Seq<u32>, n: int, psize: int)
    requires
        g1 == g2,
    ensures
        closure_spec(g1, n, psize) == closure_spec(g2, n, psize),
{
}

/// Relax the block `[lo, hi)` of the snapshot in place: the
/// triple-nested parity relaxation restricted to that index range.
#[verifier::loop_isolation(false)]
pub fn relax_partition(adj: &mut Vec<u32>, n: usize, lo: usize, hi: usize)
    requires
        old(adj).len() == n * n,
        lo <= hi <= n,
    ensures
        final(adj)@ == relax_block(old(adj)@, n as int, lo as int, hi as int),
        final(adj).len() == old(adj).len(),
{
    let ghost g0 = adj@;
    proof {
        assert(n * n <= usize::MAX);
    }
    let mut k: usize = lo;
    while k < hi
        invariant
            lo <= k <= hi,
            adj@ == relax_block_upto(g0, n as int, lo as int, hi as int, k as int),
            adj.len() == n * n,
        decreases hi - k,
    {
        let ghost gk = adj@;
        let mut i: usize = lo;
        while i < hi
            invariant
                lo <= i <= hi,
                k < hi,
                adj@ == relax_rows_upto(gk, n as int, k as int, lo as int, hi as int, i as int),
                adj.len() == n * n,
            decreases hi - i,
        {
            let ghost gi = adj@;
            let mut j: usize = lo;
            while j < hi
                invariant
                    lo <= j <= hi,
                    i < hi,
                    k < hi,
                    adj@ == relax_row_upto(gi, n as int, k as int, i as int, lo as int, j as int),
                    adj.len() == n * n,
                decreases hi - j,
            {
                proof {
                    assert((i as int) + (j as int) <= usize::MAX) by (nonlinear_arith)
                        requires
                            i < n,
                            j < n,
                            n * n <= usize::MAX,
                    ;
                }
                if i != j && j != k {
                    let off_ik = vec_offset(i, k, n);
                    let off_kj = vec_offset(k, j, n);
                    let off_ij = vec_offset(i, j, n);
                    let cand = weight_mul(adj[off_ik], adj[off_kj]);
                    let cur = adj[off_ij];
                    let even = (i + j) % 2 == 0;
                    let replace = if even {
                        weight_lt(cur, cand)
                    } else {
                        weight_gt(cur, cand)
                    };
                    if replace {
                        adj.set(off_ij, cand);
                    }
                }
                j = j + 1;
            }
            i = i + 1;
        }
        k = k + 1;
    }
}

/// Compute the closure of the snapshot in place: split the node range
/// into blocks of width `psize` (the last block may be shorter) and
/// relax each block independently.
#[verifier::loop_isolation(false)]
pub fn compute_closure(adj: &mut Vec<u32>, n: usize, psize: usize)
    requires
        old(adj).len() == n * n,
        psize >= 1,
    ensures
        final(adj)@ == closure_spec(old(adj)@, n as int, psize as int),
        final(adj).len() == old(adj).len(),
{
    let ghost g0 = adj@;
    proof {
        vstd::arithmetic::div_mod::lemma_div_nonincreasing(n as int, psize as int);
        assert(n < usize::MAX || n == 0) by (nonlinear_arith)
            requires
                n * n <= usize::MAX,
        ;
    }
    let partitions = n / psize + 1;
    let mut p: usize = 0;
    while p < partitions
        invariant
            p <= partitions,
            adj@ == closure_upto(g0, n as int, psize as int, p as int),
            adj.len() == n * n,
        decreases partitions - p,
    {
        proof {
            assert(p * psize <= (n / psize) * psize) by (nonlinear_arith)
                requires
                    p <= n / psize,
                    psize >= 1,
            ;
            vstd::arithmetic::div_mod::lemma_fundamental_div_mod(n as int, psize as int);
            vstd::arithmetic::div_mod::lemma_mod_bound(n as int, psize as int);
        }
        let lo = p * psize;
        let hi = if n - lo > psize {
            lo + psize
        } else {
            n
        };
        relax_partition(adj, n, lo, hi);
        p = p + 1;
    }
}

} // verus!
