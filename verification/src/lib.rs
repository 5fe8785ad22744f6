//! The Ablatio Triadum (ATria) centrality algorithm for signed,
//! weighted networks (Cickovski et al, 2015, 2017).
//!
//! A network of correlation strengths is held as a dense square
//! matrix whose paired node indices encode the sign of each
//! relationship. Each round, a partitioned transitive-closure
//! relaxation accumulates path values over a snapshot, a payoff scorer
//! selects the node of greatest magnitude, and the triad around the
//! selected node is marked removed in the live matrix; the loop ends
//! when no node has a payoff of nonzero magnitude or every node has
//! had its round. The scores are then sorted together with the node
//! labels by descending magnitude.
//!
//! Edge weights are IEEE 754 single-precision values carried as their
//! 32-bit patterns, so that the logic on them is verified over plain
//! integers; see the `weights` module.

pub mod closure;
pub mod dijkstras;
pub mod encode;
pub mod engine;
pub mod payoff;
pub mod ranking;
pub mod removal;
pub mod store;
pub mod weights;

use vstd::prelude::*;

verus! {

/// Memory offset of cell `(i, j)` in a row-major flattening of a
/// square matrix with row length `sz`.
pub open spec fn spec_vec_offset(i: int, j: int, sz: int) -> int {
    i * sz + j
}

/// Calculate the memory offset of a value in a 1D array as
/// if it was a 2D array.
#[inline]
pub fn vec_offset(i: usize, j: usize, sz: usize) -> (r: usize)
    requires
        i < sz,
        j < sz,
        sz * sz <= usize::MAX,
    ensures
        r == spec_vec_offset(i as int, j as int, sz as int),
        r < sz * sz,
{
    proof {
        assert(i * sz + j < sz * sz) by (nonlinear_arith)
            requires
                i < sz,
                j < sz,
        ;
    }
    i * sz + j
}

/// A cell offset of a square matrix lies inside the flattened range.
pub proof fn lemma_offset_bounds(n: int, i: int, j: int)
    requires
        0 <= i < n,
        0 <= j < n,
    ensures
        0 <= spec_vec_offset(i, j, n) < n * n,
{
    assert(0 <= i * n + j < n * n) by (nonlinear_arith)
        requires
            0 <= i < n,
            0 <= j < n,
    ;
}

/// Distinct cells of a square matrix have distinct offsets.
pub proof fn lemma_offset_injective(n: int, i1: int, j1: int, i2: int, j2: int)
    requires
        0 <= i1 < n,
        0 <= j1 < n,
        0 <= i2 < n,
        0 <= j2 < n,
        (i1, j1) != (i2, j2),
    ensures
        spec_vec_offset(i1, j1, n) != spec_vec_offset(i2, j2, n),
{
    assert(i1 * n + j1 != i2 * n + j2) by (nonlinear_arith)
        requires
            0 <= i1 < n,
            0 <= j1 < n,
            0 <= i2 < n,
            0 <= j2 < n,
            i1 != i2 || j1 != j2,
    ;
}

} // verus!
