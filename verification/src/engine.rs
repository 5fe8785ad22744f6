//! The centrality engine: the fixed-point iteration that alternates
//! closure computation, payoff scoring and triad removal on the live
//! matrix, for at most one round per node or until no node has a
//! payoff of nonzero magnitude.

use vstd::prelude::*;

use crate::closure::closure_spec;
use crate::closure::compute_closure;
use crate::payoff::compute_payoffs;
use crate::payoff::payoffs_spec;
use crate::payoff::select_max;
use crate::payoff::select_spec;
use crate::removal::remove_spec;
use crate::removal::remove_triad;
use crate::removal::sweep_diagonal;
use crate::removal::sweep_spec;
use crate::store::ATriaPlugin;
use crate::store::ShapeError;
use crate::weights::ABSENT;
use crate::weights::weq;
use crate::weights::weight_eq;

verus! {

/// The width of the contiguous node-index blocks that the closure and
/// removal phases are partitioned into.
pub const PARTITION_SIZE: usize = 25;

/// How a run of the engine ended.
#[derive(Clone, Copy, Debug, PartialEq, Eq, Structural)]
pub enum RunOutcome {
    /// A round found no node with a payoff of nonzero magnitude.
    Converged,
    /// The round budget of one round per node was spent without
    /// convergence; treated like convergence for output purposes.
    Exhausted,
}

/// One round of the engine on `(matrix, output)`: close a snapshot,
/// score it, and either stop (the selected magnitude is zero) or
/// record the selected node's payoff and remove its triad. The third
/// component tells whether the round converged.
pub open spec fn round_spec(g: Seq<u32>, out: Seq<u32>, n: int, psize: int) -> (
    Seq<u32>,
    Seq<u32>,
    bool,
) {
    let adj = closure_spec(g, n, psize);
    let p = payoffs_spec(adj, n);
    let sel = select_spec(p);
    if weq(sel.1, ABSENT) {
        (g, out, true)
    } else {
        (sweep_spec(remove_spec(g, n, sel.0), n), out.update(sel.0, p[sel.0]), false)
    }
}

/// The engine state after at most `r` rounds: rounds stop early as
/// soon as one converges.
pub open spec fn run_upto(g: Seq<u32>, out: Seq<u32>, n: int, psize: int, r: int) -> (
    Seq<u32>,
    Seq<u32>,
    bool,
)
    decreases r,
{
    if r <= 0 {
        (g, out, false)
    } else {
        let prev = run_upto(g, out, n, psize, r - 1);
        if prev.2 {
            prev
        } else {
            round_spec(prev.0, prev.1, n, psize)
        }
    }
}

/// The full run: at most one round per node. The third component tells
/// whether the run converged (as opposed to exhausting its budget).
pub open spec fn run_spec(g: Seq<u32>, out: Seq<u32>, n: int, psize: int) -> (
    Seq<u32>,
    Seq<u32>,
    bool,
) {
    run_upto(g, out, n, psize, n)
}

/// Once a prefix of rounds has converged, further rounds change
/// nothing.
proof fn lemma_run_upto_stable(g: Seq<u32>, out: Seq<u32>, n: int, psize: int, r: int, s: int)
    requires
        0 <= r <= s,
        run_upto(g, out, n, psize, r).2,
    ensures
        run_upto(g, out, n, psize, s) == run_upto(g, out, n, psize, r),
    decreases s - r,
{
    if s > r {
        lemma_run_upto_stable(g, out, n, psize, r, s - 1);
    }
}

/// After every round that removed a triad, no diagonal cell of the
/// resulting matrix equals the removal sentinel: the sweep that closes
/// the round clears the diagonal workspace.
pub proof fn lemma_round_diagonal_clean(g: Seq<u32>, out: Seq<u32>, n: int, psize: int, i: int)
    requires
        g.len() == n * n,
        0 <= i < n,
        !round_spec(g, out, n, psize).2,
    ensures
        !crate::weights::weq(
            round_spec(g, out, n, psize).0[crate::spec_vec_offset(i, i, n)],
            crate::weights::REMOVED,
        ),
{
    let sel = select_spec(payoffs_spec(closure_spec(g, n, psize), n));
    crate::payoff::lemma_select_bound(payoffs_spec(closure_spec(g, n, psize), n), n);
    crate::removal::lemma_remove_frame(g, n, sel.0, n);
    crate::removal::lemma_sweep_clears_diagonal(remove_spec(g, n, sel.0), n, i);
}

/// When a round converges, no node is meaningfully central any more:
/// not one payoff of that round's closure has a magnitude strictly
/// greater than zero.
pub proof fn lemma_converged_no_central_node(g: Seq<u32>, out: Seq<u32>, n: int, psize: int)
    requires
        n >= 1,
        round_spec(g, out, n, psize).2,
    ensures
        forall|t: int|
            0 <= t < n ==> !crate::weights::wgt(
                crate::weights::wabs(#[trigger] payoffs_spec(closure_spec(g, n, psize), n)[t]),
                ABSENT,
            ),
{
    let p = payoffs_spec(closure_spec(g, n, psize), n);
    crate::payoff::lemma_select_bound(p, n);
    crate::payoff::lemma_select_magnitude(p, n);
    crate::payoff::lemma_select_dominates(p);
    let sel = select_spec(p);
    assert(sel.1 == crate::weights::wabs(p[sel.0]));
    let x = p[sel.0];
    assert((x & 0x7FFF_FFFF) & 0x7FFF_FFFF == x & 0x7FFF_FFFF) by (bit_vector);
    assert(sel.1 == ABSENT);
}

impl ATriaPlugin {
    /// Run the ATria elimination to convergence or exhaustion.
    ///
    /// On a well-formed store the matrix and output vector end exactly
    /// as `run_spec` describes, the labels are untouched, and the
    /// returned outcome tells whether the run converged. A store whose
    /// matrix or output vector does not match its label count is
    /// rejected unchanged.
    pub fn run(&mut self) -> (r: Result<RunOutcome, ShapeError>)
        ensures
            match r {
                Ok(outcome) => {
                    let s = run_spec(
                        old(self).orig_graph@,
                        old(self).output@,
                        old(self).bacteria.len() as int,
                        PARTITION_SIZE as int,
                    );
                    &&& old(self).wf()
                    &&& final(self).wf()
                    &&& final(self).bacteria@ == old(self).bacteria@
                    &&& final(self).orig_graph@ == s.0
                    &&& final(self).output@ == s.1
                    &&& outcome == (if s.2 {
                        RunOutcome::Converged
                    } else {
                        RunOutcome::Exhausted
                    })
                },
                Err(e) => {
                    &&& !old(self).wf()
                    &&& *final(self) == *old(self)
                    &&& e == ShapeError::NotSquare
                },
            },
    {
        let n = self.bacteria.len();
        let wf_now = match n.checked_mul(n) {
            Some(sq) => sq == self.orig_graph.len() && self.output.len() == n,
            None => false,
        };
        if !wf_now {
            proof {
                if self.orig_graph.len() == n * n {
                    assert(n * n <= usize::MAX);
                }
            }
            return Err(ShapeError::NotSquare);
        }
        let ghost g0 = self.orig_graph@;
        let ghost out0 = self.output@;
        let mut converged = false;
        let mut round: usize = 0;
        while round < n && !converged
            invariant
                round <= n,
                self.bacteria.len() == n,
                self.wf(),
                self.bacteria@ == old(self).bacteria@,
                (self.orig_graph@, self.output@, converged) == run_upto(
                    g0,
                    out0,
                    n as int,
                    PARTITION_SIZE as int,
                    round as int,
                ),
            decreases n - round,
        {
            let mut adj = self.snapshot();
            compute_closure(&mut adj, n, PARTITION_SIZE);
            let p = compute_payoffs(&adj, n);
            let (max_node, max_mag) = select_max(&p);
            if weight_eq(max_mag, ABSENT) {
                converged = true;
            } else {
                self.output.set(max_node, p[max_node]);
                remove_triad(&mut self.orig_graph, n, max_node);
                sweep_diagonal(&mut self.orig_graph, n);
            }
            round = round + 1;
        }
        proof {
            if converged {
                lemma_run_upto_stable(
                    g0,
                    out0,
                    n as int,
                    PARTITION_SIZE as int,
                    round as int,
                    n as int,
                );
            }
        }
        if converged {
            Ok(RunOutcome::Converged)
        } else {
            Ok(RunOutcome::Exhausted)
        }
    }
}

} // verus!
