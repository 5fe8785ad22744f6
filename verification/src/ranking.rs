//! The final ranking: once the engine has terminated, the output
//! scores and the label list are sorted together by descending
//! magnitude, so that the most central node comes first.

use vstd::prelude::*;

use crate::weights::is_nan_bits;
use crate::weights::lemma_wabs_nan;
use crate::weights::lemma_wlt_asymmetric;
use crate::weights::lemma_wlt_neg_trans;
use crate::weights::wabs;
use crate::weights::wlt;
use crate::weights::weight_abs;
use crate::weights::weight_lt;

verus! {

/// One comparison of the neighbouring positions `j` and `j + 1`: when
/// the magnitude at `j` is strictly below the magnitude at `j + 1`,
/// the scores and the labels are exchanged together.
pub open spec fn bubble_at(s: Seq<u32>, l: Seq<String>, j: int) -> (Seq<u32>, Seq<String>) {
    if wlt(wabs(s[j]), wabs(s[j + 1])) {
        (
            s.update(j, s[j + 1]).update(j + 1, s[j]),
            l.update(j, l[j + 1]).update(j + 1, l[j]),
        )
    } else {
        (s, l)
    }
}

/// One bubble pass over the positions `0 .. j`, left to right.
pub open spec fn bubble_pass_upto(s: Seq<u32>, l: Seq<String>, j: int) -> (Seq<u32>, Seq<String>)
    decreases j,
{
    if j <= 0 {
        (s, l)
    } else {
        let prev = bubble_pass_upto(s, l, j - 1);
        bubble_at(prev.0, prev.1, j - 1)
    }
}

/// The pair after `p` bubble passes with shrinking bounds: the first
/// pass runs up to `n - 1`, the next up to `n - 2`, and so on.
pub open spec fn sort_upto(s: Seq<u32>, l: Seq<String>, n: int, p: int) -> (Seq<u32>, Seq<String>)
    decreases p,
{
    if p <= 0 {
        (s, l)
    } else {
        let prev = sort_upto(s, l, n, p - 1);
        bubble_pass_upto(prev.0, prev.1, n - p)
    }
}

/// The joint descending-magnitude sort of a score vector and its label
/// vector.
pub open spec fn sort_spec(s: Seq<u32>, l: Seq<String>, n: int) -> (Seq<u32>, Seq<String>) {
    sort_upto(s, l, n, n)
}

/// A score vector is ranked when no neighbouring pair is out of
/// descending-magnitude order.
pub open spec fn ranked(s: Seq<u32>) -> bool {
    forall|j: int| 0 <= j < s.len() - 1 ==> !wlt(wabs(s[j]), wabs(s[#[trigger] (j + 1)]))
}

/// Exchange the neighbouring labels at `j` and `j + 1`.
fn swap_adjacent_labels(l: &mut Vec<String>, j: usize)
    requires
        j + 1 < old(l).len(),
    ensures
        final(l)@ == old(l)@.update(j as int, old(l)@[j + 1]).update(j + 1, old(l)@[j as int]),
{
    let moved = l.remove(j);
    l.insert(j + 1, moved);
    proof {
        assert(l@ =~= old(l)@.update(j as int, old(l)@[j + 1]).update(j + 1, old(l)@[j as int]));
    }
}

/// Sort the scores by descending magnitude, carrying the labels along,
/// with the bubble passes that define `sort_spec`. A pair of
/// neighbours only moves on a strict comparison, so the sort is
/// stable: positions already in order are never disturbed.
#[verifier::loop_isolation(false)]
pub fn sort_ranked(scores: &mut Vec<u32>, labels: &mut Vec<String>)
    requires
        old(scores).len() == old(labels).len(),
    ensures
        (final(scores)@, final(labels)@) == sort_spec(
            old(scores)@,
            old(labels)@,
            old(scores).len() as int,
        ),
        final(scores).len() == old(scores).len(),
        final(labels).len() == old(labels).len(),
{
    let n = scores.len();
    let ghost s0 = scores@;
    let ghost l0 = labels@;
    let mut i: usize = n;
    while i > 0
        invariant
            i <= n,
            scores.len() == n,
            labels.len() == n,
            (scores@, labels@) == sort_upto(s0, l0, n as int, (n - i) as int),
        decreases i,
    {
        i = i - 1;
        let ghost si = scores@;
        let ghost li = labels@;
        let mut j: usize = 0;
        while j < i
            invariant
                j <= i,
                i < n,
                scores.len() == n,
                labels.len() == n,
                (scores@, labels@) == bubble_pass_upto(si, li, j as int),
            decreases i - j,
        {
            let a = weight_abs(scores[j]);
            let b = weight_abs(scores[j + 1]);
            if weight_lt(a, b) {
                let x = scores[j];
                let y = scores[j + 1];
                scores.set(j, y);
                scores.set(j + 1, x);
                swap_adjacent_labels(labels, j);
            }
            j = j + 1;
        }
        proof {
            assert((scores@, labels@) == sort_upto(s0, l0, n as int, (n - i) as int));
        }
    }
}

/// The magnitudes of a score vector, in place: each score's sign is
/// cleared, as the reporting step publishes them.
pub fn magnitudes(scores: &Vec<u32>) -> (r: Vec<u32>)
    ensures
        r@ == Seq::new(scores.len() as nat, |i: int| wabs(scores@[i])),
{
    let mut r: Vec<u32> = Vec::new();
    let mut i: usize = 0;
    while i < scores.len()
        invariant
            i <= scores.len(),
            r.len() == i,
            forall|t: int| 0 <= t < i ==> r@[t] == wabs(scores@[t]),
        decreases scores.len() - i,
    {
        r.push(weight_abs(scores[i]));
        i = i + 1;
    }
    proof {
        assert(r@ =~= Seq::new(scores.len() as nat, |i: int| wabs(scores@[i])));
    }
    r
}

impl crate::store::ATriaPlugin {
    /// Sort the output scores by descending magnitude, carrying the
    /// labels along, as the reporting step expects them. The matrix
    /// and the node count are untouched, so the store stays
    /// well-formed.
    pub fn rank(&mut self)
        requires
            old(self).wf(),
        ensures
            final(self).wf(),
            (final(self).output@, final(self).bacteria@) == sort_spec(
                old(self).output@,
                old(self).bacteria@,
                old(self).output.len() as int,
            ),
            final(self).orig_graph@ == old(self).orig_graph@,
            final(self).bacteria.len() == old(self).bacteria.len(),
    {
        sort_ranked(&mut self.output, &mut self.bacteria);
    }
}

/// No score in the vector is a NaN pattern.
pub open spec fn no_nan(s: Seq<u32>) -> bool {
    forall|t: int| 0 <= t < s.len() ==> !is_nan_bits(#[trigger] s[t])
}

/// One bubble pass keeps the length and the NaN-freedom, leaves the
/// positions beyond its bound untouched, and leaves at its bound a
/// score whose magnitude no earlier position falls below.
proof fn lemma_pass_props(s: Seq<u32>, l: Seq<String>, j: int)
    requires
        0 <= j < s.len(),
        no_nan(s),
    ensures
        bubble_pass_upto(s, l, j).0.len() == s.len(),
        no_nan(bubble_pass_upto(s, l, j).0),
        forall|t: int| j < t < s.len() ==> #[trigger] bubble_pass_upto(s, l, j).0[t] == s[t],
        forall|a: int|
            0 <= a <= j ==> !wlt(
                wabs(#[trigger] bubble_pass_upto(s, l, j).0[a]),
                wabs(bubble_pass_upto(s, l, j).0[j]),
            ),
    decreases j,
{
    if j > 0 {
        lemma_pass_props(s, l, j - 1);
        let p = bubble_pass_upto(s, l, j - 1).0;
        let cur = bubble_pass_upto(s, l, j).0;
        if wlt(wabs(p[j - 1]), wabs(p[j])) {
            lemma_wlt_asymmetric(wabs(p[j - 1]), wabs(p[j]));
        } else {
            assert forall|a: int| 0 <= a <= j implies !wlt(wabs(#[trigger] cur[a]), wabs(cur[j]))
            by {
                if a < j - 1 {
                    lemma_wabs_nan(p[a]);
                    lemma_wabs_nan(p[j - 1]);
                    lemma_wabs_nan(p[j]);
                    lemma_wlt_neg_trans(wabs(p[a]), wabs(p[j - 1]), wabs(p[j]));
                }
            }
        }
    }
}

/// A bound on the magnitudes of the positions a bubble pass covers is
/// kept by the pass: the pass only exchanges those positions among
/// themselves.
proof fn lemma_pass_dominates(s: Seq<u32>, l: Seq<String>, j: int, x: u32)
    requires
        0 <= j < s.len(),
        no_nan(s),
        forall|t: int| 0 <= t <= j ==> !wlt(wabs(#[trigger] s[t]), x),
    ensures
        forall|t: int| 0 <= t <= j ==> !wlt(wabs(#[trigger] bubble_pass_upto(s, l, j).0[t]), x),
    decreases j,
{
    if j > 0 {
        lemma_pass_dominates(s, l, j - 1, x);
        lemma_pass_props(s, l, j - 1);
    }
}

/// After `p` passes the last `p` positions are ranked by descending
/// magnitude, no earlier position falls below any of them, and the
/// scores stay NaN-free.
proof fn lemma_sort_upto_ranks(s: Seq<u32>, l: Seq<String>, n: int, p: int)
    requires
        n == s.len(),
        no_nan(s),
        0 <= p <= n,
    ensures
        sort_upto(s, l, n, p).0.len() == n,
        no_nan(sort_upto(s, l, n, p).0),
        forall|t: int|
            n - p <= t < n - 1 ==> !wlt(
                wabs(#[trigger] sort_upto(s, l, n, p).0[t]),
                wabs(sort_upto(s, l, n, p).0[t + 1]),
            ),
        forall|a: int, t: int|
            0 <= a < n - p && n - p <= t < n ==> !wlt(
                wabs(#[trigger] sort_upto(s, l, n, p).0[a]),
                wabs(#[trigger] sort_upto(s, l, n, p).0[t]),
            ),
    decreases p,
{
    if p > 0 {
        lemma_sort_upto_ranks(s, l, n, p - 1);
        let prev = sort_upto(s, l, n, p - 1);
        let cur = sort_upto(s, l, n, p);
        lemma_pass_props(prev.0, prev.1, n - p);
        assert forall|t: int| n - p + 1 <= t < n implies (forall|a: int|
            0 <= a <= n - p ==> !wlt(wabs(#[trigger] cur.0[a]), wabs(#[trigger] prev.0[t]))) by {
            lemma_pass_dominates(prev.0, prev.1, n - p, wabs(prev.0[t]));
        }
        assert forall|t: int|
            n - p <= t < n - 1 implies !wlt(wabs(#[trigger] cur.0[t]), wabs(cur.0[t + 1])) by {
            if t == n - p {
                assert(cur.0[t + 1] == prev.0[t + 1]);
            }
        }
    }
}

/// For NaN-free scores the sort's result really is ranked: the
/// magnitudes descend from the first position to the last.
pub proof fn lemma_sort_ranks(s: Seq<u32>, l: Seq<String>, n: int)
    requires
        n == s.len(),
        no_nan(s),
    ensures
        ranked(sort_spec(s, l, n).0),
{
    lemma_sort_upto_ranks(s, l, n, n);
    let r = sort_spec(s, l, n).0;
    assert forall|j: int| 0 <= j < r.len() - 1 implies !wlt(
        wabs(r[j]),
        wabs(r[#[trigger] (j + 1)]),
    ) by {
        assert(!wlt(wabs(sort_upto(s, l, n, n).0[j]), wabs(sort_upto(s, l, n, n).0[j + 1])));
    }
}

/// Sorting leaves a pair that is already ranked untouched: every
/// bubble comparison is strict, so a second sort of a sorted pair is
/// a no-op.
pub proof fn lemma_sort_of_ranked_is_identity(s: Seq<u32>, l: Seq<String>, n: int)
    requires
        ranked(s),
        n == s.len(),
    ensures
        sort_spec(s, l, n) == (s, l),
{
    lemma_sort_upto_ranked_identity(s, l, n, n);
}

/// Helper induction for `lemma_sort_of_ranked_is_identity` over the
/// number of passes.
proof fn lemma_sort_upto_ranked_identity(s: Seq<u32>, l: Seq<String>, n: int, p: int)
    requires
        ranked(s),
        n == s.len(),
        p <= n,
    ensures
        sort_upto(s, l, n, p) == (s, l),
    decreases p,
{
    if p > 0 {
        lemma_sort_upto_ranked_identity(s, l, n, p - 1);
        lemma_pass_ranked_identity(s, l, n - p);
    }
}

/// Helper induction for `lemma_sort_of_ranked_is_identity` over one
/// pass: on a ranked vector no comparison fires.
proof fn lemma_pass_ranked_identity(s: Seq<u32>, l: Seq<String>, j: int)
    requires
        ranked(s),
        j < s.len(),
    ensures
        bubble_pass_upto(s, l, j) == (s, l),
    decreases j,
{
    if j > 0 {
        lemma_pass_ranked_identity(s, l, j - 1);
    }
}

} // verus!
