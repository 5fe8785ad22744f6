//! The paired-sign encoding of a raw correlation table: each pair of
//! neighbouring node indices jointly encodes a signed relationship —
//! a positive weight feeds the pair's positive member, a negative
//! weight its negative member, and a diagonal or zero entry becomes a
//! unit self-weight.

use vstd::prelude::*;

use crate::spec_vec_offset;
use crate::vec_offset;
use crate::weights::ABSENT;
use crate::weights::ONE;
use crate::weights::is_nan_bits;
use crate::weights::weq;
use crate::weights::wgt;
use crate::weights::wlt;
use crate::weights::weight_eq;
use crate::weights::weight_gt;
use crate::weights::weight_lt;

verus! {

/// The placement of one raw table entry `w` at `(r, c)`. Off the
/// diagonal, a nonzero positive weight lands on `(r, c)` and on the
/// mirrored pair cell below and to the right of it, a nonzero
/// negative weight on the two mixed pair cells, and a weight that is
/// neither (a NaN) lands nowhere. On the diagonal, and for a zero
/// weight, the cell takes a unit weight, mirrored to the pair cell.
/// A pair cell outside the matrix is simply not written.
pub open spec fn encode_cell(m: Seq<u32>, n: int, r: int, c: int, w: u32) -> Seq<u32> {
    if r != c && !weq(w, ABSENT) {
        if wgt(w, ABSENT) {
            let m1 = m.update(spec_vec_offset(r, c, n), w);
            if r + 1 < n && c + 1 < n {
                m1.update(spec_vec_offset(r + 1, c + 1, n), w)
            } else {
                m1
            }
        } else if wlt(w, ABSENT) {
            let m1 = if r + 1 < n {
                m.update(spec_vec_offset(r + 1, c, n), w)
            } else {
                m
            };
            if c + 1 < n {
                m1.update(spec_vec_offset(r, c + 1, n), w)
            } else {
                m1
            }
        } else {
            m
        }
    } else {
        let m1 = m.update(spec_vec_offset(r, c, n), ONE);
        if r + 1 < n && c + 1 < n {
            m1.update(spec_vec_offset(r + 1, c + 1, n), ONE)
        } else {
            m1
        }
    }
}

/// The matrix after the cells `(r, 0) .. (r, c)` of the raw table `t`
/// have been placed.
pub open spec fn encode_row_upto(t: Seq<u32>, m: Seq<u32>, n: int, r: int, c: int) -> Seq<u32>
    decreases c,
{
    if c <= 0 {
        m
    } else {
        encode_cell(
            encode_row_upto(t, m, n, r, c - 1),
            n,
            r,
            c - 1,
            t[spec_vec_offset(r, c - 1, n)],
        )
    }
}

/// The matrix after the rows `0 .. r` of the raw table have been
/// placed.
pub open spec fn encode_upto(t: Seq<u32>, m: Seq<u32>, n: int, r: int) -> Seq<u32>
    decreases r,
{
    if r <= 0 {
        m
    } else {
        encode_row_upto(t, encode_upto(t, m, n, r - 1), n, r - 1, n)
    }
}

/// The paired-sign encoding of a raw square table: every cell placed,
/// over a matrix that starts entirely absent.
pub open spec fn encode_spec(t: Seq<u32>, n: int) -> Seq<u32> {
    encode_upto(t, Seq::new((n * n) as nat, |i: int| ABSENT), n, n)
}

/// Encode a raw correlation table, given row-major, into the
/// paired-sign adjacency matrix the engine loads.
#[verifier::loop_isolation(false)]
pub fn encode_paired(table: &Vec<u32>, n: usize) -> (m: Vec<u32>)
    requires
        table.len() == n * n,
    ensures
        m@ == encode_spec(table@, n as int),
        m.len() == n * n,
{
    let mut m: Vec<u32> = Vec::new();
    let mut f: usize = 0;
    while f < table.len()
        invariant
            f <= table.len(),
            m@ == Seq::new(f as nat, |i: int| ABSENT),
        decreases table.len() - f,
    {
        m.push(ABSENT);
        f = f + 1;
        proof {
            assert(m@ =~= Seq::new(f as nat, |i: int| ABSENT));
        }
    }
    let ghost m0 = m@;
    let mut r: usize = 0;
    while r < n
        invariant
            r <= n,
            m@ == encode_upto(table@, m0, n as int, r as int),
            m.len() == n * n,
        decreases n - r,
    {
        let ghost mr = m@;
        let mut c: usize = 0;
        while c < n
            invariant
                c <= n,
                r < n,
                m@ == encode_row_upto(table@, mr, n as int, r as int, c as int),
                m.len() == n * n,
            decreases n - c,
        {
            let w = table[vec_offset(r, c, n)];
            if r != c && !weight_eq(w, ABSENT) {
                if weight_gt(w, ABSENT) {
                    m.set(vec_offset(r, c, n), w);
                    if r + 1 < n && c + 1 < n {
                        m.set(vec_offset(r + 1, c + 1, n), w);
                    }
                } else if weight_lt(w, ABSENT) {
                    if r + 1 < n {
                        m.set(vec_offset(r + 1, c, n), w);
                    }
                    if c + 1 < n {
                        m.set(vec_offset(r, c + 1, n), w);
                    }
                }
            } else {
                m.set(vec_offset(r, c, n), ONE);
                if r + 1 < n && c + 1 < n {
                    m.set(vec_offset(r + 1, c + 1, n), ONE);
                }
            }
            c = c + 1;
        }
        r = r + 1;
    }
    m
}

/// One placement step never writes a NaN that was not among the
/// weights it was given: every cell of the result holds its old
/// value, the given weight, or the unit weight.
proof fn lemma_encode_cell_cells(m: Seq<u32>, n: int, r: int, c: int, w: u32)
    requires
        m.len() == n * n,
        0 <= r < n,
        0 <= c < n,
    ensures
        encode_cell(m, n, r, c, w).len() == m.len(),
        forall|x: int|
            0 <= x < m.len() ==> #[trigger] encode_cell(m, n, r, c, w)[x] == m[x] || encode_cell(
                m,
                n,
                r,
                c,
                w,
            )[x] == w || encode_cell(m, n, r, c, w)[x] == ONE,
{
    crate::lemma_offset_bounds(n, r, c);
    if r + 1 < n && c + 1 < n {
        crate::lemma_offset_bounds(n, r + 1, c + 1);
    }
    if r + 1 < n {
        crate::lemma_offset_bounds(n, r + 1, c);
    }
    if c + 1 < n {
        crate::lemma_offset_bounds(n, r, c + 1);
    }
}

/// A placed row holds no NaN cell when the raw table holds none.
proof fn lemma_encode_row_no_nan(t: Seq<u32>, m: Seq<u32>, n: int, r: int, c: int)
    requires
        t.len() == n * n,
        m.len() == n * n,
        0 <= r < n,
        0 <= c <= n,
        forall|x: int| 0 <= x < t.len() ==> !is_nan_bits(#[trigger] t[x]),
        forall|x: int| 0 <= x < m.len() ==> !is_nan_bits(#[trigger] m[x]),
    ensures
        encode_row_upto(t, m, n, r, c).len() == n * n,
        forall|x: int|
            0 <= x < n * n ==> !is_nan_bits(#[trigger] encode_row_upto(t, m, n, r, c)[x]),
    decreases c,
{
    if c > 0 {
        lemma_encode_row_no_nan(t, m, n, r, c - 1);
        crate::lemma_offset_bounds(n, r, c - 1);
        lemma_encode_cell_cells(
            encode_row_upto(t, m, n, r, c - 1),
            n,
            r,
            c - 1,
            t[spec_vec_offset(r, c - 1, n)],
        );
        assert(0x3F80_0000u32 & 0x7FFF_FFFFu32 == 0x3F80_0000u32) by (bit_vector);
    }
}

/// The encoded matrix holds no NaN cell when the raw table holds
/// none: every unset cell is the absent weight, never an undefined
/// value.
pub proof fn lemma_encode_no_nan(t: Seq<u32>, m: Seq<u32>, n: int, r: int)
    requires
        t.len() == n * n,
        m.len() == n * n,
        0 <= r <= n,
        forall|x: int| 0 <= x < t.len() ==> !is_nan_bits(#[trigger] t[x]),
        forall|x: int| 0 <= x < m.len() ==> !is_nan_bits(#[trigger] m[x]),
    ensures
        encode_upto(t, m, n, r).len() == n * n,
        forall|x: int| 0 <= x < n * n ==> !is_nan_bits(#[trigger] encode_upto(t, m, n, r)[x]),
    decreases r,
{
    if r > 0 {
        lemma_encode_no_nan(t, m, n, r - 1);
        lemma_encode_row_no_nan(t, encode_upto(t, m, n, r - 1), n, r - 1, n);
    }
}

/// The full encoding of a NaN-free raw table yields a NaN-free
/// matrix.
pub proof fn lemma_encode_spec_no_nan(t: Seq<u32>, n: int)
    requires
        n >= 0,
        t.len() == n * n,
        forall|x: int| 0 <= x < t.len() ==> !is_nan_bits(#[trigger] t[x]),
    ensures
        forall|x: int| 0 <= x < n * n ==> !is_nan_bits(#[trigger] encode_spec(t, n)[x]),
{
    let m0 = Seq::new((n * n) as nat, |i: int| ABSENT);
    assert(0u32 & 0x7FFF_FFFFu32 == 0u32) by (bit_vector);
    assert(forall|x: int| 0 <= x < m0.len() ==> !is_nan_bits(#[trigger] m0[x]));
    lemma_encode_no_nan(t, m0, n, n);
}

} // verus!
