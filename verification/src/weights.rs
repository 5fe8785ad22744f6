//! The weight domain of the adjacency matrix.
//!
//! Edge weights are IEEE 754 single-precision values, carried as their
//! 32-bit patterns so that every decision the algorithm makes on them
//! (comparison, equality, magnitude) is verified code over plain integers.
//! Only the rounding arithmetic (product, sum, difference) is delegated to
//! an outside soft-float implementation behind trusted wrappers, whose
//! results are named by uninterpreted spec functions: the same operands
//! always give the same result.

use rustc_apfloat::Float;
use vstd::prelude::*;

verus! {

/// Bit pattern of positive zero, the "absent edge" marker.
pub const ABSENT: u32 = 0;

/// Bit pattern of the largest finite single-precision value, the
/// "removed edge" sentinel: larger in magnitude than any legitimate
/// input weight, and never produced by a correlation table.
pub const REMOVED: u32 = 0x7F7F_FFFF;

/// Bit pattern of positive infinity.
pub const INFINITY_BITS: u32 = 0x7F80_0000;

/// Bit pattern of one.
pub const ONE: u32 = 0x3F80_0000;

/// The sign bit of a weight's bit pattern.
pub open spec fn sign_bit(a: u32) -> bool {
    a & 0x8000_0000 != 0
}

/// The magnitude bits of a weight: the pattern with the sign cleared.
/// For finite values and infinities this orders exactly as the absolute
/// value does.
pub open spec fn mag_bits(a: u32) -> u32 {
    a & 0x7FFF_FFFF
}

/// Whether a bit pattern encodes a NaN: magnitude strictly above that of
/// infinity, i.e. exponent all ones with a nonzero mantissa.
pub open spec fn is_nan_bits(a: u32) -> bool {
    mag_bits(a) > 0x7F80_0000
}

/// IEEE 754 equality over bit patterns: NaN equals nothing, the two
/// zeros are equal, and every other value is equal exactly to itself.
pub open spec fn weq(a: u32, b: u32) -> bool {
    &&& !is_nan_bits(a)
    &&& !is_nan_bits(b)
    &&& (a == b || (mag_bits(a) == 0 && mag_bits(b) == 0))
}

/// IEEE 754 "less than" over bit patterns: false whenever a NaN is
/// involved, and otherwise the sign-magnitude order of the patterns.
pub open spec fn wlt(a: u32, b: u32) -> bool {
    if is_nan_bits(a) || is_nan_bits(b) {
        false
    } else if mag_bits(a) == 0 && mag_bits(b) == 0 {
        false
    } else if sign_bit(a) != sign_bit(b) {
        sign_bit(a)
    } else if !sign_bit(a) {
        mag_bits(a) < mag_bits(b)
    } else {
        mag_bits(b) < mag_bits(a)
    }
}

/// IEEE 754 "greater than" is "less than" with the operands exchanged.
pub open spec fn wgt(a: u32, b: u32) -> bool {
    wlt(b, a)
}

/// IEEE 754 "less than or equal": less than, or equal; false whenever
/// a NaN is involved.
pub open spec fn wle(a: u32, b: u32) -> bool {
    wlt(a, b) || weq(a, b)
}

/// The absolute value of a weight: the sign bit cleared, as the
/// single-precision `fabs` operation computes it.
pub open spec fn wabs(a: u32) -> u32 {
    mag_bits(a)
}

/// Equality test on weights, verified against `weq`.
pub fn weight_eq(a: u32, b: u32) -> (r: bool)
    ensures
        r == weq(a, b),
{
    let ma: u32 = a & 0x7FFF_FFFF;
    let mb: u32 = b & 0x7FFF_FFFF;
    if ma > 0x7F80_0000 || mb > 0x7F80_0000 {
        false
    } else {
        a == b || (ma == 0 && mb == 0)
    }
}

/// Order test on weights, verified against `wlt`.
pub fn weight_lt(a: u32, b: u32) -> (r: bool)
    ensures
        r == wlt(a, b),
{
    let ma: u32 = a & 0x7FFF_FFFF;
    let mb: u32 = b & 0x7FFF_FFFF;
    let sa: bool = a & 0x8000_0000 != 0;
    let sb: bool = b & 0x8000_0000 != 0;
    if ma > 0x7F80_0000 || mb > 0x7F80_0000 {
        false
    } else if ma == 0 && mb == 0 {
        false
    } else if sa != sb {
        sa
    } else if !sa {
        ma < mb
    } else {
        mb < ma
    }
}

/// Order-or-equality test on weights, verified against `wle`.
pub fn weight_le(a: u32, b: u32) -> (r: bool)
    ensures
        r == wle(a, b),
{
    weight_lt(a, b) || weight_eq(a, b)
}

/// Strict "greater than" on weights, verified against `wgt`.
pub fn weight_gt(a: u32, b: u32) -> (r: bool)
    ensures
        r == wgt(a, b),
{
    weight_lt(b, a)
}

/// Magnitude of a weight, verified against `wabs`.
pub fn weight_abs(a: u32) -> (r: u32)
    ensures
        r == wabs(a),
{
    a & 0x7FFF_FFFF
}

/// The product of two weights, as single-precision multiplication with
/// round-to-nearest-even returns it.
pub uninterp spec fn wmul(a: u32, b: u32) -> u32;

/// The sum of two weights, as single-precision addition with
/// round-to-nearest-even returns it.
pub uninterp spec fn wadd(a: u32, b: u32) -> u32;

/// The difference of two weights, as single-precision subtraction with
/// round-to-nearest-even returns it.
pub uninterp spec fn wsub(a: u32, b: u32) -> u32;

/// Relies on `rustc_apfloat::ieee::Single`: `mul_r` with
/// round-to-nearest-even is IEEE 754 single-precision multiplication on
/// the operands' bit patterns, a function of the two operands alone.
#[verifier::external_body]
pub(crate) fn weight_mul(a: u32, b: u32) -> (r: u32)
    ensures
        r == wmul(a, b),
{
    let x = rustc_apfloat::ieee::Single::from_bits(a as u128);
    let y = rustc_apfloat::ieee::Single::from_bits(b as u128);
    let p = rustc_apfloat::Float::mul_r(x, y, rustc_apfloat::Round::NearestTiesToEven);
    rustc_apfloat::Float::to_bits(p.value) as u32
}

/// Relies on `rustc_apfloat::ieee::Single`: `add_r` with
/// round-to-nearest-even is IEEE 754 single-precision addition on the
/// operands' bit patterns, a function of the two operands alone.
#[verifier::external_body]
pub(crate) fn weight_add(a: u32, b: u32) -> (r: u32)
    ensures
        r == wadd(a, b),
{
    let x = rustc_apfloat::ieee::Single::from_bits(a as u128);
    let y = rustc_apfloat::ieee::Single::from_bits(b as u128);
    let s = rustc_apfloat::Float::add_r(x, y, rustc_apfloat::Round::NearestTiesToEven);
    rustc_apfloat::Float::to_bits(s.value) as u32
}

/// Relies on `rustc_apfloat::ieee::Single`: `sub_r` with
/// round-to-nearest-even is IEEE 754 single-precision subtraction on the
/// operands' bit patterns, a function of the two operands alone.
#[verifier::external_body]
pub(crate) fn weight_sub(a: u32, b: u32) -> (r: u32)
    ensures
        r == wsub(a, b),
{
    let x = rustc_apfloat::ieee::Single::from_bits(a as u128);
    let y = rustc_apfloat::ieee::Single::from_bits(b as u128);
    let d = rustc_apfloat::Float::sub_r(x, y, rustc_apfloat::Round::NearestTiesToEven);
    rustc_apfloat::Float::to_bits(d.value) as u32
}

/// The weight order is asymmetric: no two weights are each less than
/// the other.
pub proof fn lemma_wlt_asymmetric(a: u32, b: u32)
    ensures
        wlt(a, b) ==> !wlt(b, a),
{
}

/// The weight order is transitive. No NaN hypothesis is needed: a
/// comparison that holds already rules NaN operands out.
pub proof fn lemma_wlt_transitive(a: u32, b: u32, c: u32)
    requires
        wlt(a, b),
        wlt(b, c),
    ensures
        wlt(a, c),
{
}

/// On weights that are not NaN, "not below" carries over: a weight no
/// smaller than a second, which is no smaller than a third, is no
/// smaller than the third.
pub proof fn lemma_wlt_neg_trans(a: u32, b: u32, c: u32)
    requires
        !is_nan_bits(a),
        !is_nan_bits(b),
        !is_nan_bits(c),
        !wlt(a, b),
        !wlt(b, c),
    ensures
        !wlt(a, c),
{
}

/// The magnitude of a weight is NaN exactly when the weight is.
pub proof fn lemma_wabs_nan(a: u32)
    ensures
        is_nan_bits(wabs(a)) == is_nan_bits(a),
{
    assert((a & 0x7FFF_FFFF) & 0x7FFF_FFFF == a & 0x7FFF_FFFF) by (bit_vector);
}

} // verus!
