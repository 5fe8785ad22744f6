use atria::closure::compute_closure;
use atria::engine::PARTITION_SIZE;
use atria::payoff::compute_payoffs;
use atria::weights::weight_abs;
use atria::weights::weight_eq;
use atria::weights::weight_gt;
use atria::weights::weight_le;
use atria::weights::weight_lt;
use atria::weights::ABSENT;
use atria::weights::INFINITY_BITS;
use atria::weights::ONE;
use atria::weights::REMOVED;

fn samples() -> Vec<f32> {
    vec![
        0.0_f32,
        -0.0,
        1.0,
        -1.0,
        1.5,
        -2.25,
        0.1,
        100.25,
        -100.25,
        f32::MAX,
        f32::MIN,
        f32::MIN_POSITIVE,
        1.0e-40,
        -1.0e-40,
        f32::INFINITY,
        f32::NEG_INFINITY,
        f32::NAN,
    ]
}

#[test]
fn named_constants_hold_the_expected_patterns() {
    assert_eq!(ABSENT, 0.0_f32.to_bits());
    assert_eq!(REMOVED, f32::MAX.to_bits());
    assert_eq!(INFINITY_BITS, f32::INFINITY.to_bits());
    assert_eq!(ONE, 1.0_f32.to_bits());
}

#[test]
fn comparisons_match_hardware_singles() {
    for &a in samples().iter() {
        for &b in samples().iter() {
            let ab = a.to_bits();
            let bb = b.to_bits();
            assert_eq!(weight_lt(ab, bb), a < b, "lt on {a} {b}");
            assert_eq!(weight_le(ab, bb), a <= b, "le on {a} {b}");
            assert_eq!(weight_gt(ab, bb), a > b, "gt on {a} {b}");
            assert_eq!(weight_eq(ab, bb), a == b, "eq on {a} {b}");
        }
        assert_eq!(weight_abs(a.to_bits()), a.abs().to_bits(), "abs on {a}");
    }
}

#[test]
fn closure_products_match_hardware_singles() {
    // On the snapshot [[a, b], [0, 0]] the only relaxation candidate
    // is the product a * b against the cell b under the odd-parity
    // rule, so the closure's cell (0, 1) reveals the product exactly
    // as the hardware computes it whenever it wins the comparison.
    for &a in samples().iter() {
        for &b in samples().iter() {
            let mut adj = vec![a.to_bits(), b.to_bits(), 0, 0];
            compute_closure(&mut adj, 2, PARTITION_SIZE);
            let expected = if b > a * b { a * b } else { b };
            assert_eq!(adj[1], expected.to_bits(), "closure product on {a} {b}");
            assert_eq!(adj[0], a.to_bits());
        }
    }
}

#[test]
fn payoff_sums_match_hardware_singles() {
    // The payoff of row 0 in [[a, b], [0, 0]] is ((0 + a) + b) - 1,
    // in that association order, so it reveals the sums and the
    // difference exactly as the hardware computes them.
    for &a in samples().iter() {
        for &b in samples().iter() {
            let adj = vec![a.to_bits(), b.to_bits(), 0, 0];
            let payoffs = compute_payoffs(&adj, 2);
            let expected = ((0.0_f32 + a) + b) - 1.0_f32;
            if expected.is_nan() {
                assert!(f32::from_bits(payoffs[0]).is_nan(), "payoff on {a} {b}");
            } else {
                assert_eq!(payoffs[0], expected.to_bits(), "payoff on {a} {b}");
            }
        }
    }
}
