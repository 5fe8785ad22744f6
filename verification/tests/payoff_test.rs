use atria::payoff::compute_payoffs;
use atria::payoff::select_max;

fn to_bits(values: Vec<f32>) -> Vec<u32> {
    values.into_iter().map(|x| x.to_bits()).collect()
}

#[test]
fn payoffs_are_row_sums_minus_one() {
    let adj = to_bits(vec![1.5, 2.5, 0.5, 1.0]);

    let payoffs = compute_payoffs(&adj, 2);

    assert_eq!(payoffs, to_bits(vec![3.0, 0.5]));
}

#[test]
fn selection_takes_the_greatest_magnitude() {
    let payoffs = to_bits(vec![1.0, -5.0, 2.0]);

    let (node, magnitude) = select_max(&payoffs);

    assert_eq!(node, 1);
    assert_eq!(magnitude, 5.0_f32.to_bits());
}

#[test]
fn selection_ties_break_to_the_lowest_index() {
    let payoffs = to_bits(vec![2.0, -2.0, 2.0]);

    let (node, magnitude) = select_max(&payoffs);

    assert_eq!(node, 0);
    assert_eq!(magnitude, 2.0_f32.to_bits());
}

#[test]
fn selection_is_stable_under_row_permutation() {
    // The same payoffs inserted in a different node order: the scan
    // must pick the same underlying value with the same magnitude.
    let original = to_bits(vec![1.0, -5.0, 2.0]);
    let permuted = to_bits(vec![2.0, 1.0, -5.0]);

    let (node_a, magnitude_a) = select_max(&original);
    let (node_b, magnitude_b) = select_max(&permuted);

    assert_eq!(magnitude_a, magnitude_b);
    assert_eq!(original[node_a], permuted[node_b]);
}
