use atria::closure::compute_closure;
use atria::engine::PARTITION_SIZE;

fn to_bits(values: Vec<f32>) -> Vec<u32> {
    values.into_iter().map(|x| x.to_bits()).collect()
}

#[test]
fn closure_applies_the_parity_rule_on_a_small_block() {
    // Row-major 2 by 2 snapshot. The only cell the block relaxation can
    // touch is (0, 1) through pivot 0: the candidate 0.5 * 8.0 == 4.0
    // wins because 0 + 1 is odd and 8.0 > 4.0. The cell (1, 0) keeps
    // 2.0 because its candidate 3.0 * 2.0 == 6.0 is not smaller.
    let mut adj = to_bits(vec![0.5, 8.0, 2.0, 3.0]);

    compute_closure(&mut adj, 2, PARTITION_SIZE);

    assert_eq!(adj, to_bits(vec![0.5, 4.0, 2.0, 3.0]));
}

#[test]
fn closure_is_deterministic() {
    let snapshot = to_bits(vec![
        0.0,
        f32::INFINITY,
        -2.0,
        f32::INFINITY,
        4.0,
        0.0,
        3.0,
        f32::INFINITY,
        f32::INFINITY,
        f32::INFINITY,
        0.0,
        2.0,
        f32::INFINITY,
        -1.0,
        f32::INFINITY,
        0.0,
    ]);

    let mut first = snapshot.clone();
    let mut second = snapshot.clone();

    compute_closure(&mut first, 4, PARTITION_SIZE);
    compute_closure(&mut second, 4, PARTITION_SIZE);

    assert_eq!(first, second);
    assert_ne!(first, snapshot, "the fixture snapshot must actually relax");
}

#[test]
fn partitions_do_not_reach_across_their_block() {
    // With a partition size of one no triple loop has room to relax
    // anything: every cell must come out untouched.
    let snapshot = to_bits(vec![0.5, 8.0, 2.0, 3.0]);
    let mut adj = snapshot.clone();

    compute_closure(&mut adj, 2, 1);

    assert_eq!(adj, snapshot);
}
