use atria::removal::remove_triad;
use atria::removal::sweep_diagonal;
use atria::weights::REMOVED;

#[test]
fn remarking_a_sentinel_cell_leaves_it_unchanged() {
    // A 4-node matrix where the triad around node 0 includes the edge
    // between nodes 2 and 3, which is already marked removed: after
    // another removal it must hold exactly the sentinel again.
    let one = 1.0_f32.to_bits();
    let mut g = vec![0u32; 16];
    g[0 * 4 + 2] = one;
    g[0 * 4 + 3] = one;
    g[2 * 4 + 3] = REMOVED;
    g[3 * 4 + 2] = REMOVED;

    remove_triad(&mut g, 4, 0);

    assert_eq!(g[2 * 4 + 3], REMOVED);
    assert_eq!(g[3 * 4 + 2], REMOVED);
}

#[test]
fn removal_marks_both_halves_of_a_triad_edge() {
    let one = 1.0_f32.to_bits();
    let half = 0.5_f32.to_bits();
    let mut g = vec![0u32; 16];
    g[0 * 4 + 2] = one;
    g[0 * 4 + 3] = one;
    g[2 * 4 + 3] = half;

    remove_triad(&mut g, 4, 0);

    assert_eq!(g[2 * 4 + 3], REMOVED);
    assert_eq!(g[3 * 4 + 2], REMOVED);
    // The direct edges between the pair and its neighbours are marked
    // too, in both directions.
    assert_eq!(g[0 * 4 + 2], REMOVED);
    assert_eq!(g[2 * 4 + 0], REMOVED);
    assert_eq!(g[0 * 4 + 3], REMOVED);
    assert_eq!(g[3 * 4 + 0], REMOVED);
}

#[test]
fn the_sweep_resets_only_sentinel_diagonal_cells() {
    let half = 0.5_f32.to_bits();
    let mut g = vec![0u32; 9];
    g[0 * 3 + 0] = REMOVED;
    g[1 * 3 + 1] = half;
    g[0 * 3 + 2] = REMOVED;

    sweep_diagonal(&mut g, 3);

    assert_eq!(g[0 * 3 + 0], 0);
    assert_eq!(g[1 * 3 + 1], half, "a genuine diagonal weight stays");
    assert_eq!(g[0 * 3 + 2], REMOVED, "off-diagonal cells are not swept");
}
