use atria::encode::encode_paired;
use atria::store::ATriaPlugin;

fn to_bits(values: Vec<f32>) -> Vec<u32> {
    values.into_iter().map(|x| x.to_bits()).collect()
}

#[test]
fn encoding_places_weights_by_sign() {
    // Diagonal entries become unit weights (mirrored to the pair
    // cell), a positive weight stays on its own cell, and a negative
    // weight moves to the mixed pair cells; here the only in-range
    // mixed cell (1, 1) is then overwritten by the diagonal unit.
    let table = to_bits(vec![0.0, 0.5, -0.25, 0.0]);

    let matrix = encode_paired(&table, 2);

    assert_eq!(matrix, to_bits(vec![1.0, 0.5, 0.0, 1.0]));
}

#[test]
fn encoding_mirrors_a_positive_weight_to_the_pair_cell() {
    // The raw entry at (1, 3) is negative, so its own cell is left to
    // the mirror of the positive entry at (0, 2); the negative weight
    // itself moves to the mixed pair cell (2, 3).
    let mut table = vec![0u32; 16];
    table[0 * 4 + 2] = 0.75_f32.to_bits();
    table[1 * 4 + 3] = (-0.5_f32).to_bits();

    let matrix = encode_paired(&table, 4);

    let w = 0.75_f32.to_bits();
    let one = 1.0_f32.to_bits();
    assert_eq!(matrix[0 * 4 + 2], w);
    assert_eq!(matrix[1 * 4 + 3], w);
    // Every zero off-diagonal entry becomes a unit weight, and the
    // diagonal entries do too.
    assert_eq!(matrix[0 * 4 + 0], one);
    assert_eq!(matrix[0 * 4 + 1], one);
}

#[test]
fn loading_a_126_taxon_table_fills_every_cell() {
    let n = 126;
    let labels: Vec<String> = (0..n).map(|i| format!("taxon {i}")).collect();

    let mut table = vec![0u32; n * n];
    for r in 0..n {
        for c in 0..n {
            let value = (((r * 31 + c * 17) % 19) as f32) / 19.0 - 0.5;
            table[r * n + c] = value.to_bits();
        }
    }

    let matrix = encode_paired(&table, n);
    let plugin = ATriaPlugin::load(labels, matrix).expect("a 126 by 126 matrix with 126 labels");

    assert_eq!(plugin.size(), 126);
    assert_eq!(plugin.bacteria.len(), 126);
    assert_eq!(plugin.orig_graph.len(), 126 * 126);
    for &cell in plugin.orig_graph.iter() {
        assert!(!f32::from_bits(cell).is_nan());
    }
}
