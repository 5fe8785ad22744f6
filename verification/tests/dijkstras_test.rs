use atria::dijkstras::dijkstras;

fn to_bits_rows(rows: Vec<Vec<f32>>) -> Vec<Vec<u32>> {
    rows.into_iter().map(|r| r.into_iter().map(|x| x.to_bits()).collect()).collect()
}

#[test]
fn a_single_node_is_at_distance_zero_from_itself() {
    let graph = vec![vec![0.0_f32.to_bits()]];

    assert_eq!(dijkstras(&graph, 0), vec![0.0_f32.to_bits()]);
}

#[test]
fn it_werks() {
    let graph = to_bits_rows(vec![
        vec![0.0, f32::INFINITY, -2.0, f32::INFINITY],
        vec![4.0, 0.0, 3.0, f32::INFINITY],
        vec![f32::INFINITY, f32::INFINITY, 0.0, 2.0],
        vec![f32::INFINITY, -1.0, f32::INFINITY, 0.0],
    ]);

    let expected = to_bits_rows(vec![
        vec![0.0, -1.0, -2.0, 0.0],
        vec![4.0, 0.0, 3.0, 5.0],
        vec![5.0, 1.0, 0.0, 2.0],
        vec![3.0, -1.0, 2.0, 0.0],
    ]);

    let mut calculated = vec![];

    for i in 0..graph.len() {
        calculated.push(dijkstras(&graph, i));
    }

    assert_eq!(expected, calculated);
}
