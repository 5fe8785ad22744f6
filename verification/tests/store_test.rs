use atria::store::ATriaPlugin;
use atria::store::ShapeError;

#[test]
fn size_after_load_equals_the_label_count() {
    let labels = vec![String::from("x"), String::from("y"), String::from("z")];
    let matrix = vec![0u32; 9];

    let plugin = ATriaPlugin::load(labels, matrix).expect("a 3 by 3 matrix with 3 labels");

    assert_eq!(plugin.size(), 3);
    assert_eq!(plugin.bacteria.len(), 3);
    assert_eq!(plugin.output.len(), 3);
}

#[test]
fn size_stays_equal_through_run_and_rank() {
    let labels = vec![String::from("x"), String::from("y")];
    let matrix = vec![1.5_f32.to_bits(); 4];

    let mut plugin = ATriaPlugin::load(labels, matrix).expect("a 2 by 2 matrix with 2 labels");
    plugin.run().expect("a square store must run");
    plugin.rank();

    assert_eq!(plugin.size(), 2);
    assert_eq!(plugin.bacteria.len(), 2);
    assert_eq!(plugin.output.len(), 2);
}

#[test]
fn load_rejects_a_matrix_that_is_not_square() {
    let labels = vec![String::from("x"), String::from("y"), String::from("z")];
    let matrix = vec![0u32; 8];

    assert!(matches!(ATriaPlugin::load(labels, matrix), Err(ShapeError::NotSquare)));
}

#[test]
fn get_set_and_snapshot_work_on_cells() {
    let labels = vec![String::from("x"), String::from("y")];
    let matrix = vec![0u32; 4];
    let mut plugin = ATriaPlugin::load(labels, matrix).expect("a 2 by 2 matrix with 2 labels");

    let w = 2.5_f32.to_bits();
    plugin.set(0, 1, w);

    assert_eq!(plugin.get(0, 1), w);
    assert_eq!(plugin.get(1, 0), 0);

    let copy = plugin.snapshot();
    assert_eq!(copy, plugin.orig_graph);

    plugin.set(0, 1, 0);
    assert_eq!(copy[1], w, "the snapshot is an independent copy");
}
