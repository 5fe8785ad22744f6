use atria::engine::RunOutcome;
use atria::store::ATriaPlugin;
use atria::store::ShapeError;
use atria::weights::REMOVED;

fn to_bits(values: Vec<f32>) -> Vec<u32> {
    values.into_iter().map(|x| x.to_bits()).collect()
}

fn fixture() -> ATriaPlugin {
    let mut plugin = ATriaPlugin::default();

    plugin.orig_graph = to_bits(vec![
        0.0,
        f32::INFINITY,
        -2.0,
        f32::INFINITY,
        4.0,
        0.0,
        3.0,
        f32::INFINITY,
        f32::INFINITY,
        f32::INFINITY,
        0.0,
        2.0,
        f32::INFINITY,
        -1.0,
        f32::INFINITY,
        0.0,
    ]);

    plugin.bacteria = vec![
        String::from("Test Bac 1"),
        String::from("Test Bac 2"),
        String::from("Test Bac 3"),
        String::from("Test Bac 4"),
    ];

    plugin.output = vec![0u32; 4];

    plugin
}

#[test]
fn it_can_run() {
    let mut plugin = fixture();

    assert!(plugin.run().is_ok());
}

#[test]
fn run_reports_a_terminal_state_and_scores() {
    let mut plugin = fixture();

    let outcome = plugin.run().expect("a square store must run");
    assert!(matches!(outcome, RunOutcome::Converged | RunOutcome::Exhausted));
    assert_eq!(plugin.bacteria.len(), 4);
    assert_eq!(plugin.output.len(), 4);
    assert_eq!(plugin.orig_graph.len(), 16);
}

#[test]
fn run_is_deterministic() {
    let mut first = fixture();
    let mut second = fixture();

    let a = first.run().expect("a square store must run");
    let b = second.run().expect("a square store must run");

    assert_eq!(a, b);
    assert_eq!(first.orig_graph, second.orig_graph);
    assert_eq!(first.output, second.output);
}

#[test]
fn no_diagonal_cell_holds_the_sentinel_after_a_run() {
    let mut plugin = fixture();

    plugin.run().expect("a square store must run");

    for i in 0..4 {
        assert_ne!(plugin.orig_graph[i * 4 + i], REMOVED, "diagonal cell {i}");
    }
}

#[test]
fn a_single_node_with_a_unit_weight_converges_at_once() {
    // The closure of a 1 by 1 matrix is the matrix itself, so the only
    // payoff is 1.0 - 1.0 == 0.0: the very first round converges and
    // records nothing.
    let labels = vec![String::from("only")];
    let matrix = vec![1.0_f32.to_bits()];
    let mut plugin = ATriaPlugin::load(labels, matrix).expect("a 1 by 1 matrix with 1 label");

    let outcome = plugin.run().expect("a square store must run");

    assert_eq!(outcome, RunOutcome::Converged);
    assert_eq!(plugin.output, vec![0u32]);
    assert_eq!(plugin.orig_graph, vec![1.0_f32.to_bits()]);
}

#[test]
fn run_rejects_a_store_that_is_not_square() {
    let mut plugin = ATriaPlugin::default();
    plugin.bacteria = vec![String::from("a"), String::from("b")];
    plugin.orig_graph = vec![0u32; 3];
    plugin.output = vec![0u32; 2];

    assert_eq!(plugin.run(), Err(ShapeError::NotSquare));
    assert_eq!(plugin.orig_graph.len(), 3);
}
