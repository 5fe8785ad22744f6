use atria::ranking::magnitudes;
use atria::ranking::sort_ranked;

fn to_bits(values: Vec<f32>) -> Vec<u32> {
    values.into_iter().map(|x| x.to_bits()).collect()
}

fn labels(names: &[&str]) -> Vec<String> {
    names.iter().map(|s| s.to_string()).collect()
}

#[test]
fn sorting_orders_by_descending_magnitude_with_labels() {
    let mut scores = to_bits(vec![1.0, -3.0, 2.0]);
    let mut names = labels(&["a", "b", "c"]);

    sort_ranked(&mut scores, &mut names);

    assert_eq!(scores, to_bits(vec![-3.0, 2.0, 1.0]));
    assert_eq!(names, labels(&["b", "c", "a"]));
}

#[test]
fn resorting_a_sorted_pair_is_a_noop() {
    let mut scores = to_bits(vec![1.0, -3.0, 2.0]);
    let mut names = labels(&["a", "b", "c"]);

    sort_ranked(&mut scores, &mut names);
    let sorted_scores = scores.clone();
    let sorted_names = names.clone();

    sort_ranked(&mut scores, &mut names);

    assert_eq!(scores, sorted_scores);
    assert_eq!(names, sorted_names);
}

#[test]
fn magnitudes_clear_the_sign() {
    let scores = to_bits(vec![-2.5, 3.0, -0.0]);

    assert_eq!(magnitudes(&scores), to_bits(vec![2.5, 3.0, 0.0]));
}
