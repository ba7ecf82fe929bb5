use edit_prediction_context::ranking::rank;

#[test]
fn rank_sorts_by_key_and_keeps_order_of_equals() {
    let ranked = rank(vec![(5, 0), (1, 1), (5, 2), (0, 3), (1, 4)]);
    assert_eq!(ranked, vec![(0, 3), (1, 1), (1, 4), (5, 0), (5, 2)]);
}

#[test]
fn rank_of_nothing_is_nothing() {
    assert_eq!(rank(Vec::new()), Vec::new());
    assert_eq!(rank(vec![(9, 4)]), vec![(9, 4)]);
}
