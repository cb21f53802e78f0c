use deadline::order::stable_order;

#[test]
fn stable_order_sorts_by_rank_then_day_keeping_ties() {
    let keys = vec![(1, 10), (0, 50), (1, 5), (1, 10), (2, 0), (0, 50)];
    assert_eq!(stable_order(&keys), vec![1, 5, 2, 0, 3, 4]);
}

#[test]
fn stable_order_lists_every_position_once() {
    let keys: Vec<(u8, i32)> = (0..40).map(|i| ((i * 7 % 3) as u8, (i * 13 % 5) as i32 - 2)).collect();
    let order = stable_order(&keys);
    let mut seen = order.clone();
    seen.sort();
    assert_eq!(seen, (0..40).collect::<Vec<usize>>());
    let mut expected: Vec<usize> = (0..40).collect();
    expected.sort_by_key(|&i| keys[i]);
    assert_eq!(order, expected);
}

#[test]
fn stable_order_of_nothing() {
    assert_eq!(stable_order(&vec![]), Vec::<usize>::new());
}
