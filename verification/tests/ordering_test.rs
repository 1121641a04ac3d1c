use rustyray::ordering::order_by_key;

#[test]
fn order_of_arrival_to_view_order() {
    // Zones 0..5 arrived as 3, 0, 4, 1, 2.
    let keys = vec![3usize, 0, 4, 1, 2];
    let order = order_by_key(&keys);
    assert_eq!(order, vec![1, 3, 4, 0, 2]);
    let sorted: Vec<usize> = order.iter().map(|&p| keys[p]).collect();
    assert_eq!(sorted, vec![0, 1, 2, 3, 4]);
}

#[test]
fn order_is_stable_for_equal_keys() {
    let keys = vec![2usize, 1, 2, 1, 0];
    assert_eq!(order_by_key(&keys), vec![4, 1, 3, 0, 2]);
}

#[test]
fn order_of_nothing_and_one() {
    assert!(order_by_key(&vec![]).is_empty());
    assert_eq!(order_by_key(&vec![7]), vec![0]);
}

#[test]
fn order_matches_std_stable_sort() {
    let keys: Vec<usize> = (0..40).map(|x| (x * 17 + 5) % 11).collect();
    let mut expected: Vec<usize> = (0..keys.len()).collect();
    expected.sort_by_key(|&p| keys[p]);
    assert_eq!(order_by_key(&keys), expected);
}
