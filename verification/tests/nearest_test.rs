use rustyray::nearest::{any_hit_except, nearest_hit};

#[test]
fn nearest_of_no_hits() {
    assert_eq!(nearest_hit(&vec![]), None);
    assert_eq!(nearest_hit(&vec![None, None]), None);
}

#[test]
fn nearest_picks_smallest_key() {
    assert_eq!(nearest_hit(&vec![Some(9), None, Some(4), Some(7)]), Some(2));
    assert_eq!(nearest_hit(&vec![None, Some(0)]), Some(1));
}

#[test]
fn nearest_keeps_first_of_equals() {
    assert_eq!(nearest_hit(&vec![Some(5), Some(3), None, Some(3)]), Some(1));
}

#[test]
fn shadow_test_skips_the_lit_object() {
    assert!(!any_hit_except(&vec![Some(1)], 0));
    assert!(!any_hit_except(&vec![None, Some(1), None], 1));
    assert!(any_hit_except(&vec![None, Some(1), Some(2)], 1));
    assert!(!any_hit_except(&vec![], 0));
    assert!(any_hit_except(&vec![Some(3)], 5));
}
