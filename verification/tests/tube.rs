use water_sort::tube::{count_color, is_settled};

#[test]
fn empty_tube_is_settled() {
    assert!(is_settled(&vec![]));
}

#[test]
fn full_tube_of_one_color_is_settled() {
    assert!(is_settled(&vec![3, 3, 3, 3]));
    assert!(is_settled(&vec![8, 8, 8, 8]));
}

#[test]
fn partly_filled_tube_is_not_settled() {
    assert!(!is_settled(&vec![3]));
    assert!(!is_settled(&vec![3, 3]));
    assert!(!is_settled(&vec![3, 3, 3]));
}

#[test]
fn mixed_full_tube_is_not_settled() {
    assert!(!is_settled(&vec![3, 3, 3, 4]));
    assert!(!is_settled(&vec![4, 3, 3, 3]));
    assert!(!is_settled(&vec![3, 4, 3, 3]));
}

#[test]
fn overfull_tube_is_not_settled() {
    assert!(!is_settled(&vec![3, 3, 3, 3, 3]));
}

#[test]
fn tube_of_absent_portions_counts_as_settled() {
    assert!(is_settled(&vec![0]));
    assert!(is_settled(&vec![0, 0, 0]));
    assert!(!is_settled(&vec![0, 1]));
}

#[test]
fn count_color_counts_matching_portions() {
    assert_eq!(count_color(&vec![], 1), 0);
    assert_eq!(count_color(&vec![1, 2, 1, 1], 1), 3);
    assert_eq!(count_color(&vec![1, 2, 1, 1], 2), 1);
    assert_eq!(count_color(&vec![1, 2, 1, 1], 3), 0);
}
