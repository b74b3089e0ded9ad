use linalg_stats::statistics::{mean, median};

#[test]
fn statistics_test_mean() {
    assert_eq!(mean(&vec![]), Some(0));
    assert_eq!(mean(&vec![0, 1, 2, 3]), Some(6 / 4));
}

#[test]
fn test_median() {
    let mut empty = Vec::<i64>::new();
    assert_eq!(median(&mut empty), None);
    assert_eq!(median(&mut vec![1]), Some(1));
}

#[test]
fn mean_divides_sum_by_count() {
    assert_eq!(mean(&vec![2, 4, 9]), Some(5));
    assert_eq!(mean(&vec![7]), Some(7));
}

#[test]
fn mean_rounds_toward_zero() {
    assert_eq!(mean(&vec![-1, -2]), Some(-1));
    assert_eq!(mean(&vec![-7, 0]), Some(-3));
}

#[test]
fn median_sorts_its_input() {
    let mut v = vec![5, 1, 4, 2, 3];
    assert_eq!(median(&mut v), Some(3));
    assert_eq!(v, vec![1, 2, 3, 4, 5]);
}

#[test]
fn median_of_even_length_averages_middle() {
    assert_eq!(median(&mut vec![4, 1, 3, 2]), Some(2));
    assert_eq!(median(&mut vec![10, 20]), Some(15));
    assert_eq!(median(&mut vec![-1, -2]), Some(-1));
}

#[test]
fn median_of_largest_values_does_not_overflow() {
    assert_eq!(median(&mut vec![i64::MAX, i64::MAX]), Some(i64::MAX));
    assert_eq!(median(&mut vec![i64::MIN, i64::MIN]), Some(i64::MIN));
}

#[test]
fn median_with_duplicates() {
    assert_eq!(median(&mut vec![2, 2, 1, 2, 9]), Some(2));
}

#[test]
fn median_twice_on_sorted_copy() {
    let mut v = vec![9, -3, 4, 4, 0, 12];
    let first = median(&mut v);
    let mut sorted = v.clone();
    let second = median(&mut sorted);
    assert_eq!(first, second);
    assert_eq!(sorted, v);
    assert_eq!(first, Some(4));
}
