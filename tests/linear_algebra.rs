use linalg_stats::linear_algebra::{
    dot, get_column, get_row, make_matrix, scalar_multiply, shape, sum_of_squares, vector_add,
    vector_subtract, vector_sum,
};

#[test]
fn test_add() {
    assert_eq!(vector_add(&vec![0, 1, 2], &vec![1, 2, 3]), vec![1, 3, 5]);
}

#[test]
fn test_subtract() {
    assert_eq!(
        vector_subtract(&vec![0, 1, 2], &vec![1, 2, 3]),
        vec![-1, -1, -1]
    );
}

#[test]
fn test_sum() {
    assert_eq!(vector_sum(&(Vec::<Vec<i64>>::new())), None);
    assert_eq!(vector_sum(&vec![vec![0, 1, 2]]), Some(vec![0, 1, 2]));
    assert_eq!(
        vector_sum(&vec![
            vec![0, 1, 2, 3, 4, 5],
            vec![1, 2, 3, 4],
            vec![2, 3, 4, 5, 5],
        ]),
        Some(vec![3, 6, 9, 12])
    )
}

#[test]
fn test_scalar_multiply() {
    assert_eq!(scalar_multiply(3, &vec![0, 1, 2, 3]), vec![0, 3, 6, 9]);
}

#[test]
fn test_dot() {
    assert_eq!(dot(&vec![1, 2, 3], &vec![4, 5, 6]), 32);
}

#[test]
fn test_shape() {
    assert_eq!(shape(&Vec::<Vec<i32>>::new()), (0, 0));
    assert_eq!(shape(&vec![vec![0, 1, 2], vec![0, 1, 2]]), (2, 3));
}

#[test]
fn test_get_row_col() {
    let m = &vec![vec![0, 1, 2], vec![4, 5, 6]];
    assert_eq!(get_row(m, 1), &vec![4, 5, 6]);
    assert_eq!(get_column(m, 2), vec![2, 6]);
}

#[test]
fn test_make_matrix() {
    assert_eq!(
        make_matrix(2, 3, |r, c| r + c),
        vec![vec![0, 1, 2], vec![1, 2, 3]]
    );
}

#[test]
fn add_is_elementwise_on_equal_lengths() {
    let v = vec![5, -7, 0, i64::MAX - 1];
    let w = vec![-5, 2, 9, 1];
    let r = vector_add(&v, &w);
    assert_eq!(r.len(), v.len());
    for i in 0..v.len() {
        assert_eq!(r[i], v[i] + w[i]);
    }
}

#[test]
fn subtract_equals_add_of_negated() {
    let v = vec![4, -3, 10];
    let w = vec![1, 8, -2];
    assert_eq!(
        vector_subtract(&v, &w),
        vector_add(&v, &scalar_multiply(-1, &w))
    );
}

#[test]
fn add_and_subtract_drop_the_longer_tail() {
    assert_eq!(vector_add(&vec![1, 2, 3], &vec![10]), vec![11]);
    assert_eq!(vector_subtract(&vec![1], &vec![10, 20]), vec![-9]);
    assert_eq!(vector_add(&Vec::<i64>::new(), &vec![1, 2]), Vec::<i64>::new());
}

#[test]
fn sum_of_two_is_add() {
    let v = vec![1, 2, 3];
    let w = vec![10, 20, 30];
    assert_eq!(vector_sum(&vec![v.clone(), w.clone()]), Some(vector_add(&v, &w)));
}

#[test]
fn sum_of_three_folds_left() {
    let v0 = vec![1, 2, 3];
    let v1 = vec![4, 5, 6];
    let v2 = vec![7, 8];
    let expected = vector_add(&vector_add(&v0, &v1), &v2);
    assert_eq!(vector_sum(&vec![v0, v1, v2]), Some(expected));
    assert_eq!(vector_sum(&vec![vec![1, 2], vec![3, 4], vec![5, 6]]), Some(vec![9, 12]));
}

#[test]
fn sum_of_one_empty_vector_is_present() {
    assert_eq!(vector_sum(&vec![Vec::<i64>::new()]), Some(Vec::new()));
}

#[test]
fn dot_uses_common_length() {
    assert_eq!(dot(&vec![1, 2, 3], &vec![4, 5]), 14);
    assert_eq!(dot(&Vec::new(), &vec![4, 5]), 0);
}

#[test]
fn sum_of_squares_of_vector() {
    assert_eq!(sum_of_squares(&vec![3, -4]), 25);
}

#[test]
fn self_difference_has_zero_square_sum() {
    let v = vec![7, -2, 13, 0];
    assert_eq!(sum_of_squares(&vector_subtract(&v, &v)), 0);
}

#[test]
fn shape_reads_first_row_only() {
    assert_eq!(shape(&vec![vec![1, 2], vec![3, 4, 5], vec![]]), (3, 2));
}

#[test]
fn column_and_row_agree() {
    let m = vec![vec![1, 2, 3], vec![4, 5, 6], vec![7, 8, 9]];
    for r in 0..3 {
        for i in 0..3 {
            assert_eq!(get_column(&m, i)[r], get_row(&m, r)[i]);
        }
    }
}

#[test]
fn make_matrix_with_no_rows_or_columns() {
    assert_eq!(make_matrix(0, 3, |r, c| r * c), Vec::<Vec<usize>>::new());
    assert_eq!(make_matrix(2, 0, |r, c| r * c), vec![Vec::<usize>::new(), Vec::new()]);
}
