use lgs_lib::dependency::is_a_linear_dependent_row;
use lgs_lib::matrix::Matrix;

fn matrix(rows: Vec<Vec<f64>>) -> Matrix<f64> {
    Matrix::from_data(rows).unwrap()
}

#[test]
fn matrix_linear_dependencies_test_matrix_with_no_linear_dependencies() {
    let m: Matrix<f64> =
        Matrix::from_data(vec![vec![1_f64, 2_f64, 3_f64], vec![4_f64, 4_f64, 6_f64]]).unwrap();
    let actual: Matrix<f64> = m.remove_linear_dependent_rows();
    let expectd: Matrix<f64> =
        Matrix::from_data(vec![vec![1_f64, 2_f64, 3_f64], vec![4_f64, 4_f64, 6_f64]]).unwrap();

    assert_eq!(actual, expectd);
}

#[test]
fn matrix_linear_dependencies_test_row_is_linear_dependant_with_empty_vectors() {
    assert!(!is_a_linear_dependent_row::<f64>(&vec![], &vec![]));
}

#[test]
fn matrix_linear_dependencies_test_row_linear_is_linear_dependent_is_true() {
    assert!(is_a_linear_dependent_row(&vec![1.0], &vec![2.0]));
    assert!(is_a_linear_dependent_row(&vec![2.0], &vec![1.0]));
}

#[test]
fn matrix_linear_dependencies_test_row_linear_dependent_row_with_3_values() {
    assert!(!is_a_linear_dependent_row(&vec![1_f64, 2_f64, 3_f64], &vec![3_f64, 4_f64, 6_f64]));
    assert!(!is_a_linear_dependent_row(&vec![1_f64, 2_f64, 3_f64], &vec![3_f64, 3_f64, 3_f64]));
}

#[test]
fn matrix_linear_dependencies_test_remove_linear_dependent_row_from_matrix() {
    let m: Matrix<f64> = Matrix::from_data(vec![
        vec![2_f64, 2_f64],
        vec![3_f64, 4_f64],
        vec![5_f64, 6_f64],
        vec![6_f64, 6_f64],
    ])
    .unwrap();
    let expected =
        Matrix::from_data(vec![vec![2_f64, 2_f64], vec![3_f64, 4_f64], vec![5_f64, 6_f64]])
            .unwrap();
    assert_eq!(m.remove_linear_dependent_rows(), expected)
}

#[test]
fn a_multiple_of_a_row_depends_on_it() {
    assert!(is_a_linear_dependent_row(&vec![1.0, 2.0, 3.0], &vec![2.0, 4.0, 6.0]));
    assert!(is_a_linear_dependent_row(&vec![1.0, 2.0, 3.0], &vec![-0.5, -1.0, -1.5]));
    assert!(is_a_linear_dependent_row(&vec![4.0, 8.0], &vec![1.0, 2.0]));
}

#[test]
fn one_empty_row_is_not_dependent() {
    assert!(!is_a_linear_dependent_row(&vec![], &vec![1.0]));
    assert!(!is_a_linear_dependent_row(&vec![1.0], &vec![]));
}

#[test]
fn a_shorter_second_row_is_not_dependent() {
    assert!(!is_a_linear_dependent_row(&vec![1.0, 2.0], &vec![2.0]));
}

#[test]
fn a_longer_second_row_is_held_against_the_columns_of_the_first() {
    assert!(is_a_linear_dependent_row(&vec![1.0, 2.0], &vec![2.0, 4.0, 9.0]));
}

#[test]
fn nothing_depends_on_a_row_that_starts_with_zero() {
    assert!(!is_a_linear_dependent_row(&vec![0.0, 1.0], &vec![0.0, 2.0]));
    assert!(!is_a_linear_dependent_row(&vec![0.0, 1.0], &vec![1.0, 2.0]));
    assert!(!is_a_linear_dependent_row(&vec![0.0], &vec![0.0]));
}

#[test]
fn a_row_of_zeros_depends_on_a_row_that_starts_otherwise() {
    assert!(is_a_linear_dependent_row(&vec![1.0, 2.0], &vec![0.0, 0.0]));
}

#[test]
fn the_filter_is_idempotent() {
    let m = matrix(vec![
        vec![2.0, 2.0],
        vec![3.0, 4.0],
        vec![4.0, 4.0],
        vec![5.0, 6.0],
        vec![6.0, 8.0],
        vec![6.0, 6.0],
    ]);
    let once = m.remove_linear_dependent_rows();
    assert_eq!(once, matrix(vec![vec![2.0, 2.0], vec![3.0, 4.0], vec![5.0, 6.0]]));
    let twice = once.clone().remove_linear_dependent_rows();
    assert_eq!(twice, once);
}

#[test]
fn the_filter_holds_a_row_against_removed_rows_too() {
    // the third row depends on the second, which itself goes
    let m = matrix(vec![vec![1.0, 0.0], vec![2.0, 0.0], vec![4.0, 0.0]]);
    assert_eq!(m.remove_linear_dependent_rows(), matrix(vec![vec![1.0, 0.0]]));
}

#[test]
fn the_filter_removes_a_row_that_depends_on_several() {
    let m = matrix(vec![vec![1.0, 1.0], vec![2.0, 2.0], vec![3.0, 3.0]]);
    let kept = m.remove_linear_dependent_rows();
    assert_eq!(kept, matrix(vec![vec![1.0, 1.0]]));
    assert_eq!((kept.height, kept.width), (1, 2));
}

#[test]
fn the_filter_keeps_the_width_of_an_empty_matrix() {
    let m: Matrix<f64> = Matrix::new(0, 3);
    let kept = m.remove_linear_dependent_rows();
    assert_eq!((kept.height, kept.width), (0, 3));
}
