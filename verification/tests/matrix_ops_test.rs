use lgs_lib::error::MatrixError;
use lgs_lib::equality::same_row;
use lgs_lib::matrix::{scaled_row, Matrix};

fn matrix(rows: Vec<Vec<f64>>) -> Matrix<f64> {
    Matrix::from_data(rows).unwrap()
}

#[test]
fn matrix_ops_test_test_matrix_add() {
    let m1 = Matrix::from_data(vec![vec![1_f64, 2_f64], vec![3_f64, 4_f64]]).unwrap();
    let m2 = Matrix::from_data(vec![vec![5_f64, 6_f64], vec![7_f64, 8_f64]]).unwrap();
    let expected = Matrix::from_data(vec![vec![6_f64, 8_f64], vec![10_f64, 12_f64]]).unwrap();

    assert_eq!(m1.add(m2).unwrap(), expected);
}

#[test]
fn matrix_ops_test_test_matrix_multiply_by_float() {
    let m1 = Matrix::from_data(vec![vec![1_f64, 2_f64], vec![3_f64, 4_f64]]).unwrap();
    assert_eq!(m1.scale(0.0), Matrix::new(2, 2))
}

#[test]
fn matrix_ops_test_test_matrix_multiply_different_size() {
    let m1 = Matrix::from_data(vec![vec![1_f64, 2_f64]]).unwrap();
    let m2 = Matrix::from_data(vec![vec![5_f64], vec![7_f64]]).unwrap();
    let expected = Matrix::from_data(vec![vec![19_f64]]).unwrap();

    assert_eq!(m1.multiply(m2).unwrap(), expected);
}

#[test]
fn matrix_ops_test_test_matrix_multiply() {
    let m1 = Matrix::from_data(vec![vec![1_f64, 2_f64], vec![3_f64, 4_f64]]).unwrap();
    let m2 = Matrix::from_data(vec![vec![5_f64, 6_f64], vec![7_f64, 8_f64]]).unwrap();
    let expected = Matrix::from_data(vec![vec![19_f64, 22_f64], vec![43_f64, 50_f64]]).unwrap();

    assert_eq!(m1.multiply(m2).unwrap(), expected);
}

#[test]
fn matrix_ops_test_test_matrix_transpose_of_normal() {
    let m = Matrix::from_data(vec![vec![1_f64, 0_f64], vec![0_f64, 1_f64]]).unwrap();
    let expected = Matrix::from_data(vec![vec![1_f64, 0_f64], vec![0_f64, 1_f64]]).unwrap();

    assert_eq!(m.transpose(), expected);
}

#[test]
fn matrix_ops_test_test_matrix_transpose() {
    let m = Matrix::from_data(vec![vec![1_f64, 2_f64], vec![3_f64, 4_f64]]).unwrap();
    let expected = Matrix::from_data(vec![vec![1_f64, 3_f64], vec![2_f64, 4_f64]]).unwrap();
    let transp = m.transpose();
    assert_eq!(transp, expected)
}

#[test]
fn transpose_of_a_matrix_that_is_not_square() {
    let m = matrix(vec![vec![1.0, 2.0, 3.0], vec![4.0, 5.0, 6.0]]);
    let t = m.transpose();
    assert_eq!((t.height, t.width), (3, 2));
    assert_eq!(t, matrix(vec![vec![1.0, 4.0], vec![2.0, 5.0], vec![3.0, 6.0]]));
}

#[test]
fn transposing_twice_gives_the_matrix_back() {
    let m = matrix(vec![vec![1.0, 2.0, 3.0], vec![4.0, 5.0, 6.0]]);
    assert_eq!(m.transpose().transpose(), m);
    let no_rows: Matrix<f64> = Matrix::new(0, 3);
    let back = no_rows.transpose().transpose();
    assert_eq!((back.height, back.width), (0, 3));
    assert_eq!(back, no_rows);
    let no_columns: Matrix<f64> = Matrix::new(2, 0);
    let middle = no_columns.transpose();
    assert_eq!((middle.height, middle.width), (0, 2));
    assert_eq!(middle.transpose(), no_columns);
}

#[test]
fn add_refuses_another_shape() {
    let a = matrix(vec![vec![1.0, 2.0]]);
    let b = matrix(vec![vec![1.0], vec![2.0]]);
    assert_eq!(a.add(b), Err(MatrixError::ShapeError));
}

#[test]
fn subtract_takes_entry_from_entry() {
    let a = matrix(vec![vec![5.0, 6.0], vec![7.0, 8.0]]);
    let b = matrix(vec![vec![1.0, 3.0], vec![7.0, 0.5]]);
    assert_eq!(a.subtract(b).unwrap(), matrix(vec![vec![4.0, 3.0], vec![0.0, 7.5]]));
}

#[test]
fn subtract_refuses_another_shape() {
    let a = matrix(vec![vec![1.0, 2.0], vec![3.0, 4.0]]);
    let b = matrix(vec![vec![1.0, 2.0, 3.0], vec![3.0, 4.0, 5.0]]);
    assert_eq!(a.subtract(b), Err(MatrixError::ShapeError));
}

#[test]
fn scale_multiplies_every_entry() {
    let a = matrix(vec![vec![1.0, -2.0], vec![0.5, 4.0]]);
    assert_eq!(a.scale(2.0), matrix(vec![vec![2.0, -4.0], vec![1.0, 8.0]]));
}

#[test]
fn divide_scalar_divides_every_entry() {
    let a = matrix(vec![vec![1.0, -2.0], vec![0.5, 4.0]]);
    assert_eq!(a.divide_scalar(2.0), matrix(vec![vec![0.5, -1.0], vec![0.25, 2.0]]));
}

#[test]
fn divide_scalar_by_zero_is_no_error() {
    let a = matrix(vec![vec![1.0, -2.0, 0.0]]);
    let q = a.divide_scalar(0.0);
    assert_eq!(q.get(0, 0), Ok(f64::INFINITY));
    assert_eq!(q.get(0, 1), Ok(f64::NEG_INFINITY));
    assert!(q.get(0, 2).unwrap().is_nan());
}

#[test]
fn multiply_refuses_operands_that_do_not_fit() {
    let a = matrix(vec![vec![1.0, 2.0]]);
    let b = matrix(vec![vec![1.0, 2.0]]);
    assert_eq!(a.multiply(b), Err(MatrixError::ShapeError));
}

#[test]
fn multiply_gives_the_height_of_the_left_and_the_width_of_the_right() {
    let a = matrix(vec![vec![1.0], vec![2.0], vec![3.0]]);
    let b = matrix(vec![vec![4.0, 5.0]]);
    let p = a.multiply(b).unwrap();
    assert_eq!((p.height, p.width), (3, 2));
    assert_eq!(p, matrix(vec![vec![4.0, 5.0], vec![8.0, 10.0], vec![12.0, 15.0]]));
}

#[test]
fn matrices_of_different_shape_are_never_equal() {
    let a: Matrix<f64> = Matrix::new(0, 3);
    let b: Matrix<f64> = Matrix::new(0, 2);
    assert_ne!(a, b);
    let c: Matrix<f64> = Matrix::new(2, 0);
    let d: Matrix<f64> = Matrix::new(3, 0);
    assert_ne!(c, d);
    assert_ne!(matrix(vec![vec![1.0, 2.0]]), matrix(vec![vec![1.0], vec![2.0]]));
}

#[test]
fn equality_is_exact() {
    assert_ne!(matrix(vec![vec![0.1 + 0.2]]), matrix(vec![vec![0.3]]));
    assert_eq!(matrix(vec![vec![0.5 + 0.25]]), matrix(vec![vec![0.75]]));
    assert_eq!(matrix(vec![vec![0.0]]), matrix(vec![vec![-0.0]]));
    assert_ne!(matrix(vec![vec![f64::NAN]]), matrix(vec![vec![f64::NAN]]));
}

#[test]
fn scaled_row_multiplies_from_the_right() {
    assert_eq!(scaled_row(&vec![1.0, -2.0, 0.5], -2.0), vec![-2.0, 4.0, -1.0]);
    assert_eq!(scaled_row::<f64>(&vec![], 3.0), Vec::<f64>::new());
}

#[test]
fn filled_with_holds_one_value_everywhere() {
    let m = Matrix::filled_with(2, 2, 7.5);
    assert_eq!(m, matrix(vec![vec![7.5, 7.5], vec![7.5, 7.5]]));
}

#[test]
fn equals_is_what_the_operator_calls() {
    let a = matrix(vec![vec![1.0, 2.0], vec![3.0, 4.0]]);
    let b = matrix(vec![vec![1.0, 2.0], vec![3.0, 4.0]]);
    let c = matrix(vec![vec![1.0, 2.0], vec![3.0, 5.0]]);
    assert!(a.equals(&b));
    assert!(!a.equals(&c));
    assert!(!a.equals(&matrix(vec![vec![1.0, 2.0]])));
    let no_rows: Matrix<f64> = Matrix::new(0, 2);
    let narrower: Matrix<f64> = Matrix::new(0, 1);
    assert!(!no_rows.equals(&narrower));
    assert!(no_rows.equals(&Matrix::new(0, 2)));
}

#[test]
fn same_row_compares_length_and_entries() {
    assert!(same_row(&vec![1.0, 2.0], &vec![1.0, 2.0]));
    assert!(!same_row(&vec![1.0, 2.0], &vec![1.0]));
    assert!(!same_row(&vec![1.0, 2.0], &vec![1.0, 2.5]));
    assert!(same_row::<f64>(&vec![], &vec![]));
}
