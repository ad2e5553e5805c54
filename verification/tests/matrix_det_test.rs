use lgs_lib::error::MatrixError;
use lgs_lib::matrix::Matrix;

fn create_4x4_matrix() -> Matrix<f64> {
    Matrix::from_data(vec![
        vec![1.0, 2.0, 52.0, 2.0],
        vec![1.0, 0.0, 1.0, 2.0],
        vec![3.0, 2.0, 12.0, 2.0],
        vec![3.0, 5.0, 3.0, 2.0],
    ])
    .unwrap()
}

#[test]
fn calc_determinant_of_1x1_matrix() {
    let m = Matrix::from_data(vec![vec![1_f64]]).unwrap();
    assert_eq!(m.det().unwrap(), 1_f64);
}

#[test]
fn calc_determinant_of_2x2_matrix() {
    let m = Matrix::from_data(vec![vec![1_f64, 2_f64], vec![3_f64, 4_f64]]).unwrap();
    assert_eq!(m.det().unwrap(), -2_f64);
}

#[test]
fn calc_determinant_of_4x4_matrix() {
    let m = create_4x4_matrix();
    assert_eq!(m.det().unwrap(), 684_f64);
}

#[test]
fn calc_determinant_of_3x3_matrix() {
    let m = Matrix::from_data(vec![
        vec![1.0, 1.0, 1.0],
        vec![2.0, 2.0, 2.0],
        vec![3.0, 3.0, 3.0],
    ])
    .unwrap();
    assert_eq!(m.det().unwrap(), 0.0);
}

#[test]
fn determinant_expands_along_the_first_row() {
    // 2 * (3*1 - 0*4) - 0 * (...) + 1 * (1*4 - 3*5) = 6 - 11
    let m = Matrix::from_data(vec![
        vec![2.0, 0.0, 1.0],
        vec![1.0, 3.0, 0.0],
        vec![5.0, 4.0, 1.0],
    ])
    .unwrap();
    assert_eq!(m.det().unwrap(), -5.0);
    assert_eq!(m.det_of_square(), -5.0);
}

#[test]
fn determinant_of_the_empty_matrix_is_zero() {
    let m: Matrix<f64> = Matrix::new(0, 0);
    assert_eq!(m.det().unwrap(), 0.0);
}

#[test]
fn determinant_refuses_a_matrix_that_is_not_square() {
    let m = Matrix::from_data(vec![vec![1.0, 2.0, 3.0], vec![4.0, 5.0, 6.0]]).unwrap();
    assert_eq!(m.det(), Err(MatrixError::NotSquare));
}

#[test]
fn determinant_of_proportional_rows_is_zero() {
    let m = Matrix::from_data(vec![vec![2.0, 4.0], vec![1.0, 2.0]]).unwrap();
    assert_eq!(m.det().unwrap(), 0.0);
}
