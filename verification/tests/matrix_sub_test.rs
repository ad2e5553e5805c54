use lgs_lib::matrix::Matrix;

fn four_by_four() -> Matrix<f64> {
    Matrix::from_data(vec![
        vec![1.0, 2.0, 52.0, 2.0],
        vec![1.0, 0.0, 1.0, 2.0],
        vec![3.0, 2.0, 12.0, 2.0],
        vec![3.0, 5.0, 3.0, 2.0],
    ])
    .unwrap()
}

#[test]
fn sub_matrix() {
    let m = Matrix::from_data(vec![vec![1_f64, 2_f64], vec![3_f64, 4_f64]]).unwrap();
    let expected = Matrix::from_data(vec![vec![4_f64]]).unwrap();
    assert_eq!(m.submatrix(0, 0), expected);
}

#[test]
fn sub_matrix_from_4x4() {
    let m = four_by_four();
    let expected = Matrix::from_data(vec![
        vec![0.0, 1.0, 2.0],
        vec![2.0, 12.0, 2.0],
        vec![5.0, 3.0, 2.0],
    ])
    .unwrap();
    assert_eq!(m.submatrix(0, 0), expected);
}

#[test]
fn sub_matrix_from_4x4_col_1() {
    let m = four_by_four();
    let expected = Matrix::from_data(vec![
        vec![1.0, 1.0, 2.0],
        vec![3.0, 12.0, 2.0],
        vec![3.0, 3.0, 2.0],
    ])
    .unwrap();

    assert_eq!(m.submatrix(0, 1), expected);
}

#[test]
fn sub_matrix_from_4x4_col_1_row_1() {
    let m = four_by_four();

    let expected = Matrix::from_data(vec![
        vec![1.0, 52.0, 2.0],
        vec![3.0, 12.0, 2.0],
        vec![3.0, 3.0, 2.0],
    ])
    .unwrap();

    assert_eq!(m.submatrix(1, 1), expected);
}

#[test]
fn sub_matrix_of_a_matrix_that_is_not_square() {
    let m = Matrix::from_data(vec![vec![1.0, 2.0, 3.0], vec![4.0, 5.0, 6.0]]).unwrap();
    let s = m.submatrix(1, 2);
    assert_eq!(s, Matrix::from_data(vec![vec![1.0, 2.0]]).unwrap());
    assert_eq!((s.height, s.width), (1, 2));
}

#[test]
fn sub_matrix_with_an_index_outside_removes_nothing_there() {
    let m = Matrix::from_data(vec![vec![1.0, 2.0], vec![3.0, 4.0]]).unwrap();
    assert_eq!(m.submatrix(5, 0), Matrix::from_data(vec![vec![2.0], vec![4.0]]).unwrap());
    assert_eq!(m.submatrix(0, 5), Matrix::from_data(vec![vec![3.0, 4.0]]).unwrap());
    assert_eq!(m.submatrix(2, 2), m);
}

#[test]
fn sub_matrix_of_one_entry_is_empty() {
    let m = Matrix::from_data(vec![vec![7.0]]).unwrap();
    let s = m.submatrix(0, 0);
    assert_eq!((s.height, s.width), (0, 0));
    assert_eq!(s.get_data(), Vec::<Vec<f64>>::new());
}
