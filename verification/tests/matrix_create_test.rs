use lgs_lib::error::MatrixError;
use lgs_lib::matrix::Matrix;

#[test]
fn matrix_create_test_test_create_matrix_from_json_str() {
    let m: Matrix<f64> = Matrix::from_str("[[2.0,2.0],[3.0,4.0],[5.0,6.0]]");
    let expected =
        Matrix::from_data(vec![vec![2_f64, 2_f64], vec![3_f64, 4_f64], vec![5_f64, 6_f64]])
            .unwrap();
    assert_eq!(m, expected)
}

#[test]
fn test_create_matrix_from_number_str() {
    let m: Matrix<f64> = Matrix::from_str("1.0");
    let expected = Matrix::new(0, 0);
    assert_eq!(m, expected)
}

#[test]
fn matrix_create_test_test_init_empty_matrix() {
    let m: Matrix<f64> = Matrix::new(0, 0);
    assert_eq!(m.height, 0);
    assert_eq!(m.width, 0);
}

#[test]
fn matrix_create_test_test_init_empty_1x1_matrix() {
    let m: Matrix<f64> = Matrix::new(1, 1);
    assert_eq!(m.height, 1);
    assert_eq!(m.width, 1);
}

#[test]
fn matrix_create_test_test_init_matrix_with_data() {
    let m = Matrix::from_data(vec![
        vec![1.0, 2.0, 3.0],
        vec![4.0, 5.0, 6.0],
        vec![7.0, 8.0, 9.0],
    ])
    .unwrap();

    assert_eq!(m.height, 3);
    assert_eq!(m.width, 3);
    assert_eq!(m.get(0, 0), Ok(1.0));
    assert_eq!(m.get(0, 1), Ok(2.0));
    assert_eq!(m.get(0, 2), Ok(3.0));
    assert_eq!(m.get(1, 0), Ok(4.0));
    assert_eq!(m.get(1, 1), Ok(5.0));
    assert_eq!(m.get(1, 2), Ok(6.0));
    assert_eq!(m.get(2, 0), Ok(7.0));
    assert_eq!(m.get(2, 1), Ok(8.0));
    assert_eq!(m.get(2, 2), Ok(9.0));
}

#[test]
fn new_fills_the_given_shape_with_zero() {
    let m: Matrix<f64> = Matrix::new(2, 3);
    assert_eq!((m.height, m.width), (2, 3));
    assert_eq!(m.get_data(), vec![vec![0.0, 0.0, 0.0], vec![0.0, 0.0, 0.0]]);
}

#[test]
fn identity_has_one_on_the_diagonal() {
    let m: Matrix<f64> = Matrix::identity(3);
    assert_eq!(
        m.get_data(),
        vec![vec![1.0, 0.0, 0.0], vec![0.0, 1.0, 0.0], vec![0.0, 0.0, 1.0]]
    );
    let none: Matrix<f64> = Matrix::identity(0);
    assert_eq!((none.height, none.width), (0, 0));
}

#[test]
fn from_data_refuses_rows_of_unequal_length() {
    let r: Result<Matrix<f64>, MatrixError> =
        Matrix::from_data(vec![vec![1.0, 2.0], vec![3.0]]);
    assert_eq!(r, Err(MatrixError::ShapeError));
    let r: Result<Matrix<f64>, MatrixError> =
        Matrix::from_data(vec![vec![], vec![3.0]]);
    assert_eq!(r, Err(MatrixError::ShapeError));
}

#[test]
fn from_data_without_rows_is_the_empty_matrix() {
    let m: Matrix<f64> = Matrix::from_data(vec![]).unwrap();
    assert_eq!((m.height, m.width), (0, 0));
}

#[test]
fn from_data_with_rows_without_entries() {
    let m: Matrix<f64> = Matrix::from_data(vec![vec![], vec![]]).unwrap();
    assert_eq!((m.height, m.width), (2, 0));
}

#[test]
fn get_data_gives_the_rows_back() {
    let rows = vec![vec![1.5, -2.0], vec![0.0, 4.25]];
    let m = Matrix::from_data(rows.clone()).unwrap();
    assert_eq!(m.get_data(), rows);
}

#[test]
fn get_outside_the_matrix() {
    let m = Matrix::from_data(vec![vec![1.0, 2.0]]).unwrap();
    assert_eq!(m.get(0, 1), Ok(2.0));
    assert_eq!(m.get(1, 0), Err(MatrixError::IndexOutOfRange));
    assert_eq!(m.get(0, 2), Err(MatrixError::IndexOutOfRange));
}

#[test]
fn set_replaces_one_entry() {
    let mut m = Matrix::from_data(vec![vec![1.0, 2.0], vec![3.0, 4.0]]).unwrap();
    assert_eq!(m.set(1, 0, 9.0), Ok(()));
    assert_eq!(m.get_data(), vec![vec![1.0, 2.0], vec![9.0, 4.0]]);
    assert_eq!(m.set(2, 0, 9.0), Err(MatrixError::IndexOutOfRange));
    assert_eq!(m.set(0, 2, 9.0), Err(MatrixError::IndexOutOfRange));
    assert_eq!(m.get_data(), vec![vec![1.0, 2.0], vec![9.0, 4.0]]);
}

#[test]
fn add_to_row_adds_entry_by_entry() {
    let mut m = Matrix::from_data(vec![vec![1.0, 2.0], vec![3.0, 4.0]]).unwrap();
    assert_eq!(m.add_to_row(1, vec![10.0, 20.0]), Ok(()));
    assert_eq!(m.get_data(), vec![vec![1.0, 2.0], vec![13.0, 24.0]]);
}

#[test]
fn add_to_row_refuses_another_length_and_another_row() {
    let mut m = Matrix::from_data(vec![vec![1.0, 2.0], vec![3.0, 4.0]]).unwrap();
    assert_eq!(m.add_to_row(0, vec![1.0]), Err(MatrixError::ShapeError));
    assert_eq!(m.add_to_row(2, vec![1.0, 1.0]), Err(MatrixError::IndexOutOfRange));
    assert_eq!(m.add_to_row(2, vec![1.0]), Err(MatrixError::ShapeError));
    assert_eq!(m.get_data(), vec![vec![1.0, 2.0], vec![3.0, 4.0]]);
}

#[test]
fn swap_rows_exchanges_two_rows() {
    let mut m = Matrix::from_data(vec![vec![1.0, 2.0], vec![3.0, 4.0], vec![5.0, 6.0]]).unwrap();
    assert_eq!(m.swap_rows(0, 2), Ok(()));
    assert_eq!(m.get_data(), vec![vec![5.0, 6.0], vec![3.0, 4.0], vec![1.0, 2.0]]);
    assert_eq!(m.swap_rows(1, 1), Ok(()));
    assert_eq!(m.get_data(), vec![vec![5.0, 6.0], vec![3.0, 4.0], vec![1.0, 2.0]]);
}

#[test]
fn swap_rows_refuses_an_index_outside() {
    let mut m = Matrix::from_data(vec![vec![1.0, 2.0], vec![3.0, 4.0]]).unwrap();
    assert_eq!(m.swap_rows(0, 2), Err(MatrixError::IndexOutOfRange));
    assert_eq!(m.swap_rows(2, 0), Err(MatrixError::IndexOutOfRange));
    assert_eq!(m.get_data(), vec![vec![1.0, 2.0], vec![3.0, 4.0]]);
}

#[test]
fn is_wf_holds_the_fields_against_the_rows() {
    let good = Matrix::from_data(vec![vec![1.0, 2.0], vec![3.0, 4.0]]).unwrap();
    assert!(good.is_wf());
    let short = Matrix { height: 3, width: 2, data: vec![vec![1.0, 2.0], vec![3.0, 4.0]] };
    assert!(!short.is_wf());
    let ragged = Matrix { height: 2, width: 2, data: vec![vec![1.0, 2.0], vec![3.0]] };
    assert!(!ragged.is_wf());
    let narrow = Matrix { height: 1, width: 3, data: vec![vec![1.0, 2.0]] };
    assert!(!narrow.is_wf());
    let empty: Matrix<f64> = Matrix { height: 0, width: 5, data: vec![] };
    assert!(empty.is_wf());
}
