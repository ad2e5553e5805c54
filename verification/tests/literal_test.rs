use lgs_lib::error::MatrixError;
use lgs_lib::literal::{
    chars_of, content_of, find_matrix_cells, find_vector_cells, matrix_from_cells, scan,
    split_cells, trim, vector_from_cells, vector_from_str,
};
use lgs_lib::matrix::Matrix;

fn chars(text: &str) -> Vec<char> {
    text.chars().collect()
}

#[test]
fn chars_of_gives_the_characters() {
    assert_eq!(chars_of("[1,ä]"), vec!['[', '1', ',', 'ä', ']']);
    assert_eq!(chars_of(""), Vec::<char>::new());
}

#[test]
fn content_is_what_stands_between_the_outer_brackets() {
    assert_eq!(content_of(&chars("[[1,2]]")), (1, 6));
    assert_eq!(content_of(&chars("[]")), (1, 1));
    assert_eq!(content_of(&chars("[1,2")), (0, 4));
    assert_eq!(content_of(&chars("1,2]")), (0, 4));
    assert_eq!(content_of(&chars("[")), (0, 1));
    assert_eq!(content_of(&chars("")), (0, 0));
}

#[test]
fn scan_finds_what_each_closing_bracket_ends() {
    let s = chars("[1,2],[3]");
    let (found, start) = scan(&s, 0, s.len(), '[', ']');
    assert_eq!(found, vec![(1, 4), (7, 8)]);
    assert_eq!(start, 7);
}

#[test]
fn scan_goes_back_to_the_last_opening_bracket() {
    let s = chars("[[1]2]");
    let (found, _) = scan(&s, 0, s.len(), '[', ']');
    assert_eq!(found, vec![(2, 3), (2, 5)]);
    let t = chars("1]");
    let (found, start) = scan(&t, 0, t.len(), '[', ']');
    assert_eq!(found, vec![(0, 1)]);
    assert_eq!(start, 0);
}

#[test]
fn trim_takes_the_white_space_off_both_ends() {
    let s = chars("  1 2\t\n");
    assert_eq!(trim(&s, 0, s.len()), (2, 5));
    assert_eq!(trim(&s, 3, 4), (4, 4));
    let t = chars("\u{a0}7\u{2003}");
    assert_eq!(trim(&t, 0, t.len()), (1, 2));
    let u = chars("12");
    assert_eq!(trim(&u, 0, 2), (0, 2));
}

#[test]
fn split_cells_cuts_at_the_commas() {
    let s = chars("1, 22 ,,3");
    assert_eq!(split_cells(&s, 0, s.len()), vec![(0, 1), (3, 5), (7, 7), (8, 9)]);
    assert_eq!(split_cells(&s, 0, 0), vec![(0, 0)]);
    assert_eq!(split_cells(&s, 0, 2), vec![(0, 1), (2, 2)]);
}

#[test]
fn matrix_cells_row_by_row() {
    let s = chars("[[1, 2],[30,4]]");
    assert_eq!(find_matrix_cells(&s), vec![vec![(2, 3), (5, 6)], vec![(9, 11), (12, 13)]]);
}

#[test]
fn matrix_cells_of_a_text_that_is_no_literal() {
    assert_eq!(find_matrix_cells(&chars("1.0")), Vec::<Vec<(usize, usize)>>::new());
    assert_eq!(find_matrix_cells(&chars("[1,2,3]")), Vec::<Vec<(usize, usize)>>::new());
    assert_eq!(find_matrix_cells(&chars("[[]]")), Vec::<Vec<(usize, usize)>>::new());
    assert_eq!(find_matrix_cells(&chars("[[")), Vec::<Vec<(usize, usize)>>::new());
    assert_eq!(find_matrix_cells(&chars("")), Vec::<Vec<(usize, usize)>>::new());
}

#[test]
fn vector_cells_with_and_without_brackets() {
    assert_eq!(find_vector_cells(&chars("[1, 2]")), vec![(1, 2), (4, 5)]);
    assert_eq!(find_vector_cells(&chars("1,2")), vec![(0, 1), (2, 3)]);
    assert_eq!(find_vector_cells(&chars("[]")), vec![(1, 1)]);
}

#[test]
fn matrix_from_cells_takes_the_numbers() {
    let m: Matrix<f64> =
        matrix_from_cells(vec![vec![Some(1.0), Some(2.0)], vec![Some(3.0), Some(4.0)]]);
    assert_eq!(m, Matrix::from_data(vec![vec![1.0, 2.0], vec![3.0, 4.0]]).unwrap());
}

#[test]
fn matrix_from_cells_gives_the_empty_matrix_for_what_is_incomplete() {
    let hole: Matrix<f64> = matrix_from_cells(vec![vec![Some(1.0), None]]);
    assert_eq!(hole, Matrix::new(0, 0));
    let ragged: Matrix<f64> = matrix_from_cells(vec![vec![Some(1.0)], vec![Some(1.0), Some(2.0)]]);
    assert_eq!(ragged, Matrix::new(0, 0));
    let none: Matrix<f64> = matrix_from_cells(vec![]);
    assert_eq!(none, Matrix::new(0, 0));
}

#[test]
fn vector_from_cells_takes_the_numbers() {
    assert_eq!(vector_from_cells(vec![Some(1.0), Some(2.5)]), Ok(vec![1.0, 2.5]));
    assert_eq!(vector_from_cells::<f64>(vec![]), Ok(vec![]));
    assert_eq!(vector_from_cells(vec![Some(1.0), None]), Err(MatrixError::ParseError));
}

#[test]
fn from_str_reads_the_numbers() {
    let m: Matrix<f64> = Matrix::from_str("[[1.5,-2],[3e2,0.25]]");
    assert_eq!(m, Matrix::from_data(vec![vec![1.5, -2.0], vec![300.0, 0.25]]).unwrap());
}

#[test]
fn from_str_ignores_white_space_around_a_number() {
    let m: Matrix<f64> = Matrix::from_str("[[ 1.0 ,\t2.0],[3.0,  4.0 ]]");
    assert_eq!(m, Matrix::from_data(vec![vec![1.0, 2.0], vec![3.0, 4.0]]).unwrap());
}

#[test]
fn from_str_of_one_row() {
    let m: Matrix<f64> = Matrix::from_str("[[1,2,3]]");
    assert_eq!((m.height, m.width), (1, 3));
    assert_eq!(m.get_data(), vec![vec![1.0, 2.0, 3.0]]);
}

#[test]
fn from_str_gives_the_empty_matrix_for_what_is_no_literal() {
    let empty: Matrix<f64> = Matrix::new(0, 0);
    assert_eq!(Matrix::<f64>::from_str(""), empty);
    assert_eq!(Matrix::<f64>::from_str("[]"), empty);
    assert_eq!(Matrix::<f64>::from_str("[[]]"), empty);
    assert_eq!(Matrix::<f64>::from_str("[1,2,3]"), empty);
    assert_eq!(Matrix::<f64>::from_str("abc"), empty);
    assert_eq!(Matrix::<f64>::from_str("[[1,2"), empty);
}

#[test]
fn from_str_gives_the_empty_matrix_for_a_piece_that_is_no_number() {
    let empty: Matrix<f64> = Matrix::new(0, 0);
    assert_eq!(Matrix::<f64>::from_str("[[1,x],[3,4]]"), empty);
    assert_eq!(Matrix::<f64>::from_str("[[1,],[3,4]]"), empty);
    assert_eq!(Matrix::<f64>::from_str("[[1,2],[3,4]]]"), empty);
}

#[test]
fn from_str_gives_the_empty_matrix_for_rows_of_unequal_length() {
    let empty: Matrix<f64> = Matrix::new(0, 0);
    assert_eq!(Matrix::<f64>::from_str("[[1,2],[3]]"), empty);
}

#[test]
fn vector_from_str_reads_the_numbers() {
    assert_eq!(vector_from_str::<f64>("[6.0, 6.0]"), Ok(vec![6.0, 6.0]));
    assert_eq!(vector_from_str::<f64>("1,-2.5,3"), Ok(vec![1.0, -2.5, 3.0]));
    assert_eq!(vector_from_str::<f64>("[7]"), Ok(vec![7.0]));
}

#[test]
fn vector_from_str_refuses_a_piece_that_is_no_number() {
    assert_eq!(vector_from_str::<f64>("[1,,2]"), Err(MatrixError::ParseError));
    assert_eq!(vector_from_str::<f64>("[1,a]"), Err(MatrixError::ParseError));
    assert_eq!(vector_from_str::<f64>("[]"), Err(MatrixError::ParseError));
    assert_eq!(vector_from_str::<f64>(""), Err(MatrixError::ParseError));
}
