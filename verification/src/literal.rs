//! The textual form of matrices and vectors.
//!
//! A matrix is written `[[a,b],[c,d]]`: rows in brackets, entries separated by
//! commas, the whole in one more pair of brackets. A vector is written
//! `[a,b,c]`. White space around an entry is ignored.
//!
//! This module finds the entries in a text, as ranges of character positions.
//! Reading a number out of an entry is left to the element type.
use crate::error::MatrixError;
use crate::matrix::Matrix;
use crate::scalar::Scalar;
use core::str::FromStr;
use vstd::prelude::*;
use vstd::string::*;

verus! {

/// Whether a character counts as white space.
pub uninterp spec fn is_space(c: char) -> bool;

/// `char::is_whitespace`: whether the character has the Unicode property
/// `White_Space`. The answer depends on the character alone; it is given the
/// name [`is_space`].
pub assume_specification[ char::is_whitespace ](c: char) -> (r: bool)
    ensures
        r == is_space(c),
;

/// `str::parse`: reads a value of the element type out of `token`, `None`
/// where the element type's `FromStr` refuses the text. Nothing is claimed
/// about the value.
#[verifier::external_body]
fn parse_number<T: FromStr>(token: &str) -> (r: Option<T>) {
    token.parse::<T>().ok()
}

/// The text between the outer brackets, as a range of positions: the whole
/// text where it does not both begin with `[` and end with `]`.
pub open spec fn content(s: Seq<char>) -> (int, int) {
    if s.len() >= 2 && s[0] == '[' && s[s.len() - 1] == ']' {
        (1, s.len() - 1)
    } else {
        (0, s.len() as int)
    }
}

/// The position after the last `mark` in `s[a .. i]`, or `a` where there is
/// none.
pub open spec fn mark_before(s: Seq<char>, a: int, i: int, mark: char) -> int
    decreases i - a,
{
    if i <= a {
        a
    } else if s[i - 1] == mark {
        i
    } else {
        mark_before(s, a, i - 1, mark)
    }
}

/// For every `close` in `s[a .. n]`, in order, the range from the last `mark`
/// before it (exclusive) up to it (exclusive).
pub open spec fn closed(s: Seq<char>, a: int, n: int, mark: char, close: char) -> Seq<(int, int)>
    decreases n - a,
{
    if n <= a {
        Seq::empty()
    } else if s[n - 1] == close {
        closed(s, a, n - 1, mark, close).push((mark_before(s, a, n - 1, mark), n - 1))
    } else {
        closed(s, a, n - 1, mark, close)
    }
}

/// The rows of a matrix literal: for every `]` of the content, what stands
/// between it and the last `[` before it.
pub open spec fn row_ranges(s: Seq<char>) -> Seq<(int, int)> {
    closed(s, content(s).0, content(s).1, '[', ']')
}

/// The cells of `s[a .. b]`: the pieces between its commas. There is one more
/// cell than there are commas; a cell may be empty.
pub open spec fn cell_ranges(s: Seq<char>, a: int, b: int) -> Seq<(int, int)> {
    closed(s, a, b, ',', ',').push((mark_before(s, a, b, ','), b))
}

/// The first position in `s[a .. b]` that holds no white space, or `b`.
pub open spec fn skip_front(s: Seq<char>, a: int, b: int) -> int
    decreases b - a,
{
    if a >= b {
        b
    } else if is_space(s[a]) {
        skip_front(s, a + 1, b)
    } else {
        a
    }
}

/// The position after the last one in `s[a .. b]` that holds no white space,
/// or `a`.
pub open spec fn skip_back(s: Seq<char>, a: int, b: int) -> int
    decreases b - a,
{
    if b <= a {
        a
    } else if is_space(s[b - 1]) {
        skip_back(s, a, b - 1)
    } else {
        b
    }
}

/// The range `a .. b` without the white space at its ends.
pub open spec fn trimmed(s: Seq<char>, a: int, b: int) -> (int, int) {
    (skip_front(s, a, b), skip_back(s, skip_front(s, a, b), b))
}

/// The cells of `s[a .. b]`, each without the white space at its ends.
pub open spec fn trimmed_cells(s: Seq<char>, a: int, b: int) -> Seq<(int, int)> {
    Seq::new(
        cell_ranges(s, a, b).len(),
        |k: int| trimmed(s, cell_ranges(s, a, b)[k].0, cell_ranges(s, a, b)[k].1),
    )
}

/// A text can be a matrix literal: its content has more than two characters
/// and begins with `[`.
pub open spec fn well_started(s: Seq<char>) -> bool {
    content(s).1 - content(s).0 > 2 && s[content(s).0] == '['
}

/// The entries of a matrix literal, row by row, as ranges of positions in the
/// text; none where the text cannot be a matrix literal.
pub open spec fn matrix_cells(s: Seq<char>) -> Seq<Seq<(int, int)>> {
    if well_started(s) {
        Seq::new(
            row_ranges(s).len(),
            |i: int| trimmed_cells(s, row_ranges(s)[i].0, row_ranges(s)[i].1),
        )
    } else {
        Seq::empty()
    }
}

/// There are rows, and all have as many entries as the first.
pub open spec fn even(cells: Seq<Seq<(int, int)>>) -> bool {
    &&& cells.len() > 0
    &&& forall|i: int| 0 <= i < cells.len() ==> (#[trigger] cells[i]).len() == cells[0].len()
}

/// The entries of a vector literal: the trimmed cells of its content.
pub open spec fn vector_cells(s: Seq<char>) -> Seq<(int, int)> {
    trimmed_cells(s, content(s).0, content(s).1)
}

/// Ranges of positions as mathematical pairs.
pub open spec fn ranges(v: Seq<(usize, usize)>) -> Seq<(int, int)> {
    Seq::new(v.len(), |k: int| (v[k].0 as int, v[k].1 as int))
}

/// Rows of ranges as mathematical pairs.
pub open spec fn range_rows(v: Seq<Vec<(usize, usize)>>) -> Seq<Seq<(int, int)>> {
    Seq::new(v.len(), |i: int| ranges(v[i]@))
}

/// Every range lies in `a .. b`.
pub open spec fn within(v: Seq<(usize, usize)>, a: int, b: int) -> bool {
    forall|k: int| 0 <= k < v.len() ==> a <= (#[trigger] v[k]).0 <= v[k].1 <= b
}

/// The characters of a text.
pub fn chars_of(text: &str) -> (s: Vec<char>)
    ensures
        s@ == text@,
{
    broadcast use axiom_spec_iter;

    let mut s: Vec<char> = Vec::new();
    for c in it: text.chars()
        invariant
            it.seq() == text@,
            s@ == it.seq().take(it.index() as int),
    {
        s.push(c);
    }
    s
}

/// Finds the ranges that `close` ends in `s[a .. b]` (see [`closed`]), and
/// the position after the last `mark`.
pub fn scan(s: &Vec<char>, a: usize, b: usize, mark: char, close: char) -> (r: (
    Vec<(usize, usize)>,
    usize,
))
    requires
        a <= b <= s@.len(),
    ensures
        ranges(r.0@) == closed(s@, a as int, b as int, mark, close),
        within(r.0@, a as int, b as int),
        r.1 == mark_before(s@, a as int, b as int, mark),
        a <= r.1 <= b,
{
    let mut found: Vec<(usize, usize)> = Vec::new();
    let mut start: usize = a;
    let mut i: usize = a;
    while i < b
        invariant
            a <= start <= i <= b <= s@.len(),
            start == mark_before(s@, a as int, i as int, mark),
            ranges(found@) == closed(s@, a as int, i as int, mark, close),
            within(found@, a as int, i as int),
        decreases b - i,
    {
        let c: char = s[i];
        if c == close {
            found.push((start, i));
        }
        if c == mark {
            start = i + 1;
        }
        i += 1;
    }
    (found, start)
}

/// The range `a .. b` without the white space at its ends.
pub fn trim(s: &Vec<char>, a: usize, b: usize) -> (r: (usize, usize))
    requires
        a <= b <= s@.len(),
    ensures
        (r.0 as int, r.1 as int) == trimmed(s@, a as int, b as int),
        a <= r.0 <= r.1 <= b,
{
    let mut front: usize = a;
    while front < b && s[front].is_whitespace()
        invariant
            a <= front <= b <= s@.len(),
            skip_front(s@, front as int, b as int) == skip_front(s@, a as int, b as int),
        decreases b - front,
    {
        front += 1;
    }
    let mut back: usize = b;
    while back > front && s[back - 1].is_whitespace()
        invariant
            front <= back <= b <= s@.len(),
            skip_back(s@, front as int, back as int) == skip_back(s@, front as int, b as int),
        decreases back - front,
    {
        back -= 1;
    }
    (front, back)
}

/// The cells of `s[a .. b]`, each without the white space at its ends.
pub fn split_cells(s: &Vec<char>, a: usize, b: usize) -> (cells: Vec<(usize, usize)>)
    requires
        a <= b <= s@.len(),
    ensures
        ranges(cells@) == trimmed_cells(s@, a as int, b as int),
        within(cells@, a as int, b as int),
        cells@.len() >= 1,
{
    let (mut raw, start) = scan(s, a, b, ',', ',');
    raw.push((start, b));
    let mut cells: Vec<(usize, usize)> = Vec::new();
    let mut k: usize = 0;
    while k < raw.len()
        invariant
            a <= b <= s@.len(),
            k <= raw@.len(),
            within(raw@, a as int, b as int),
            ranges(raw@) == cell_ranges(s@, a as int, b as int),
            cells@.len() == k,
            within(cells@, a as int, b as int),
            forall|c: int|
                0 <= c < k ==> ((#[trigger] cells@[c]).0 as int, cells@[c].1 as int) == trimmed(
                    s@,
                    raw@[c].0 as int,
                    raw@[c].1 as int,
                ),
        decreases raw@.len() - k,
    {
        let cell = trim(s, raw[k].0, raw[k].1);
        cells.push(cell);
        k += 1;
    }
    cells
}

/// The outer brackets' content, as a range (see [`content`]).
pub fn content_of(s: &Vec<char>) -> (r: (usize, usize))
    ensures
        (r.0 as int, r.1 as int) == content(s@),
        r.0 <= r.1 <= s@.len(),
{
    let n = s.len();
    if n >= 2 && s[0] == '[' && s[n - 1] == ']' {
        (1, n - 1)
    } else {
        (0, n)
    }
}

/// Finds the entries of a matrix literal (see [`matrix_cells`]).
pub fn find_matrix_cells(s: &Vec<char>) -> (rows: Vec<Vec<(usize, usize)>>)
    ensures
        range_rows(rows@) == matrix_cells(s@),
        forall|i: int| 0 <= i < rows@.len() ==> within((#[trigger] rows@[i])@, 0, s@.len() as int),
{
    let mut rows: Vec<Vec<(usize, usize)>> = Vec::new();
    let (a, b) = content_of(s);
    if b - a <= 2 || s[a] != '[' {
        return rows;
    }
    let (spans, _) = scan(s, a, b, '[', ']');
    let mut i: usize = 0;
    while i < spans.len()
        invariant
            a <= b <= s@.len(),
            i <= spans@.len(),
            within(spans@, a as int, b as int),
            ranges(spans@) == row_ranges(s@),
            rows@.len() == i,
            forall|r: int|
                0 <= r < i ==> ranges((#[trigger] rows@[r])@) == trimmed_cells(
                    s@,
                    spans@[r].0 as int,
                    spans@[r].1 as int,
                ),
            forall|r: int| 0 <= r < i ==> within((#[trigger] rows@[r])@, 0, s@.len() as int),
        decreases spans@.len() - i,
    {
        let cells = split_cells(s, spans[i].0, spans[i].1);
        rows.push(cells);
        i += 1;
    }
    rows
}

/// Finds the entries of a vector literal (see [`vector_cells`]).
pub fn find_vector_cells(s: &Vec<char>) -> (cells: Vec<(usize, usize)>)
    ensures
        ranges(cells@) == vector_cells(s@),
        within(cells@, 0, s@.len() as int),
        cells@.len() >= 1,
{
    let (a, b) = content_of(s);
    split_cells(s, a, b)
}

/// Every row has as many cells as the first, and every cell holds a number.
pub open spec fn complete<T>(cells: Seq<Vec<Option<T>>>) -> bool {
    &&& cells.len() > 0
    &&& forall|i: int| 0 <= i < cells.len() ==> (#[trigger] cells[i])@.len() == cells[0]@.len()
    &&& forall|i: int, j: int|
        0 <= i < cells.len() && 0 <= j < cells[i]@.len() ==> (#[trigger] cells[i]@[j]).is_some()
}

/// The numbers that the cells hold.
pub open spec fn numbers<T>(cells: Seq<Option<T>>) -> Seq<T> {
    Seq::new(cells.len(), |j: int| cells[j].unwrap())
}

/// The numbers of a row of cells, where each cell holds one.
pub fn row_from_cells<T: Copy>(cells: &Vec<Option<T>>) -> (r: Option<Vec<T>>)
    ensures
        match r {
            Some(row) => {
                &&& forall|j: int| 0 <= j < cells@.len() ==> (#[trigger] cells@[j]).is_some()
                &&& row@ == numbers(cells@)
            },
            None => exists|j: int| 0 <= j < cells@.len() && (#[trigger] cells@[j]).is_none(),
        },
{
    let mut row: Vec<T> = Vec::new();
    let mut j: usize = 0;
    while j < cells.len()
        invariant
            j <= cells@.len(),
            row@.len() == j,
            forall|c: int| 0 <= c < j ==> (#[trigger] cells@[c]).is_some(),
            forall|c: int| 0 <= c < j ==> row@[c] == cells@[c].unwrap(),
        decreases cells@.len() - j,
    {
        match cells[j] {
            Some(x) => {
                row.push(x);
            },
            None => {
                return None;
            },
        }
        j += 1;
    }
    Some(row)
}

/// The matrix that rows of cells hold: where one cell holds no number, where
/// the rows differ in length, or where there is no row, the empty matrix.
pub fn matrix_from_cells<T: Scalar>(cells: Vec<Vec<Option<T>>>) -> (m: Matrix<T>)
    ensures
        m.wf(),
        complete(cells@) ==> {
            &&& m.height == cells@.len()
            &&& m.width == cells@[0]@.len()
            &&& m@ == Seq::new(cells@.len(), |i: int| numbers(cells@[i]@))
        },
        !complete(cells@) ==> m.height == 0 && m.width == 0 && m@.len() == 0,
{
    let mut data: Vec<Vec<T>> = Vec::new();
    let mut i: usize = 0;
    while i < cells.len()
        invariant
            i <= cells@.len(),
            data@.len() == i,
            forall|r: int, c: int|
                0 <= r < i && 0 <= c < cells@[r]@.len() ==> (#[trigger] cells@[r]@[c]).is_some(),
            forall|r: int| 0 <= r < i ==> (#[trigger] data@[r])@ == numbers(cells@[r]@),
        decreases cells@.len() - i,
    {
        match row_from_cells(&cells[i]) {
            Some(row) => {
                data.push(row);
            },
            None => {
                return Matrix { height: 0, width: 0, data: Vec::new() };
            },
        }
        i += 1;
    }
    if data.len() == 0 {
        return Matrix { height: 0, width: 0, data };
    }
    match Matrix::from_data(data) {
        Ok(m) => {
            assert(complete(cells@)) by {
                assert forall|r: int| 0 <= r < cells@.len() implies (#[trigger] cells@[r])@.len()
                    == cells@[0]@.len() by {
                    assert(m@[r] == numbers(cells@[r]@));
                }
            }
            m
        },
        Err(_) => {
            Matrix { height: 0, width: 0, data: Vec::new() }
        },
    }
}

/// The vector that cells hold; `ParseError` where one of them holds no
/// number.
pub fn vector_from_cells<T: Copy>(cells: Vec<Option<T>>) -> (r: Result<Vec<T>, MatrixError>)
    ensures
        match r {
            Ok(v) => {
                &&& forall|j: int| 0 <= j < cells@.len() ==> (#[trigger] cells@[j]).is_some()
                &&& v@ == numbers(cells@)
            },
            Err(e) => {
                &&& e == MatrixError::ParseError
                &&& exists|j: int| 0 <= j < cells@.len() && (#[trigger] cells@[j]).is_none()
            },
        },
{
    match row_from_cells(&cells) {
        Some(v) => Ok(v),
        None => Err(MatrixError::ParseError),
    }
}

/// Reads the numbers out of the given entries of a text, one cell for each:
/// the characters of each entry, as they stand, are what is read.
fn read_cells<T: FromStr>(text: &str, cells: &Vec<(usize, usize)>) -> (r: Vec<Option<T>>)
    requires
        within(cells@, 0, text@.len() as int),
    ensures
        r@.len() == cells@.len(),
{
    let mut r: Vec<Option<T>> = Vec::new();
    let mut k: usize = 0;
    while k < cells.len()
        invariant
            within(cells@, 0, text@.len() as int),
            k <= cells@.len(),
            r@.len() == k,
        decreases cells@.len() - k,
    {
        let token = text.substring_char(cells[k].0, cells[k].1);
        r.push(parse_number(token));
        k += 1;
    }
    r
}

/// Reads a vector literal `[a,b,c]`.
///
/// The outer brackets are optional. The text between them is cut at its
/// commas, and each piece, without the white space at its ends, is read as a
/// number. A piece that is no number gives `ParseError`; so the result has as
/// many entries as the text has pieces.
pub fn vector_from_str<T: Scalar + FromStr>(text: &str) -> (r: Result<Vec<T>, MatrixError>)
    ensures
        match r {
            Ok(v) => v@.len() == vector_cells(text@).len(),
            Err(e) => e == MatrixError::ParseError,
        },
{
    let s = chars_of(text);
    let cells = find_vector_cells(&s);
    let read: Vec<Option<T>> = read_cells(text, &cells);
    vector_from_cells(read)
}

impl<T: Scalar + FromStr> Matrix<T> {
    /// Reads a matrix literal `[[a,b],[c,d]]`.
    ///
    /// A text whose content (what stands between the outer brackets, or all
    /// of it where there are none) does not begin with `[` or has no more
    /// than two characters gives the empty matrix, and so does a text with a
    /// piece that is no number or with rows of unequal length. Otherwise the
    /// matrix has one row for each `]` of the content and one entry for each
    /// piece of that row (see [`matrix_cells`]).
    pub fn from_str(text: &str) -> (m: Matrix<T>)
        ensures
            m.wf(),
            !even(matrix_cells(text@)) ==> m.height == 0 && m.width == 0,
            even(matrix_cells(text@)) ==> (m.height == 0 && m.width == 0) || (m.height
                == matrix_cells(text@).len() && m.width == matrix_cells(text@)[0].len()),
    {
        let s = chars_of(text);
        let rows = find_matrix_cells(&s);
        let mut read: Vec<Vec<Option<T>>> = Vec::new();
        let mut i: usize = 0;
        while i < rows.len()
            invariant
                s@ == text@,
                i <= rows@.len(),
                range_rows(rows@) == matrix_cells(s@),
                forall|r: int|
                    0 <= r < rows@.len() ==> within((#[trigger] rows@[r])@, 0, s@.len() as int),
                read@.len() == i,
                forall|r: int| 0 <= r < i ==> (#[trigger] read@[r])@.len() == rows@[r]@.len(),
            decreases rows@.len() - i,
        {
            let cells: Vec<Option<T>> = read_cells(text, &rows[i]);
            read.push(cells);
            i += 1;
        }
        let m = matrix_from_cells(read);
        proof {
            assert forall|r: int| 0 <= r < rows@.len() implies (#[trigger] matrix_cells(
                text@,
            )[r]).len() == read@[r]@.len() by {
            }
        }
        m
    }
}

} // verus!
