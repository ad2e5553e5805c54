//! The dense matrix type: its shape, its entries and rows, transposes, minors
//! and determinants.
use crate::error::MatrixError;
use crate::scalar::{
    exact, is_image, is_product, is_sign, is_sum, one, one_value, sign, sign_value, total, zero,
    zero_value, Scalar,
};
use vstd::prelude::*;
use vstd::std_specs::ops::{AddSpec, MulSpec};

verus! {

/// The rows that a vector of vectors holds, as sequences.
pub open spec fn rows_of<T>(data: Seq<Vec<T>>) -> Seq<Seq<T>> {
    Seq::new(data.len(), |i: int| data[i]@)
}

/// `rows` has `height` rows of `width` entries each.
pub open spec fn rectangular<T>(rows: Seq<Seq<T>>, height: nat, width: nat) -> bool {
    &&& rows.len() == height
    &&& forall|i: int| 0 <= i < rows.len() ==> (#[trigger] rows[i]).len() == width
}

/// The grid of `height` rows and `width` columns that holds `value` everywhere.
pub open spec fn filled<T>(height: nat, width: nat, value: T) -> Seq<Seq<T>> {
    Seq::new(height, |i: int| Seq::new(width, |j: int| value))
}

/// `rows` is an identity of size `n`, whatever the element type: what the
/// conversion of one yields on the diagonal, what the conversion of zero
/// yields elsewhere.
pub open spec fn is_identity<T: Scalar>(rows: Seq<Seq<T>>, n: nat) -> bool {
    &&& rectangular(rows, n, n)
    &&& exists|z: T, u: T|
        {
            &&& #[trigger] is_image(0u8, z)
            &&& #[trigger] is_image(1u8, u)
            &&& forall|i: int, j: int|
                0 <= i < n && 0 <= j < n ==> #[trigger] rows[i][j] == (if i == j {
                    u
                } else {
                    z
                })
        }
}

/// The transpose of a grid whose rows have `width` entries: entry `(j, i)` of
/// the result is entry `(i, j)` of `rows`.
pub open spec fn transposed<T>(rows: Seq<Seq<T>>, width: nat) -> Seq<Seq<T>> {
    Seq::new(width, |j: int| Seq::new(rows.len(), |i: int| rows[i][j]))
}

/// The elementwise sum of two rows; it has the length of the first.
pub open spec fn row_sum<T: Scalar>(a: Seq<T>, b: Seq<T>) -> Seq<T> {
    Seq::new(a.len(), |k: int| a[k].add_spec(b[k]))
}

/// A row with every entry multiplied from the right by `factor`.
pub open spec fn row_scaled<T: Scalar>(a: Seq<T>, factor: T) -> Seq<T> {
    Seq::new(a.len(), |k: int| a[k].mul_spec(factor))
}

/// Transposing twice gives the grid back, whatever its shape: a grid without
/// rows keeps its width, and one without columns its height.
pub proof fn lemma_transpose_involutive<T>(rows: Seq<Seq<T>>, width: nat)
    requires
        rectangular(rows, rows.len(), width),
    ensures
        rectangular(transposed(rows, width), width, rows.len()),
        transposed(transposed(rows, width), rows.len()) == rows,
{
    let back = transposed(transposed(rows, width), rows.len());
    assert forall|i: int| 0 <= i < rows.len() implies #[trigger] back[i] == rows[i] by {
    }
}

/// A sequence without its entry `k`; unchanged where `k` is no index of it.
pub open spec fn strike<A>(s: Seq<A>, k: int) -> Seq<A> {
    if 0 <= k < s.len() {
        Seq::new((s.len() - 1) as nat, |i: int| if i < k { s[i] } else { s[i + 1] })
    } else {
        s
    }
}

/// A grid without row `row` and without column `col`.
pub open spec fn minor<T>(rows: Seq<Seq<T>>, row: int, col: int) -> Seq<Seq<T>> {
    Seq::new(strike(rows, row).len(), |i: int| strike(strike(rows, row)[i], col))
}

/// The determinant of a square grid by cofactor expansion along the first
/// row: the sole entry of a grid of one row, else the sum of the cofactors of
/// all columns (zero for the grid without rows).
pub open spec fn determinant<T: Scalar>(rows: Seq<Seq<T>>) -> T
    decreases rows.len(), rows.len() + 1,
{
    if rows.len() == 1 {
        rows[0][0]
    } else {
        cofactor_sum(rows, rows.len() as int)
    }
}

/// The cofactors of the columns `0 .. k` of the first row, added up from the
/// left, starting from zero: column `j` contributes
/// `(sign(j) * rows[0][j]) * determinant(minor(rows, 0, j))`.
pub open spec fn cofactor_sum<T: Scalar>(rows: Seq<Seq<T>>, k: int) -> T
    decreases rows.len(), k,
{
    if k <= 0 || rows.len() == 0 {
        zero::<T>()
    } else {
        cofactor_sum(rows, k - 1).add_spec(
            sign::<T>(k - 1).mul_spec(rows[0][k - 1]).mul_spec(
                determinant(minor(rows, 0, k - 1)),
            ),
        )
    }
}

/// `r` is what the cofactor expansion of the square grid `rows` comes to,
/// whatever the element type. For an exact element type it says
/// `r == determinant(rows)`.
pub open spec fn is_determinant<T: Scalar>(rows: Seq<Seq<T>>, r: T) -> bool
    decreases rows.len(), rows.len() + 1,
{
    if rows.len() == 1 {
        r == rows[0][0]
    } else {
        is_cofactor_sum(rows, rows.len() as int, r)
    }
}

/// `r` is what the cofactors of the columns `0 .. k` add up to, whatever the
/// element type: for each column the sign is multiplied by the entry of the
/// first row, that product by what the expansion of the minor comes to, and
/// the result is added to the sum so far.
pub open spec fn is_cofactor_sum<T: Scalar>(rows: Seq<Seq<T>>, k: int, r: T) -> bool
    decreases rows.len(), k,
{
    if k <= 0 || rows.len() == 0 {
        is_image(0u8, r)
    } else {
        exists|s: T, g: T, f: T, d: T, t: T|
            {
                &&& is_cofactor_sum(rows, k - 1, s)
                &&& is_sign(k - 1, g)
                &&& #[trigger] is_product(g, rows[0][k - 1], f)
                &&& is_determinant(minor(rows, 0, k - 1), d)
                &&& #[trigger] is_product(f, d, t)
                &&& #[trigger] is_sum(s, t, r)
            }
    }
}

/// With an exact element type the cofactor expansion is a function of the
/// grid: what it comes to is `determinant(rows)`.
pub proof fn lemma_determinant_is_exact<T: Scalar>(rows: Seq<Seq<T>>, r: T)
    requires
        exact::<T>(),
        is_determinant(rows, r),
    ensures
        r == determinant(rows),
    decreases rows.len(), rows.len() + 1,
{
    if rows.len() != 1 {
        lemma_cofactor_sum_is_exact(rows, rows.len() as int, r);
    }
}

/// With an exact element type the sum of the cofactors of the columns
/// `0 .. k` is `cofactor_sum(rows, k)`.
pub proof fn lemma_cofactor_sum_is_exact<T: Scalar>(rows: Seq<Seq<T>>, k: int, r: T)
    requires
        exact::<T>(),
        is_cofactor_sum(rows, k, r),
    ensures
        r == cofactor_sum(rows, k),
    decreases rows.len(), k,
{
    if k > 0 && rows.len() > 0 {
        let (s, g, f, d, t) = choose|s: T, g: T, f: T, d: T, t: T|
            {
                &&& is_cofactor_sum(rows, k - 1, s)
                &&& is_sign(k - 1, g)
                &&& #[trigger] is_product(g, rows[0][k - 1], f)
                &&& is_determinant(minor(rows, 0, k - 1), d)
                &&& #[trigger] is_product(f, d, t)
                &&& #[trigger] is_sum(s, t, r)
            };
        lemma_cofactor_sum_is_exact(rows, k - 1, s);
        lemma_determinant_is_exact(minor(rows, 0, k - 1), d);
    }
}

/// A dense matrix: `height` rows of `width` entries each.
///
/// A matrix with no rows or no columns is valid and stands for "empty".
/// The constructors establish the shape invariant `wf` and every method keeps
/// it; code that writes the fields directly has to keep it as well.
#[derive(Debug, Clone)]
pub struct Matrix<T> {
    pub height: usize,
    pub width: usize,
    pub data: Vec<Vec<T>>,
}

impl<T> View for Matrix<T> {
    type V = Seq<Seq<T>>;

    /// The rows of the matrix, top to bottom.
    open spec fn view(&self) -> Seq<Seq<T>> {
        rows_of(self.data@)
    }
}

impl<T: Scalar> Matrix<T> {
    /// The shape invariant: the fields `height` and `width` say how many rows
    /// there are and how long each of them is.
    pub open spec fn wf(&self) -> bool {
        rectangular(self@, self.height as nat, self.width as nat)
    }

    /// In a well-formed matrix row `i` of the data is row `i` of the view and
    /// has `width` entries.
    pub proof fn lemma_row(&self, i: int)
        requires
            self.wf(),
            0 <= i < self.height,
        ensures
            self.data@.len() == self.height,
            self@.len() == self.height,
            self@[i] == self.data@[i]@,
            self@[i].len() == self.width,
    {
    }

    /// Whether the shape invariant holds. It does for every matrix that the
    /// functions of this crate return; this is for values that were put
    /// together field by field.
    pub fn is_wf(&self) -> (r: bool)
        ensures
            r == self.wf(),
    {
        if self.data.len() != self.height {
            return false;
        }
        let mut i: usize = 0;
        while i < self.height
            invariant
                i <= self.height,
                self.data@.len() == self.height,
                forall|r: int| 0 <= r < i ==> (#[trigger] self@[r]).len() == self.width,
            decreases self.height - i,
        {
            if self.data[i].len() != self.width {
                assert(self@[i as int].len() != self.width);
                return false;
            }
            i += 1;
        }
        true
    }

    /// A matrix of the given shape that holds `value` everywhere.
    pub fn filled_with(height: usize, width: usize, value: T) -> (m: Matrix<T>)
        ensures
            m.wf(),
            m.height == height,
            m.width == width,
            m@ == filled(height as nat, width as nat, value),
    {
        let mut data: Vec<Vec<T>> = Vec::new();
        let mut i: usize = 0;
        while i < height
            invariant
                i <= height,
                data@.len() == i,
                forall|r: int|
                    0 <= r < i ==> (#[trigger] data@[r])@ == Seq::new(width as nat, |j: int| value),
            decreases height - i,
        {
            let mut row: Vec<T> = Vec::new();
            let mut j: usize = 0;
            while j < width
                invariant
                    j <= width,
                    row@.len() == j,
                    forall|c: int| 0 <= c < j ==> row@[c] == value,
                decreases width - j,
            {
                row.push(value);
                j += 1;
            }
            data.push(row);
            i += 1;
        }
        let m = Matrix { height, width, data };
        m
    }

    /// A matrix of the given shape that holds zero everywhere.
    pub fn new(height: usize, width: usize) -> (m: Matrix<T>)
        ensures
            m.wf(),
            m.height == height,
            m.width == width,
            exists|z: T| is_image(0u8, z) && m@ == filled(height as nat, width as nat, z),
            exact::<T>() ==> m@ == filled(height as nat, width as nat, zero::<T>()),
    {
        Matrix::filled_with(height, width, zero_value())
    }

    /// The identity matrix of size `n`: one on the diagonal, zero elsewhere.
    pub fn identity(n: usize) -> (m: Matrix<T>)
        ensures
            m.wf(),
            m.height == n,
            m.width == n,
            is_identity(m@, n as nat),
            exact::<T>() ==> m@ == Seq::new(
                n as nat,
                |i: int| Seq::new(n as nat, |j: int| if i == j { one::<T>() } else { zero::<T>() }),
            ),
    {
        let z: T = zero_value();
        let unit: T = one_value();
        let mut m: Matrix<T> = Matrix::filled_with(n, n, z);
        let mut i: usize = 0;
        while i < n
            invariant
                i <= n,
                m.wf(),
                m.height == n,
                m.width == n,
                forall|r: int, c: int|
                    0 <= r < n && 0 <= c < n ==> #[trigger] m@[r][c] == (if r == c && r < i {
                        unit
                    } else {
                        z
                    }),
            decreases n - i,
        {
            let _ = m.set(i, i, unit);
            i += 1;
        }
        proof {
            if exact::<T>() {
                assert(m@ =~= Seq::new(
                    n as nat,
                    |i: int|
                        Seq::new(n as nat, |j: int| if i == j { one::<T>() } else { zero::<T>() }),
                )) by {
                    assert forall|r: int| 0 <= r < n implies #[trigger] m@[r] =~= Seq::new(
                        n as nat,
                        |j: int| if r == j { one::<T>() } else { zero::<T>() },
                    ) by {
                    }
                }
            }
        }
        m
    }

    /// A matrix with the given rows.
    ///
    /// The width is the length of the first row; no rows give the empty
    /// matrix. Rows of unequal length are refused.
    pub fn from_data(data: Vec<Vec<T>>) -> (r: Result<Matrix<T>, MatrixError>)
        ensures
            match r {
                Ok(m) => {
                    &&& m.wf()
                    &&& m@ == rows_of(data@)
                    &&& m.height == data@.len()
                    &&& m.width == (if data@.len() == 0 { 0 } else { data@[0]@.len() })
                },
                Err(e) => {
                    &&& e == MatrixError::ShapeError
                    &&& exists|i: int| 0 <= i < data@.len() && (#[trigger] data@[i])@.len() != data@[0]@.len()
                },
            },
    {
        let height = data.len();
        if height == 0 {
            return Ok(Matrix { height: 0, width: 0, data });
        }
        let width = data[0].len();
        let mut i: usize = 1;
        while i < height
            invariant
                1 <= i <= height,
                height == data@.len(),
                width == data@[0]@.len(),
                forall|r: int| 0 <= r < i ==> (#[trigger] data@[r])@.len() == width,
            decreases height - i,
        {
            if data[i].len() != width {
                return Err(MatrixError::ShapeError);
            }
            i += 1;
        }
        Ok(Matrix { height, width, data })
    }

    /// A copy of the rows.
    pub fn get_data(&self) -> (data: Vec<Vec<T>>)
        ensures
            rows_of(data@) == self@,
    {
        let mut data: Vec<Vec<T>> = Vec::new();
        let mut i: usize = 0;
        while i < self.data.len()
            invariant
                i <= self.data@.len(),
                data@.len() == i,
                forall|r: int| 0 <= r < i ==> (#[trigger] data@[r])@ == self.data@[r]@,
            decreases self.data@.len() - i,
        {
            let row = copy_of(&self.data[i]);
            data.push(row);
            i += 1;
        }
        data
    }

    /// The entry in row `i`, column `j`.
    pub fn get(&self, i: usize, j: usize) -> (r: Result<T, MatrixError>)
        requires
            self.wf(),
        ensures
            r == (if i < self.height && j < self.width {
                Ok(self@[i as int][j as int])
            } else {
                Err(MatrixError::IndexOutOfRange)
            }),
    {
        if i < self.height && j < self.width {
            proof {
                self.lemma_row(i as int);
            }
            Ok(self.data[i][j])
        } else {
            Err(MatrixError::IndexOutOfRange)
        }
    }

    /// Replaces the entry in row `i`, column `j` by `value`.
    pub fn set(&mut self, i: usize, j: usize, value: T) -> (r: Result<(), MatrixError>)
        requires
            old(self).wf(),
        ensures
            final(self).wf(),
            final(self).height == old(self).height,
            final(self).width == old(self).width,
            r == (if i < old(self).height && j < old(self).width {
                Ok(())
            } else {
                Err(MatrixError::IndexOutOfRange)
            }),
            r.is_ok() ==> final(self)@ == old(self)@.update(
                i as int,
                old(self)@[i as int].update(j as int, value),
            ),
            r.is_err() ==> final(self)@ == old(self)@,
    {
        if i < self.height && j < self.width {
            proof {
                self.lemma_row(i as int);
            }
            self.data[i][j] = value;
            assert(self@ =~= old(self)@.update(
                i as int,
                old(self)@[i as int].update(j as int, value),
            ));
            Ok(())
        } else {
            Err(MatrixError::IndexOutOfRange)
        }
    }

    /// Adds `row`, entry by entry, to row `j`.
    ///
    /// A `row` whose length is not the width is refused with `ShapeError`, a
    /// `j` that is no row with `IndexOutOfRange`; the length is looked at first.
    pub fn add_to_row(&mut self, j: usize, row: Vec<T>) -> (r: Result<(), MatrixError>)
        requires
            total::<T>(),
            old(self).wf(),
        ensures
            final(self).wf(),
            final(self).height == old(self).height,
            final(self).width == old(self).width,
            r == (if row@.len() != old(self).width {
                Err(MatrixError::ShapeError)
            } else if j >= old(self).height {
                Err(MatrixError::IndexOutOfRange)
            } else {
                Ok(())
            }),
            forall|i: int|
                0 <= i < old(self).height && i != j ==> #[trigger] final(self)@[i] == old(self)@[i],
            r.is_ok() ==> forall|c: int|
                0 <= c < old(self).width ==> is_sum(
                    old(self)@[j as int][c],
                    row@[c],
                    #[trigger] final(self)@[j as int][c],
                ),
            exact::<T>() && r.is_ok() ==> final(self)@ == old(self)@.update(
                j as int,
                row_sum(old(self)@[j as int], row@),
            ),
            r.is_err() ==> final(self)@ == old(self)@,
    {
        if row.len() != self.width {
            return Err(MatrixError::ShapeError);
        }
        if j >= self.height {
            return Err(MatrixError::IndexOutOfRange);
        }
        proof {
            self.lemma_row(j as int);
        }
        let mut k: usize = 0;
        while k < self.width
            invariant
                total::<T>(),
                k <= self.width,
                j < self.height,
                row@.len() == self.width,
                self.height == old(self).height,
                self.width == old(self).width,
                self.data@.len() == old(self).data@.len(),
                self.data@.len() == self.height,
                self.data@[j as int]@.len() == self.width,
                old(self).data@[j as int]@.len() == self.width,
                forall|r: int| 0 <= r < self.height && r != j ==> self.data@[r] == old(self).data@[r],
                forall|c: int|
                    0 <= c < k ==> is_sum(
                        old(self).data@[j as int]@[c],
                        row@[c],
                        #[trigger] self.data@[j as int]@[c],
                    ),
                forall|c: int|
                    k <= c < self.width ==> self.data@[j as int]@[c] == #[trigger] old(self).data@[j as int]@[c],
            decreases self.width - k,
        {
            let x: T = self.data[j][k] + row[k];
            self.data[j][k] = x;
            k += 1;
        }
        assert(self.wf()) by {
            assert forall|i: int| 0 <= i < self@.len() implies (#[trigger] self@[i]).len()
                == self.width by {
                if i != j {
                    old(self).lemma_row(i);
                }
            }
        }
        proof {
            if exact::<T>() {
                assert(self@ =~= old(self)@.update(j as int, row_sum(old(self)@[j as int], row@))) by {
                    assert(self.data@[j as int]@ =~= row_sum(old(self)@[j as int], row@));
                }
            }
        }
        Ok(())
    }

    /// Exchanges the rows `row` and `other`. An index that is no row is
    /// refused with `IndexOutOfRange`.
    pub fn swap_rows(&mut self, row: usize, other: usize) -> (r: Result<(), MatrixError>)
        requires
            old(self).wf(),
        ensures
            final(self).wf(),
            final(self).height == old(self).height,
            final(self).width == old(self).width,
            r == (if row >= old(self).height || other >= old(self).height {
                Err(MatrixError::IndexOutOfRange)
            } else {
                Ok(())
            }),
            r.is_ok() ==> final(self)@ == old(self)@.update(row as int, old(self)@[other as int]).update(
                other as int,
                old(self)@[row as int],
            ),
            r.is_err() ==> final(self)@ == old(self)@,
    {
        if row >= self.height || other >= self.height {
            return Err(MatrixError::IndexOutOfRange);
        }
        let upper = copy_of(&self.data[row]);
        let lower = copy_of(&self.data[other]);
        self.data[row] = lower;
        self.data[other] = upper;
        assert(self@ =~= old(self)@.update(row as int, old(self)@[other as int]).update(
            other as int,
            old(self)@[row as int],
        ));
        Ok(())
    }

    /// The transpose: a matrix of `width` rows and `height` columns whose
    /// entry `(j, i)` is the entry `(i, j)` of `self`.
    pub fn transpose(&self) -> (r: Matrix<T>)
        requires
            self.wf(),
        ensures
            r.wf(),
            r.height == self.width,
            r.width == self.height,
            r@ == transposed(self@, self.width as nat),
    {
        let mut data: Vec<Vec<T>> = Vec::new();
        let mut j: usize = 0;
        while j < self.width
            invariant
                self.wf(),
                j <= self.width,
                data@.len() == j,
                forall|c: int|
                    0 <= c < j ==> (#[trigger] data@[c])@ == Seq::new(
                        self.height as nat,
                        |i: int| self@[i][c],
                    ),
            decreases self.width - j,
        {
            let mut column: Vec<T> = Vec::new();
            let mut i: usize = 0;
            while i < self.height
                invariant
                    self.wf(),
                    j < self.width,
                    i <= self.height,
                    column@.len() == i,
                    forall|r: int| 0 <= r < i ==> column@[r] == self@[r][j as int],
                decreases self.height - i,
            {
                proof {
                    self.lemma_row(i as int);
                }
                column.push(self.data[i][j]);
                i += 1;
            }
            data.push(column);
            j += 1;
        }
        let r = Matrix { height: self.width, width: self.height, data };
        r
    }

    /// The matrix without row `row` and without column `col`. An index that
    /// is no row, or no column, removes nothing.
    pub fn submatrix(&self, row: usize, col: usize) -> (r: Matrix<T>)
        requires
            self.wf(),
        ensures
            r.wf(),
            r.height == (if row < self.height { self.height - 1 } else { self.height as int }),
            r.width == (if col < self.width { self.width - 1 } else { self.width as int }),
            r@ == minor(self@, row as int, col as int),
    {
        let mut data: Vec<Vec<T>> = Vec::new();
        let mut i: usize = 0;
        while i < self.height
            invariant
                self.wf(),
                i <= self.height,
                data@.len() == (if i <= row { i as int } else { i - 1 }),
                forall|r: int|
                    0 <= r < data@.len() ==> (#[trigger] data@[r])@ == strike(
                        strike(self@, row as int)[r],
                        col as int,
                    ),
            decreases self.height - i,
        {
            if i != row {
                proof {
                    self.lemma_row(i as int);
                }
                let mut kept: Vec<T> = Vec::new();
                let mut j: usize = 0;
                while j < self.width
                    invariant
                        self.wf(),
                        i < self.height,
                        self.data@.len() == self.height,
                        self.data@[i as int]@.len() == self.width,
                        j <= self.width,
                        kept@.len() == (if j <= col { j as int } else { j - 1 }),
                        forall|c: int|
                            0 <= c < kept@.len() ==> kept@[c] == (if c < col {
                                self.data@[i as int]@[c]
                            } else {
                                self.data@[i as int]@[c + 1]
                            }),
                    decreases self.width - j,
                {
                    if j != col {
                        kept.push(self.data[i][j]);
                    }
                    j += 1;
                }
                data.push(kept);
            }
            i += 1;
        }
        let height = data.len();
        let width = if col < self.width { self.width - 1 } else { self.width };
        let r = Matrix { height, width, data };
        r
    }

    /// The determinant, by cofactor expansion along the first row. A matrix
    /// that is not square is refused with `NotSquare`.
    ///
    /// The work grows with the factorial of the size: this is for small
    /// matrices.
    pub fn det(&self) -> (r: Result<T, MatrixError>)
        requires
            total::<T>(),
            self.wf(),
        ensures
            self.width != self.height ==> r == Err::<T, MatrixError>(MatrixError::NotSquare),
            self.width == self.height ==> r.is_ok() && is_determinant(self@, r.unwrap()),
            exact::<T>() && self.width == self.height ==> r == Ok::<T, MatrixError>(
                determinant(self@),
            ),
    {
        if self.width != self.height {
            return Err(MatrixError::NotSquare);
        }
        Ok(self.det_of_square())
    }

    /// The determinant of a square matrix (see [`determinant`]).
    pub fn det_of_square(&self) -> (r: T)
        requires
            total::<T>(),
            self.wf(),
            self.width == self.height,
        ensures
            is_determinant(self@, r),
            exact::<T>() ==> r == determinant(self@),
        decreases self.height,
    {
        if self.height == 1 {
            proof {
                self.lemma_row(0);
            }
            return self.data[0][0];
        }
        let mut det: T = zero_value();
        let mut j: usize = 0;
        while j < self.width
            invariant
                total::<T>(),
                self.wf(),
                self.width == self.height,
                self.height != 1,
                j <= self.width,
                is_cofactor_sum(self@, j as int, det),
            decreases self.width - j,
        {
            proof {
                self.lemma_row(0);
            }
            let ghost before = det;
            let alpha: T = sign_value(j);
            let a_ij: T = self.data[0][j];
            let sub = self.submatrix(0, j);
            let factor: T = alpha * a_ij;
            let below: T = sub.det_of_square();
            let term: T = factor * below;
            det = det + term;
            assert(is_cofactor_sum(self@, j + 1, det)) by {
                assert(is_product(alpha, self@[0][j + 1 - 1], factor));
                assert(is_product(factor, below, term));
                assert(is_sum(before, term, det));
            }
            j += 1;
        }
        proof {
            if exact::<T>() {
                lemma_determinant_is_exact(self@, det);
            }
        }
        det
    }
}

/// The row with every entry multiplied from the right by `factor`.
pub fn scaled_row<T: Scalar>(row: &Vec<T>, factor: T) -> (r: Vec<T>)
    requires
        total::<T>(),
    ensures
        r@.len() == row@.len(),
        forall|c: int| 0 <= c < row@.len() ==> is_product(row@[c], factor, #[trigger] r@[c]),
        exact::<T>() ==> r@ == row_scaled(row@, factor),
{
    let mut r: Vec<T> = Vec::new();
    let mut k: usize = 0;
    while k < row.len()
        invariant
            total::<T>(),
            k <= row@.len(),
            r@.len() == k,
            forall|c: int| 0 <= c < k ==> is_product(row@[c], factor, #[trigger] r@[c]),
        decreases row@.len() - k,
    {
        r.push(row[k] * factor);
        k += 1;
    }
    r
}

/// A copy of a row.
pub fn copy_of<T: Copy>(row: &Vec<T>) -> (r: Vec<T>)
    ensures
        r@ == row@,
{
    let mut r: Vec<T> = Vec::new();
    let mut j: usize = 0;
    while j < row.len()
        invariant
            j <= row@.len(),
            r@.len() == j,
            forall|c: int| 0 <= c < j ==> r@[c] == row@[c],
        decreases row@.len() - j,
    {
        r.push(row[j]);
        j += 1;
    }
    r
}

} // verus!
