//! Sums, differences, products and quotients of matrices. Every operation
//! consumes its operands and returns a new matrix.
use crate::error::MatrixError;
use crate::matrix::{row_scaled, row_sum, scaled_row, Matrix};
use crate::scalar::{
    exact, is_difference, is_image, is_product, is_quotient, is_sum, total, zero, zero_value,
    Scalar,
};
use vstd::prelude::*;
use vstd::std_specs::ops::{AddSpec, DivSpec, MulSpec, SubSpec};

verus! {

/// The elementwise difference of two rows; it has the length of the first.
pub open spec fn row_difference<T: Scalar>(a: Seq<T>, b: Seq<T>) -> Seq<T> {
    Seq::new(a.len(), |k: int| a[k].sub_spec(b[k]))
}

/// A row with every entry divided by `divisor`.
pub open spec fn row_divided<T: Scalar>(a: Seq<T>, divisor: T) -> Seq<T> {
    Seq::new(a.len(), |k: int| a[k].div_spec(divisor))
}

/// The products `a[k] * b[k][j]` for `k` in `0 .. n`, added up from the left,
/// starting from zero.
pub open spec fn dot<T: Scalar>(a: Seq<T>, b: Seq<Seq<T>>, j: int, n: int) -> T
    decreases n,
{
    if n <= 0 {
        zero::<T>()
    } else {
        dot(a, b, j, n - 1).add_spec(a[n - 1].mul_spec(b[n - 1][j]))
    }
}

/// `r` is what comes out when the products `a[k] * b[k][j]` for `k` in
/// `0 .. n` are added up from the left, starting from zero. This holds of
/// every element type; for an exact one it says `r == dot(a, b, j, n)`.
pub open spec fn is_dot<T: Scalar>(a: Seq<T>, b: Seq<Seq<T>>, j: int, n: int, r: T) -> bool
    decreases n,
{
    if n <= 0 {
        is_image(0u8, r)
    } else {
        exists|s: T, p: T|
            {
                &&& is_dot(a, b, j, n - 1, s)
                &&& is_product(a[n - 1], b[n - 1][j], p)
                &&& #[trigger] is_sum(s, p, r)
            }
    }
}

/// With an exact element type the sum of products is a function of the rows:
/// what comes out is `dot(a, b, j, n)`.
pub proof fn lemma_dot_is_exact<T: Scalar>(a: Seq<T>, b: Seq<Seq<T>>, j: int, n: int, r: T)
    requires
        exact::<T>(),
        is_dot(a, b, j, n, r),
    ensures
        r == dot(a, b, j, n),
    decreases n,
{
    if n > 0 {
        let (s, p) = choose|s: T, p: T|
            {
                &&& is_dot(a, b, j, n - 1, s)
                &&& is_product(a[n - 1], b[n - 1][j], p)
                &&& #[trigger] is_sum(s, p, r)
            };
        lemma_dot_is_exact(a, b, j, n - 1, s);
    }
}

/// The matrix product of `a` with `b`, whose rows have `width` entries.
pub open spec fn product<T: Scalar>(a: Seq<Seq<T>>, b: Seq<Seq<T>>, width: nat) -> Seq<Seq<T>> {
    Seq::new(a.len(), |i: int| Seq::new(width, |j: int| dot(a[i], b, j, b.len() as int)))
}

/// The elementwise sum of two rows of one length.
fn summed_row<T: Scalar>(a: &Vec<T>, b: &Vec<T>) -> (r: Vec<T>)
    requires
        total::<T>(),
        a@.len() == b@.len(),
    ensures
        r@.len() == a@.len(),
        forall|c: int| 0 <= c < a@.len() ==> is_sum(a@[c], b@[c], #[trigger] r@[c]),
        exact::<T>() ==> r@ == row_sum(a@, b@),
{
    let mut r: Vec<T> = Vec::new();
    let mut k: usize = 0;
    while k < a.len()
        invariant
            total::<T>(),
            a@.len() == b@.len(),
            k <= a@.len(),
            r@.len() == k,
            forall|c: int| 0 <= c < k ==> is_sum(a@[c], b@[c], #[trigger] r@[c]),
        decreases a@.len() - k,
    {
        r.push(a[k] + b[k]);
        k += 1;
    }
    r
}

/// The elementwise difference of two rows of one length.
fn subtracted_row<T: Scalar>(a: &Vec<T>, b: &Vec<T>) -> (r: Vec<T>)
    requires
        total::<T>(),
        a@.len() == b@.len(),
    ensures
        r@.len() == a@.len(),
        forall|c: int| 0 <= c < a@.len() ==> is_difference(a@[c], b@[c], #[trigger] r@[c]),
        exact::<T>() ==> r@ == row_difference(a@, b@),
{
    let mut r: Vec<T> = Vec::new();
    let mut k: usize = 0;
    while k < a.len()
        invariant
            total::<T>(),
            a@.len() == b@.len(),
            k <= a@.len(),
            r@.len() == k,
            forall|c: int| 0 <= c < k ==> is_difference(a@[c], b@[c], #[trigger] r@[c]),
        decreases a@.len() - k,
    {
        r.push(a[k] - b[k]);
        k += 1;
    }
    r
}

/// The row with every entry divided by `divisor`.
fn divided_row<T: Scalar>(a: &Vec<T>, divisor: T) -> (r: Vec<T>)
    requires
        total::<T>(),
    ensures
        r@.len() == a@.len(),
        forall|c: int| 0 <= c < a@.len() ==> is_quotient(a@[c], divisor, #[trigger] r@[c]),
        exact::<T>() ==> r@ == row_divided(a@, divisor),
{
    let mut r: Vec<T> = Vec::new();
    let mut k: usize = 0;
    while k < a.len()
        invariant
            total::<T>(),
            k <= a@.len(),
            r@.len() == k,
            forall|c: int| 0 <= c < k ==> is_quotient(a@[c], divisor, #[trigger] r@[c]),
        decreases a@.len() - k,
    {
        r.push(a[k] / divisor);
        k += 1;
    }
    r
}

impl<T: Scalar> Matrix<T> {
    /// The elementwise sum. Operands of different shapes are refused with
    /// `ShapeError`.
    pub fn add(self, m: Matrix<T>) -> (r: Result<Matrix<T>, MatrixError>)
        requires
            total::<T>(),
            self.wf(),
            m.wf(),
        ensures
            match r {
                Ok(sum) => {
                    &&& self.height == m.height
                    &&& self.width == m.width
                    &&& sum.wf()
                    &&& sum.height == self.height
                    &&& sum.width == self.width
                    &&& forall|i: int, j: int|
                        0 <= i < self.height && 0 <= j < self.width ==> is_sum(
                            self@[i][j],
                            m@[i][j],
                            #[trigger] sum@[i][j],
                        )
                    &&& exact::<T>() ==> sum@ == Seq::new(
                        self@.len(),
                        |i: int| row_sum(self@[i], m@[i]),
                    )
                },
                Err(e) => {
                    &&& e == MatrixError::ShapeError
                    &&& (self.height != m.height || self.width != m.width)
                },
            },
    {
        if self.height != m.height || self.width != m.width {
            return Err(MatrixError::ShapeError);
        }
        let mut data: Vec<Vec<T>> = Vec::new();
        let mut i: usize = 0;
        while i < self.height
            invariant
                total::<T>(),
                self.wf(),
                m.wf(),
                self.height == m.height,
                self.width == m.width,
                i <= self.height,
                data@.len() == i,
                forall|r: int| 0 <= r < i ==> (#[trigger] data@[r])@.len() == self.width,
                forall|r: int, c: int|
                    0 <= r < i && 0 <= c < self.width ==> is_sum(
                        self@[r][c],
                        m@[r][c],
                        #[trigger] data@[r]@[c],
                    ),
            decreases self.height - i,
        {
            proof {
                self.lemma_row(i as int);
                m.lemma_row(i as int);
            }
            let row = summed_row(&self.data[i], &m.data[i]);
            data.push(row);
            i += 1;
        }
        let sum = Matrix { height: self.height, width: self.width, data };
        assert(exact::<T>() ==> sum@ =~~= Seq::new(
            self@.len(),
            |i: int| row_sum(self@[i], m@[i]),
        ));
        Ok(sum)
    }

    /// The elementwise difference. Operands of different shapes are refused
    /// with `ShapeError`.
    pub fn subtract(self, m: Matrix<T>) -> (r: Result<Matrix<T>, MatrixError>)
        requires
            total::<T>(),
            self.wf(),
            m.wf(),
        ensures
            match r {
                Ok(difference) => {
                    &&& self.height == m.height
                    &&& self.width == m.width
                    &&& difference.wf()
                    &&& difference.height == self.height
                    &&& difference.width == self.width
                    &&& forall|i: int, j: int|
                        0 <= i < self.height && 0 <= j < self.width ==> is_difference(
                            self@[i][j],
                            m@[i][j],
                            #[trigger] difference@[i][j],
                        )
                    &&& exact::<T>() ==> difference@ == Seq::new(
                        self@.len(),
                        |i: int| row_difference(self@[i], m@[i]),
                    )
                },
                Err(e) => {
                    &&& e == MatrixError::ShapeError
                    &&& (self.height != m.height || self.width != m.width)
                },
            },
    {
        if self.height != m.height || self.width != m.width {
            return Err(MatrixError::ShapeError);
        }
        let mut data: Vec<Vec<T>> = Vec::new();
        let mut i: usize = 0;
        while i < self.height
            invariant
                total::<T>(),
                self.wf(),
                m.wf(),
                self.height == m.height,
                self.width == m.width,
                i <= self.height,
                data@.len() == i,
                forall|r: int| 0 <= r < i ==> (#[trigger] data@[r])@.len() == self.width,
                forall|r: int, c: int|
                    0 <= r < i && 0 <= c < self.width ==> is_difference(
                        self@[r][c],
                        m@[r][c],
                        #[trigger] data@[r]@[c],
                    ),
            decreases self.height - i,
        {
            proof {
                self.lemma_row(i as int);
                m.lemma_row(i as int);
            }
            let row = subtracted_row(&self.data[i], &m.data[i]);
            data.push(row);
            i += 1;
        }
        let difference = Matrix { height: self.height, width: self.width, data };
        assert(exact::<T>() ==> difference@ =~~= Seq::new(
            self@.len(),
            |i: int| row_difference(self@[i], m@[i]),
        ));
        Ok(difference)
    }

    /// Every entry multiplied from the right by `factor`.
    pub fn scale(self, factor: T) -> (r: Matrix<T>)
        requires
            total::<T>(),
            self.wf(),
        ensures
            r.wf(),
            r.height == self.height,
            r.width == self.width,
            forall|i: int, j: int|
                0 <= i < self.height && 0 <= j < self.width ==> is_product(
                    self@[i][j],
                    factor,
                    #[trigger] r@[i][j],
                ),
            exact::<T>() ==> r@ == Seq::new(self@.len(), |i: int| row_scaled(self@[i], factor)),
    {
        let mut data: Vec<Vec<T>> = Vec::new();
        let mut i: usize = 0;
        while i < self.height
            invariant
                total::<T>(),
                self.wf(),
                i <= self.height,
                data@.len() == i,
                forall|r: int| 0 <= r < i ==> (#[trigger] data@[r])@.len() == self.width,
                forall|r: int, c: int|
                    0 <= r < i && 0 <= c < self.width ==> is_product(
                        self@[r][c],
                        factor,
                        #[trigger] data@[r]@[c],
                    ),
            decreases self.height - i,
        {
            proof {
                self.lemma_row(i as int);
            }
            let row = scaled_row(&self.data[i], factor);
            data.push(row);
            i += 1;
        }
        let r = Matrix { height: self.height, width: self.width, data };
        assert(exact::<T>() ==> r@ =~~= Seq::new(
            self@.len(),
            |i: int| row_scaled(self@[i], factor),
        ));
        r
    }

    /// Every entry divided by `divisor`. A divisor of zero is no error: the
    /// entries are what the element type's division yields.
    pub fn divide_scalar(self, divisor: T) -> (r: Matrix<T>)
        requires
            total::<T>(),
            self.wf(),
        ensures
            r.wf(),
            r.height == self.height,
            r.width == self.width,
            forall|i: int, j: int|
                0 <= i < self.height && 0 <= j < self.width ==> is_quotient(
                    self@[i][j],
                    divisor,
                    #[trigger] r@[i][j],
                ),
            exact::<T>() ==> r@ == Seq::new(self@.len(), |i: int| row_divided(self@[i], divisor)),
    {
        let mut data: Vec<Vec<T>> = Vec::new();
        let mut i: usize = 0;
        while i < self.height
            invariant
                total::<T>(),
                self.wf(),
                i <= self.height,
                data@.len() == i,
                forall|r: int| 0 <= r < i ==> (#[trigger] data@[r])@.len() == self.width,
                forall|r: int, c: int|
                    0 <= r < i && 0 <= c < self.width ==> is_quotient(
                        self@[r][c],
                        divisor,
                        #[trigger] data@[r]@[c],
                    ),
            decreases self.height - i,
        {
            proof {
                self.lemma_row(i as int);
            }
            let row = divided_row(&self.data[i], divisor);
            data.push(row);
            i += 1;
        }
        let r = Matrix { height: self.height, width: self.width, data };
        assert(exact::<T>() ==> r@ =~~= Seq::new(
            self@.len(),
            |i: int| row_divided(self@[i], divisor),
        ));
        r
    }

    /// The matrix product `self * m`: entry `(i, j)` is the sum over `k` of
    /// `self[i][k] * m[k][j]`. Where the width of `self` is not the height of
    /// `m`, the operands are refused with `ShapeError`.
    pub fn multiply(self, m: Matrix<T>) -> (r: Result<Matrix<T>, MatrixError>)
        requires
            total::<T>(),
            self.wf(),
            m.wf(),
        ensures
            match r {
                Ok(p) => {
                    &&& self.width == m.height
                    &&& p.wf()
                    &&& p.height == self.height
                    &&& p.width == m.width
                    &&& forall|i: int, j: int|
                        0 <= i < self.height && 0 <= j < m.width ==> is_dot(
                            self@[i],
                            m@,
                            j,
                            m@.len() as int,
                            #[trigger] p@[i][j],
                        )
                    &&& exact::<T>() ==> p@ == product(self@, m@, m.width as nat)
                },
                Err(e) => e == MatrixError::ShapeError && self.width != m.height,
            },
    {
        if self.width != m.height {
            return Err(MatrixError::ShapeError);
        }
        let mut data: Vec<Vec<T>> = Vec::new();
        let mut i: usize = 0;
        while i < self.height
            invariant
                total::<T>(),
                self.wf(),
                m.wf(),
                self.width == m.height,
                i <= self.height,
                data@.len() == i,
                forall|r: int| 0 <= r < i ==> (#[trigger] data@[r])@.len() == m.width,
                forall|r: int, c: int|
                    0 <= r < i && 0 <= c < m.width ==> is_dot(
                        self@[r],
                        m@,
                        c,
                        m@.len() as int,
                        #[trigger] data@[r]@[c],
                    ),
            decreases self.height - i,
        {
            let mut row: Vec<T> = Vec::new();
            let mut j: usize = 0;
            while j < m.width
                invariant
                    total::<T>(),
                    self.wf(),
                    m.wf(),
                    self.width == m.height,
                    i < self.height,
                    j <= m.width,
                    row@.len() == j,
                    forall|c: int|
                        0 <= c < j ==> is_dot(
                            self@[i as int],
                            m@,
                            c,
                            m@.len() as int,
                            #[trigger] row@[c],
                        ),
                decreases m.width - j,
            {
                let mut entry: T = zero_value();
                let mut k: usize = 0;
                while k < self.width
                    invariant
                        total::<T>(),
                        self.wf(),
                        m.wf(),
                        self.width == m.height,
                        i < self.height,
                        j < m.width,
                        k <= self.width,
                        is_dot(self@[i as int], m@, j as int, k as int, entry),
                    decreases self.width - k,
                {
                    proof {
                        self.lemma_row(i as int);
                        m.lemma_row(k as int);
                    }
                    let ghost before = entry;
                    let term: T = self.data[i][k] * m.data[k][j];
                    entry = entry + term;
                    assert(is_dot(self@[i as int], m@, j as int, k + 1, entry)) by {
                        assert(is_sum(before, term, entry));
                    }
                    k += 1;
                }
                row.push(entry);
                j += 1;
            }
            data.push(row);
            i += 1;
        }
        let p = Matrix { height: self.height, width: m.width, data };
        proof {
            if exact::<T>() {
                assert forall|i: int, j: int| 0 <= i < self.height && 0 <= j < m.width implies (
                #[trigger] p@[i][j]) == dot(self@[i], m@, j, m@.len() as int) by {
                    lemma_dot_is_exact(self@[i], m@, j, m@.len() as int, p@[i][j]);
                }
                assert(p@ =~~= product(self@, m@, m.width as nat));
            }
        }
        Ok(p)
    }
}

} // verus!
