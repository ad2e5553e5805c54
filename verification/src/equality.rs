//! Equality of matrices: the same shape and, entry by entry, equal numbers.
use crate::matrix::Matrix;
use vstd::prelude::*;
use vstd::std_specs::cmp::PartialEqSpec;

verus! {

/// Two grids have the same number of rows, row by row the same number of
/// entries, and entry by entry numbers that the element type calls equal.
pub open spec fn same_grid<T: PartialEq>(a: Seq<Seq<T>>, b: Seq<Seq<T>>) -> bool {
    &&& a.len() == b.len()
    &&& forall|i: int| 0 <= i < a.len() ==> (#[trigger] a[i]).len() == b[i].len()
    &&& forall|i: int, j: int|
        0 <= i < a.len() && 0 <= j < a[i].len() ==> (#[trigger] a[i][j]).eq_spec(&b[i][j])
}

/// `r` is what `a == b` evaluates to, whatever the element type.
pub open spec fn found<T: PartialEq>(a: T, b: T, r: bool) -> bool {
    call_ensures(<T as PartialEq>::eq, (&a, &b), r)
}

/// `r` is what comparing two rows comes to, whatever the element type:
/// `true` where they have one length and every pair of entries was found
/// equal, `false` where the lengths differ or a pair was found unequal.
pub open spec fn is_row_comparison<T: PartialEq>(a: Seq<T>, b: Seq<T>, r: bool) -> bool {
    if r {
        &&& a.len() == b.len()
        &&& forall|j: int| 0 <= j < a.len() ==> found(#[trigger] a[j], b[j], true)
    } else {
        a.len() != b.len() || exists|j: int| 0 <= j < a.len() && found(#[trigger] a[j], b[j], false)
    }
}

/// `r` is what comparing two grids comes to, whatever the element type:
/// `true` where they have as many rows and every pair of rows compared
/// equal, `false` where the numbers of rows differ or a pair compared
/// unequal.
pub open spec fn is_grid_comparison<T: PartialEq>(a: Seq<Seq<T>>, b: Seq<Seq<T>>, r: bool) -> bool {
    if r {
        &&& a.len() == b.len()
        &&& forall|i: int| 0 <= i < a.len() ==> is_row_comparison(#[trigger] a[i], b[i], true)
    } else {
        a.len() != b.len() || exists|i: int|
            0 <= i < a.len() && is_row_comparison(#[trigger] a[i], b[i], false)
    }
}

/// Whether two rows have the same length and equal entries.
pub fn same_row<T: PartialEq>(a: &Vec<T>, b: &Vec<T>) -> (r: bool)
    ensures
        is_row_comparison(a@, b@, r),
        T::obeys_eq_spec() ==> r == (a@.len() == b@.len() && forall|j: int|
            0 <= j < a@.len() ==> (#[trigger] a@[j]).eq_spec(&b@[j])),
{
    if a.len() != b.len() {
        return false;
    }
    let mut j: usize = 0;
    while j < a.len()
        invariant
            a@.len() == b@.len(),
            j <= a@.len(),
            forall|c: int| 0 <= c < j ==> found(#[trigger] a@[c], b@[c], true),
        decreases a@.len() - j,
    {
        let equal: bool = a[j] == b[j];
        if !equal {
            assert(found(a@[j as int], b@[j as int], false));
            return false;
        }
        j += 1;
    }
    true
}

impl<T: PartialEq> Matrix<T> {
    /// Exact comparison: no two matrices of different shape are equal, and
    /// no tolerance is applied to the entries.
    pub fn equals(&self, other: &Matrix<T>) -> (r: bool)
        ensures
            r ==> self.height == other.height && self.width == other.width,
            self.height == other.height && self.width == other.width ==> is_grid_comparison(
                self@,
                other@,
                r,
            ),
            T::obeys_eq_spec() ==> r == (self.height == other.height && self.width == other.width
                && same_grid(self@, other@)),
    {
        if self.height != other.height || self.width != other.width {
            return false;
        }
        if self.data.len() != other.data.len() {
            return false;
        }
        let mut i: usize = 0;
        while i < self.data.len()
            invariant
                self.data@.len() == other.data@.len(),
                i <= self.data@.len(),
                forall|r: int| 0 <= r < i ==> is_row_comparison(#[trigger] self@[r], other@[r], true),
            decreases self.data@.len() - i,
        {
            if !same_row(&self.data[i], &other.data[i]) {
                assert(is_row_comparison(self@[i as int], other@[i as int], false));
                return false;
            }
            i += 1;
        }
        true
    }
}

impl<T: PartialEq> PartialEq for Matrix<T> {
    /// Exact comparison (see [`Matrix::equals`]).
    fn eq(&self, other: &Self) -> (r: bool) {
        self.equals(other)
    }
}

impl<T: PartialEq> vstd::std_specs::cmp::PartialEqSpecImpl for Matrix<T> {
    open spec fn obeys_eq_spec() -> bool {
        T::obeys_eq_spec()
    }

    open spec fn eq_spec(&self, other: &Self) -> bool {
        &&& self.height == other.height
        &&& self.width == other.width
        &&& same_grid(self@, other@)
    }
}

/// Matrices that are equal have the same shape: the same height, the same
/// width, and as many entries in each row.
pub proof fn lemma_equal_matrices_have_one_shape<T: PartialEq>(a: Matrix<T>, b: Matrix<T>)
    requires
        a.eq_spec(&b),
    ensures
        a.height == b.height,
        a.width == b.width,
        a@.len() == b@.len(),
        forall|i: int| 0 <= i < a@.len() ==> (#[trigger] a@[i]).len() == b@[i].len(),
{
}

} // verus!
