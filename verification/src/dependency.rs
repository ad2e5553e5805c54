//! Rows that are scalar multiples of an earlier row, and their removal.
use crate::matrix::{copy_of, Matrix};
use crate::scalar::{exact, is_equal, is_product, is_quotient, same, total, Scalar};
use vstd::prelude::*;
use vstd::std_specs::ops::{DivSpec, MulSpec};

verus! {

/// The scalar that would carry `fst` to `snd`: the quotient of their first
/// entries.
pub open spec fn ratio<T: Scalar>(fst: Seq<T>, snd: Seq<T>) -> T {
    snd[0].div_spec(fst[0])
}

/// `snd` is linearly dependent on `fst`: `fst` is not empty, `snd` is at least
/// as long, and in every column of `fst` the entry of `snd` equals the entry
/// of `fst` times `ratio(fst, snd)`.
///
/// Equality is the element type's own. With IEEE numbers a first row that
/// starts with zero therefore has no dependent rows: the ratio is infinite or
/// NaN and the products are not equal to anything finite.
pub open spec fn dependent<T: Scalar>(fst: Seq<T>, snd: Seq<T>) -> bool {
    &&& 0 < fst.len() <= snd.len()
    &&& forall|k: int|
        0 <= k < fst.len() ==> same(snd[k], (#[trigger] fst[k]).mul_spec(ratio(fst, snd)))
}

/// Row `i` survives the filter: it depends on no row before it.
pub open spec fn survives<T: Scalar>(rows: Seq<Seq<T>>, i: int) -> bool {
    forall|j: int| 0 <= j < i ==> !dependent(#[trigger] rows[j], rows[i])
}

/// The indices below `n` of the rows that survive, ascending.
pub open spec fn kept_indices<T: Scalar>(rows: Seq<Seq<T>>, n: int) -> Seq<int>
    decreases n,
{
    if n <= 0 {
        Seq::empty()
    } else if survives(rows, n - 1) {
        kept_indices(rows, n - 1).push(n - 1)
    } else {
        kept_indices(rows, n - 1)
    }
}

/// The rows among the first `n` that survive, in their order.
pub open spec fn kept_rows<T: Scalar>(rows: Seq<Seq<T>>, n: int) -> Seq<Seq<T>>
    decreases n,
{
    if n <= 0 {
        Seq::empty()
    } else if survives(rows, n - 1) {
        kept_rows(rows, n - 1).push(rows[n - 1])
    } else {
        kept_rows(rows, n - 1)
    }
}

/// What the filter leaves of `rows`: every row that depends on no earlier row
/// of `rows`, removed or not.
pub open spec fn independent_rows<T: Scalar>(rows: Seq<Seq<T>>) -> Seq<Seq<T>> {
    kept_rows(rows, rows.len() as int)
}

/// The entry `y` was found equal to the entry `x` times `a`.
pub open spec fn entry_matches<T: Scalar>(x: T, y: T, a: T) -> bool {
    exists|p: T| #[trigger] is_product(x, a, p) && is_equal(y, p, true)
}

/// The entry `y` was found unequal to the entry `x` times `a`.
pub open spec fn entry_differs<T: Scalar>(x: T, y: T, a: T) -> bool {
    exists|p: T| #[trigger] is_product(x, a, p) && is_equal(y, p, false)
}

/// `r` is what holding `snd` against `fst` comes to, whatever the element
/// type: `true` where every entry of `snd` was found equal to the entry of
/// `fst` times the quotient of the first entries, `false` where one was found
/// unequal or `fst` is empty or longer than `snd`. For an exact element type
/// it says `r == dependent(fst, snd)`.
pub open spec fn is_dependence<T: Scalar>(fst: Seq<T>, snd: Seq<T>, r: bool) -> bool {
    if fst.len() == 0 || snd.len() < fst.len() {
        !r
    } else {
        exists|a: T|
            {
                &&& #[trigger] is_quotient(snd[0], fst[0], a)
                &&& r ==> forall|k: int|
                    0 <= k < fst.len() ==> entry_matches(#[trigger] fst[k], snd[k], a)
                &&& !r ==> exists|k: int|
                    0 <= k < fst.len() && entry_differs(#[trigger] fst[k], snd[k], a)
            }
    }
}

/// Row `i` was kept because it was found dependent on no row before it
/// (`kept`), or removed because it was found dependent on one.
pub open spec fn is_survival<T: Scalar>(rows: Seq<Seq<T>>, i: int, kept: bool) -> bool {
    if kept {
        forall|j: int| 0 <= j < i ==> is_dependence(#[trigger] rows[j], rows[i], false)
    } else {
        exists|j: int| 0 <= j < i && is_dependence(#[trigger] rows[j], rows[i], true)
    }
}

/// The rows among the first `n` that `keep` marks, in their order.
pub open spec fn selected<T: Scalar>(rows: Seq<Seq<T>>, keep: Seq<bool>, n: int) -> Seq<Seq<T>>
    decreases n,
{
    if n <= 0 {
        Seq::empty()
    } else if keep[n - 1] {
        selected(rows, keep, n - 1).push(rows[n - 1])
    } else {
        selected(rows, keep, n - 1)
    }
}

/// `out` is what the filter leaves of `rows`, whatever the element type: the
/// rows that were found dependent on no earlier row. For an exact element
/// type it says `out == independent_rows(rows)`.
pub open spec fn is_filtered<T: Scalar>(rows: Seq<Seq<T>>, out: Seq<Seq<T>>) -> bool {
    exists|keep: Seq<bool>|
        {
            &&& keep.len() == rows.len()
            &&& forall|i: int| 0 <= i < rows.len() ==> is_survival(rows, i, #[trigger] keep[i])
            &&& out == #[trigger] selected(rows, keep, rows.len() as int)
        }
}

/// With an exact element type what holding one row against another comes to
/// is a function of the rows: it is `dependent(fst, snd)`.
pub proof fn lemma_dependence_is_exact<T: Scalar>(fst: Seq<T>, snd: Seq<T>, r: bool)
    requires
        exact::<T>(),
        is_dependence(fst, snd, r),
    ensures
        r == dependent(fst, snd),
{
    if 0 < fst.len() <= snd.len() {
        let a = choose|a: T|
            {
                &&& #[trigger] is_quotient(snd[0], fst[0], a)
                &&& r ==> forall|k: int|
                    0 <= k < fst.len() ==> entry_matches(#[trigger] fst[k], snd[k], a)
                &&& !r ==> exists|k: int|
                    0 <= k < fst.len() && entry_differs(#[trigger] fst[k], snd[k], a)
            };
        if !r {
            let k = choose|k: int| 0 <= k < fst.len() && entry_differs(#[trigger] fst[k], snd[k], a);
            assert(!same(snd[k], fst[k].mul_spec(ratio(fst, snd))));
        }
    }
}

/// With an exact element type what the filter leaves is a function of the
/// rows: it is `independent_rows(rows)`.
pub proof fn lemma_filter_is_exact<T: Scalar>(rows: Seq<Seq<T>>, out: Seq<Seq<T>>)
    requires
        exact::<T>(),
        is_filtered(rows, out),
    ensures
        out == independent_rows(rows),
{
    let keep = choose|keep: Seq<bool>|
        {
            &&& keep.len() == rows.len()
            &&& forall|i: int| 0 <= i < rows.len() ==> is_survival(rows, i, #[trigger] keep[i])
            &&& out == #[trigger] selected(rows, keep, rows.len() as int)
        };
    lemma_selected_is_kept(rows, keep, rows.len() as int);
}

/// Where the marks say which rows survive, the marked rows are the kept rows.
pub proof fn lemma_selected_is_kept<T: Scalar>(rows: Seq<Seq<T>>, keep: Seq<bool>, n: int)
    requires
        n <= rows.len(),
        forall|i: int| 0 <= i < n ==> #[trigger] keep[i] == survives(rows, i),
    ensures
        selected(rows, keep, n) == kept_rows(rows, n),
    decreases n,
{
    if n > 0 {
        lemma_selected_is_kept(rows, keep, n - 1);
    }
}

/// What `selected` gives for the first `n` rows depends on the first `n`
/// marks only.
pub proof fn lemma_selected_by_prefix<T: Scalar>(
    rows: Seq<Seq<T>>,
    keep: Seq<bool>,
    other: Seq<bool>,
    n: int,
)
    requires
        forall|i: int| 0 <= i < n ==> keep[i] == other[i],
    ensures
        selected(rows, keep, n) == selected(rows, other, n),
    decreases n,
{
    if n > 0 {
        lemma_selected_by_prefix(rows, keep, other, n - 1);
    }
}

/// Whether `snd` is linearly dependent on `fst` (see [`dependent`]). Two empty
/// rows are not dependent.
pub fn is_a_linear_dependent_row<T: Scalar>(fst: &Vec<T>, snd: &Vec<T>) -> (r: bool)
    requires
        total::<T>(),
    ensures
        is_dependence(fst@, snd@, r),
        exact::<T>() ==> r == dependent(fst@, snd@),
{
    if fst.len() == 0 || snd.len() < fst.len() {
        return false;
    }
    let a: T = snd[0] / fst[0];
    let mut k: usize = 0;
    while k < fst.len()
        invariant
            total::<T>(),
            k <= fst@.len(),
            0 < fst@.len() <= snd@.len(),
            is_quotient(snd@[0], fst@[0], a),
            forall|c: int| 0 <= c < k ==> entry_matches(#[trigger] fst@[c], snd@[c], a),
        decreases fst@.len() - k,
    {
        let product: T = fst[k] * a;
        let equal: bool = snd[k] == product;
        assert(is_product(fst@[k as int], a, product));
        if !equal {
            return false;
        }
        k += 1;
    }
    true
}

impl<T: Scalar> Matrix<T> {
    /// A matrix without the rows that are linearly dependent on an earlier
    /// row. Each row is held against all rows before it in `self`, whether
    /// those stay or go; the rows that stay keep their order.
    pub fn remove_linear_dependent_rows(self) -> (r: Matrix<T>)
        requires
            total::<T>(),
            self.wf(),
        ensures
            r.wf(),
            r.width == self.width,
            r.height <= self.height,
            is_filtered(self@, r@),
            exact::<T>() ==> r@ == independent_rows(self@),
    {
        let mut data: Vec<Vec<T>> = Vec::new();
        let ghost mut keep: Seq<bool> = Seq::empty();
        let mut i: usize = 0;
        while i < self.height
            invariant
                total::<T>(),
                self.wf(),
                i <= self.height,
                self.data@.len() == self.height,
                data@.len() <= i,
                keep.len() == i,
                forall|r: int| 0 <= r < i ==> is_survival(self@, r, #[trigger] keep[r]),
                Seq::new(data@.len(), |r: int| data@[r]@) == selected(self@, keep, i as int),
                forall|r: int| 0 <= r < data@.len() ==> (#[trigger] data@[r])@.len() == self.width,
            decreases self.height - i,
        {
            let mut found: bool = false;
            let mut j: usize = 0;
            while j < i
                invariant
                    total::<T>(),
                    self.wf(),
                    j <= i < self.height,
                    self.data@.len() == self.height,
                    found ==> exists|e: int|
                        0 <= e < j && is_dependence(#[trigger] self@[e], self@[i as int], true),
                    !found ==> forall|e: int|
                        0 <= e < j ==> is_dependence(#[trigger] self@[e], self@[i as int], false),
                decreases i - j,
            {
                proof {
                    self.lemma_row(j as int);
                }
                if is_a_linear_dependent_row(&self.data[j], &self.data[i]) {
                    found = true;
                }
                j += 1;
            }
            let ghost before = keep;
            proof {
                keep = keep.push(!found);
                lemma_selected_by_prefix(self@, before, keep, i as int);
            }
            if !found {
                let row = copy_of(&self.data[i]);
                data.push(row);
            }
            i += 1;
        }
        let height = data.len();
        let r = Matrix { height, width: self.width, data };
        proof {
            if exact::<T>() {
                lemma_filter_is_exact(self@, r@);
            }
        }
        r
    }
}

/// A multiple of a row depends on the row: where every entry of `snd` is the
/// entry of `fst` times `factor`, the quotient of the first entries gives
/// `factor` back, and every entry of `snd` equals itself.
///
/// The last two conditions are what arithmetic may withhold: the quotient
/// does not give the factor back where the first entry of `fst` is zero, and
/// a NaN does not equal itself.
pub proof fn lemma_multiple_is_dependent<T: Scalar>(fst: Seq<T>, snd: Seq<T>, factor: T)
    requires
        0 < fst.len() <= snd.len(),
        forall|k: int| 0 <= k < fst.len() ==> snd[k] == (#[trigger] fst[k]).mul_spec(factor),
        ratio(fst, snd) == factor,
        forall|k: int| 0 <= k < fst.len() ==> same(#[trigger] snd[k], snd[k]),
    ensures
        dependent(fst, snd),
{
}

/// The kept rows are the rows at the kept indices, which ascend, lie below
/// `n`, and each survive.
pub proof fn lemma_kept_rows_by_index<T: Scalar>(rows: Seq<Seq<T>>, n: int)
    requires
        n <= rows.len(),
    ensures
        kept_rows(rows, n).len() == kept_indices(rows, n).len(),
        kept_rows(rows, n).len() <= (if n < 0 { 0 } else { n }),
        forall|k: int|
            0 <= k < kept_rows(rows, n).len() ==> {
                let i = #[trigger] kept_indices(rows, n)[k];
                &&& 0 <= i < n
                &&& survives(rows, i)
                &&& kept_rows(rows, n)[k] == rows[i]
            },
        forall|l: int, k: int|
            0 <= l < k < kept_rows(rows, n).len() ==> #[trigger] kept_indices(rows, n)[l]
                < #[trigger] kept_indices(rows, n)[k],
    decreases n,
{
    if n > 0 {
        lemma_kept_rows_by_index(rows, n - 1);
    }
}

/// Where every one of the first `n` rows survives, the filter keeps them all.
pub proof fn lemma_survivors_are_kept<T: Scalar>(rows: Seq<Seq<T>>, n: int)
    requires
        0 <= n <= rows.len(),
        forall|k: int| 0 <= k < n ==> survives(rows, k),
    ensures
        kept_rows(rows, n) == rows.take(n),
    decreases n,
{
    if n > 0 {
        lemma_survivors_are_kept(rows, n - 1);
    }
}

/// The filter is idempotent: what it leaves of `rows`, it leaves unchanged.
pub proof fn lemma_filter_idempotent<T: Scalar>(rows: Seq<Seq<T>>)
    ensures
        independent_rows(independent_rows(rows)) == independent_rows(rows),
{
    let kept = independent_rows(rows);
    let idx = kept_indices(rows, rows.len() as int);
    lemma_kept_rows_by_index(rows, rows.len() as int);
    assert forall|k: int| 0 <= k < kept.len() implies survives(kept, k) by {
        assert forall|l: int| 0 <= l < k implies !dependent(#[trigger] kept[l], kept[k]) by {
            assert(kept[l] == rows[idx[l]]);
            assert(kept[k] == rows[idx[k]]);
        }
    }
    lemma_survivors_are_kept(kept, kept.len() as int);
}

} // verus!
