//! Gauss-Jordan elimination without pivoting: solving a linear system and
//! inverting a matrix.
//!
//! Both run the same row operations on a *tableau*: the coefficient rows,
//! together with an augmenting block of rows and a right-hand side that undergo
//! every operation in step. Solving carries a right-hand side and no augmenting
//! block; inverting carries the identity as augmenting block and no right-hand
//! side.
//!
//! No pivot is searched for and no singular matrix is detected: where a
//! diagonal entry is zero, the quotients are whatever the element type's
//! division yields for it (for IEEE numbers, infinities or NaN).
use crate::dependency::{independent_rows, is_filtered};
use crate::error::MatrixError;
use crate::matrix::{is_identity, rectangular, row_scaled, row_sum, scaled_row, Matrix};
use crate::scalar::{
    exact, is_difference, is_equal, is_image, is_negation, is_product, is_quotient, is_sum,
    negative_zero, one, one_value, same, total, zero, zero_value, Scalar,
};
use core::ops::Neg;
use vstd::prelude::*;
use vstd::std_specs::ops::{AddSpec, DivSpec, MulSpec, NegSpec, SubSpec};

verus! {

/// The state of an elimination: coefficient rows, augmenting rows, right-hand
/// side.
pub struct Tableau<T> {
    pub rows: Seq<Seq<T>>,
    pub aug: Seq<Seq<T>>,
    pub rhs: Seq<T>,
}

/// The tableau that three values hold.
spec fn tableau_of<T: Scalar>(m: Matrix<T>, aug: Matrix<T>, v: Vec<T>) -> Tableau<T> {
    Tableau { rows: m@, aug: aug@, rhs: v@ }
}

/// A tableau for `n` unknowns: `n` by `n` coefficients, an augmenting block
/// and a right-hand side that each are absent (empty) or have `n` rows.
spec fn fits<T: Scalar>(m: Matrix<T>, aug: Matrix<T>, v: Vec<T>, n: nat) -> bool {
    &&& m.wf()
    &&& m.height == n
    &&& m.width == n
    &&& aug.wf()
    &&& (aug.height == 0 || aug.height == n)
    &&& (v@.len() == 0 || v@.len() == n)
}

/// The quotient by which pivot row `i` is taken off row `j`.
pub open spec fn factor<T: Scalar>(rows: Seq<Seq<T>>, i: int, j: int) -> T {
    rows[j][i].div_spec(rows[i][i])
}

/// One row operation: with `alpha = factor(rows, i, j)`, row `j` becomes
/// `row_j + row_i * (-alpha)`, in the coefficients and in the augmenting
/// block, and the right-hand side's entry `j` becomes `b_j - alpha * b_i`.
pub open spec fn eliminate<T: Scalar>(t: Tableau<T>, i: int, j: int) -> Tableau<T> {
    let alpha = factor(t.rows, i, j);
    Tableau {
        rows: t.rows.update(j, row_sum(t.rows[j], row_scaled(t.rows[i], alpha.neg_spec()))),
        aug: if j < t.aug.len() {
            t.aug.update(j, row_sum(t.aug[j], row_scaled(t.aug[i], alpha.neg_spec())))
        } else {
            t.aug
        },
        rhs: if j < t.rhs.len() {
            t.rhs.update(j, t.rhs[j].sub_spec(alpha.mul_spec(t.rhs[i])))
        } else {
            t.rhs
        },
    }
}

/// Pivot row `i` taken off the rows `i + 1 .. j`, in ascending order.
pub open spec fn swept_down<T: Scalar>(t: Tableau<T>, i: int, j: int) -> Tableau<T>
    decreases j - i,
{
    if j <= i + 1 {
        t
    } else {
        eliminate(swept_down(t, i, j - 1), i, j - 1)
    }
}

/// Pivot row `i` taken off the rows `0 .. j`, in ascending order.
pub open spec fn swept_up<T: Scalar>(t: Tableau<T>, i: int, j: int) -> Tableau<T>
    decreases j,
{
    if j <= 0 {
        t
    } else {
        eliminate(swept_up(t, i, j - 1), i, j - 1)
    }
}

/// The forward pass as far as the pivots `0 .. i`: each pivot row in turn is
/// taken off all rows below it.
pub open spec fn forward<T: Scalar>(t: Tableau<T>, n: int, i: int) -> Tableau<T>
    decreases i,
{
    if i <= 0 {
        t
    } else {
        swept_down(forward(t, n, i - 1), i - 1, n)
    }
}

/// The backward pass as far as the pivots `n - 1` down to `i`: each pivot row
/// in turn is taken off all rows above it.
pub open spec fn backward<T: Scalar>(t: Tableau<T>, n: int, i: int) -> Tableau<T>
    decreases n - i,
{
    if i >= n {
        t
    } else {
        swept_up(backward(t, n, i + 1), i, i)
    }
}

/// Both passes: the tableau with its coefficients brought to diagonal form.
pub open spec fn reduced<T: Scalar>(t: Tableau<T>, n: int) -> Tableau<T> {
    backward(forward(t, n, n), n, 0)
}

/// The entry `y` is the entry `x` with the pivot row's entry `p` times `f`
/// added.
pub open spec fn entry_stepped<T: Scalar>(x: T, p: T, f: T, y: T) -> bool {
    exists|q: T| #[trigger] is_product(p, f, q) && is_sum(x, q, y)
}

/// `out` is `row` with `pivot` times `f` added, entry by entry.
pub open spec fn is_row_step<T: Scalar>(row: Seq<T>, pivot: Seq<T>, f: T, out: Seq<T>) -> bool {
    &&& out.len() == row.len()
    &&& forall|k: int|
        0 <= k < row.len() ==> entry_stepped(row[k], pivot[k], f, #[trigger] out[k])
}

/// `out` is `block` with its row `i` times `f` added to its row `j`; it is
/// `block` itself where `j` is no row of it.
pub open spec fn is_block_step<T: Scalar>(
    block: Seq<Seq<T>>,
    i: int,
    j: int,
    f: T,
    out: Seq<Seq<T>>,
) -> bool {
    if 0 <= j < block.len() {
        &&& out.len() == block.len()
        &&& forall|r: int| 0 <= r < block.len() && r != j ==> #[trigger] out[r] == block[r]
        &&& is_row_step(block[j], block[i], f, out[j])
    } else {
        out == block
    }
}

/// `out` is `rhs` with `alpha` times its entry `i` taken off its entry `j`;
/// it is `rhs` itself where `j` is no index of it.
pub open spec fn is_rhs_step<T: Scalar>(rhs: Seq<T>, i: int, j: int, alpha: T, out: Seq<T>) -> bool {
    if 0 <= j < rhs.len() {
        &&& out.len() == rhs.len()
        &&& forall|r: int| 0 <= r < rhs.len() && r != j ==> #[trigger] out[r] == rhs[r]
        &&& exists|q: T| #[trigger] is_product(alpha, rhs[i], q) && is_difference(rhs[j], q, out[j])
    } else {
        out == rhs
    }
}

/// `u` is what one row operation makes of `t`, whatever the element type:
/// one quotient `alpha` is taken, negated once, and used for the coefficients,
/// the augmenting block and the right-hand side alike. For an exact element
/// type it says `u == eliminate(t, i, j)`.
pub open spec fn is_step<T: Scalar>(t: Tableau<T>, i: int, j: int, u: Tableau<T>) -> bool {
    exists|alpha: T, minus: T|
        {
            &&& is_quotient(t.rows[j][i], t.rows[i][i], alpha)
            &&& #[trigger] is_negation(alpha, minus)
            &&& is_block_step(t.rows, i, j, minus, u.rows)
            &&& is_block_step(t.aug, i, j, minus, u.aug)
            &&& is_rhs_step(t.rhs, i, j, alpha, u.rhs)
        }
}

/// `u` is what taking pivot row `i` off the rows `i + 1 .. j` makes of `t`.
pub open spec fn is_swept_down<T: Scalar>(t: Tableau<T>, i: int, j: int, u: Tableau<T>) -> bool
    decreases j - i,
{
    if j <= i + 1 {
        u == t
    } else {
        exists|m: Tableau<T>| is_swept_down(t, i, j - 1, m) && #[trigger] is_step(m, i, j - 1, u)
    }
}

/// `u` is what taking pivot row `i` off the rows `0 .. j` makes of `t`.
pub open spec fn is_swept_up<T: Scalar>(t: Tableau<T>, i: int, j: int, u: Tableau<T>) -> bool
    decreases j,
{
    if j <= 0 {
        u == t
    } else {
        exists|m: Tableau<T>| is_swept_up(t, i, j - 1, m) && #[trigger] is_step(m, i, j - 1, u)
    }
}

/// `u` is what the forward pass as far as the pivots `0 .. i` makes of `t`.
pub open spec fn is_forward<T: Scalar>(t: Tableau<T>, n: int, i: int, u: Tableau<T>) -> bool
    decreases i,
{
    if i <= 0 {
        u == t
    } else {
        exists|m: Tableau<T>| is_forward(t, n, i - 1, m) && #[trigger] is_swept_down(m, i - 1, n, u)
    }
}

/// `u` is what the backward pass as far as the pivots `n - 1` down to `i`
/// makes of `t`.
pub open spec fn is_backward<T: Scalar>(t: Tableau<T>, n: int, i: int, u: Tableau<T>) -> bool
    decreases n - i,
{
    if i >= n {
        u == t
    } else {
        exists|m: Tableau<T>| is_backward(t, n, i + 1, m) && #[trigger] is_swept_up(m, i, i, u)
    }
}

/// `u` is what both passes make of `t`, whatever the element type. For an
/// exact element type it says `u == reduced(t, n)`.
pub open spec fn is_reduced<T: Scalar>(t: Tableau<T>, n: int, u: Tableau<T>) -> bool {
    exists|m: Tableau<T>| #[trigger] is_forward(t, n, n, m) && is_backward(m, n, 0, u)
}

/// Takes pivot row `i` off row `j` (see [`eliminate`]).
fn eliminate_row<T: Scalar>(
    i: usize,
    j: usize,
    m: &mut Matrix<T>,
    aug: &mut Matrix<T>,
    v: &mut Vec<T>,
)
    requires
        total::<T>(),
        fits(*old(m), *old(aug), *old(v), old(m).height as nat),
        i < old(m).height,
        j < old(m).height,
    ensures
        fits(*final(m), *final(aug), *final(v), old(m).height as nat),
        final(aug).height == old(aug).height,
        final(aug).width == old(aug).width,
        final(v)@.len() == old(v)@.len(),
        is_step(
            tableau_of(*old(m), *old(aug), *old(v)),
            i as int,
            j as int,
            tableau_of(*final(m), *final(aug), *final(v)),
        ),
{
    proof {
        m.lemma_row(i as int);
        m.lemma_row(j as int);
    }
    let alpha: T = m.data[j][i] / m.data[i][i];
    let minus_alpha: T = alpha.neg();
    if j < v.len() {
        let term: T = alpha * v[i];
        let b: T = v[j] - term;
        v[j] = b;
        assert(is_product(alpha, old(v)@[i as int], term));
    }
    let row = scaled_row(&m.data[i], minus_alpha);
    let _ = m.add_to_row(j, row);
    if j < aug.height {
        let aug_row = scaled_row(&aug.data[i], minus_alpha);
        let _ = aug.add_to_row(j, aug_row);
    }
    assert(is_negation(alpha, minus_alpha));
}

/// Takes pivot row `i` off every row below it, top to bottom.
fn calculate_sub_matrix_down<T: Scalar>(
    i: usize,
    m: &mut Matrix<T>,
    aug: &mut Matrix<T>,
    v: &mut Vec<T>,
)
    requires
        total::<T>(),
        fits(*old(m), *old(aug), *old(v), old(m).height as nat),
        i < old(m).height,
    ensures
        fits(*final(m), *final(aug), *final(v), old(m).height as nat),
        final(aug).height == old(aug).height,
        final(aug).width == old(aug).width,
        final(v)@.len() == old(v)@.len(),
        is_swept_down(
            tableau_of(*old(m), *old(aug), *old(v)),
            i as int,
            old(m).height as int,
            tableau_of(*final(m), *final(aug), *final(v)),
        ),
{
    let n: usize = m.height;
    let mut j: usize = i + 1;
    while j < n
        invariant
            total::<T>(),
            i < n,
            i + 1 <= j <= n,
            n == old(m).height,
            fits(*m, *aug, *v, n as nat),
            aug.height == old(aug).height,
            aug.width == old(aug).width,
            v@.len() == old(v)@.len(),
            is_swept_down(
                tableau_of(*old(m), *old(aug), *old(v)),
                i as int,
                j as int,
                tableau_of(*m, *aug, *v),
            ),
        decreases n - j,
    {
        let ghost before = tableau_of(*m, *aug, *v);
        eliminate_row(i, j, m, aug, v);
        assert(is_step(before, i as int, j + 1 - 1, tableau_of(*m, *aug, *v)));
        j += 1;
    }
}

/// Takes pivot row `i` off every row above it, top to bottom.
fn calculate_submatrix_up<T: Scalar>(
    i: usize,
    m: &mut Matrix<T>,
    aug: &mut Matrix<T>,
    v: &mut Vec<T>,
)
    requires
        total::<T>(),
        fits(*old(m), *old(aug), *old(v), old(m).height as nat),
        i < old(m).height,
    ensures
        fits(*final(m), *final(aug), *final(v), old(m).height as nat),
        final(aug).height == old(aug).height,
        final(aug).width == old(aug).width,
        final(v)@.len() == old(v)@.len(),
        is_swept_up(
            tableau_of(*old(m), *old(aug), *old(v)),
            i as int,
            i as int,
            tableau_of(*final(m), *final(aug), *final(v)),
        ),
{
    let n: usize = m.height;
    let mut j: usize = 0;
    while j < i
        invariant
            total::<T>(),
            i < n,
            j <= i,
            n == old(m).height,
            fits(*m, *aug, *v, n as nat),
            aug.height == old(aug).height,
            aug.width == old(aug).width,
            v@.len() == old(v)@.len(),
            is_swept_up(
                tableau_of(*old(m), *old(aug), *old(v)),
                i as int,
                j as int,
                tableau_of(*m, *aug, *v),
            ),
        decreases i - j,
    {
        let ghost before = tableau_of(*m, *aug, *v);
        eliminate_row(i, j, m, aug, v);
        assert(is_step(before, i as int, j + 1 - 1, tableau_of(*m, *aug, *v)));
        j += 1;
    }
}

/// Runs the forward pass, then the backward pass (see [`reduced`]).
fn reduce<T: Scalar>(m: &mut Matrix<T>, aug: &mut Matrix<T>, v: &mut Vec<T>)
    requires
        total::<T>(),
        fits(*old(m), *old(aug), *old(v), old(m).height as nat),
    ensures
        fits(*final(m), *final(aug), *final(v), old(m).height as nat),
        final(aug).height == old(aug).height,
        final(aug).width == old(aug).width,
        final(v)@.len() == old(v)@.len(),
        is_reduced(
            tableau_of(*old(m), *old(aug), *old(v)),
            old(m).height as int,
            tableau_of(*final(m), *final(aug), *final(v)),
        ),
{
    let n: usize = m.height;
    let ghost start = tableau_of(*old(m), *old(aug), *old(v));
    let mut i: usize = 0;
    while i < n
        invariant
            total::<T>(),
            i <= n,
            n == old(m).height,
            fits(*m, *aug, *v, n as nat),
            aug.height == old(aug).height,
            aug.width == old(aug).width,
            v@.len() == old(v)@.len(),
            is_forward(start, n as int, i as int, tableau_of(*m, *aug, *v)),
        decreases n - i,
    {
        let ghost before = tableau_of(*m, *aug, *v);
        calculate_sub_matrix_down(i, m, aug, v);
        assert(is_swept_down(before, i + 1 - 1, n as int, tableau_of(*m, *aug, *v)));
        i += 1;
    }
    let ghost middle = tableau_of(*m, *aug, *v);
    let mut i: usize = n;
    while i > 0
        invariant
            total::<T>(),
            i <= n,
            n == old(m).height,
            fits(*m, *aug, *v, n as nat),
            aug.height == old(aug).height,
            aug.width == old(aug).width,
            v@.len() == old(v)@.len(),
            is_forward(start, n as int, n as int, middle),
            is_backward(middle, n as int, i as int, tableau_of(*m, *aug, *v)),
        decreases i,
    {
        i -= 1;
        calculate_submatrix_up(i, m, aug, v);
    }
}

/// The factor that brings a pivot to one: `1 / pivot`.
pub open spec fn reciprocal<T: Scalar>(pivot: T) -> T {
    one::<T>().div_spec(pivot)
}

/// An entry after normalization with the factor `a`: an entry equal to zero
/// stays as it is, one equal to the negated zero becomes zero, any other is
/// multiplied by `a`.
pub open spec fn normalized_entry<T: Scalar>(x: T, a: T) -> T {
    if same(x, zero::<T>()) {
        x
    } else if same(x, negative_zero::<T>()) {
        zero::<T>()
    } else {
        x.mul_spec(a)
    }
}

/// A row with every entry normalized with the factor `a`.
pub open spec fn normalized_row<T: Scalar>(row: Seq<T>, a: T) -> Seq<T> {
    Seq::new(row.len(), |k: int| normalized_entry(row[k], a))
}

/// A block of rows, row `i` normalized with the reciprocal of the diagonal
/// entry `pivots[i][i]`.
pub open spec fn normalized_rows<T: Scalar>(block: Seq<Seq<T>>, pivots: Seq<Seq<T>>) -> Seq<
    Seq<T>,
> {
    Seq::new(block.len(), |i: int| normalized_row(block[i], reciprocal(pivots[i][i])))
}

/// A right-hand side, entry `i` multiplied by the reciprocal of the diagonal
/// entry `pivots[i][i]`, whatever the entry is.
pub open spec fn normalized_rhs<T: Scalar>(rhs: Seq<T>, pivots: Seq<Seq<T>>) -> Seq<T> {
    Seq::new(rhs.len(), |i: int| rhs[i].mul_spec(reciprocal(pivots[i][i])))
}

/// The identity of size `n`: one on the diagonal, zero elsewhere.
pub open spec fn identity_rows<T: Scalar>(n: nat) -> Seq<Seq<T>> {
    Seq::new(n, |i: int| Seq::new(n, |j: int| if i == j { one::<T>() } else { zero::<T>() }))
}

/// What solving the square system `rows * x = rhs` returns: the coefficients
/// after both passes and normalization (the identity, where the arithmetic is
/// exact and no pivot vanishes), and the right-hand side after the same.
pub open spec fn solved<T: Scalar>(rows: Seq<Seq<T>>, rhs: Seq<T>) -> (Seq<Seq<T>>, Seq<T>) {
    let t = reduced(Tableau { rows, aug: Seq::empty(), rhs }, rows.len() as int);
    (normalized_rows(t.rows, t.rows), normalized_rhs(t.rhs, t.rows))
}

/// What inverting the square matrix `rows` returns: the identity after it has
/// undergone both passes beside `rows`, each row normalized with the pivot
/// that `rows` has ended with.
pub open spec fn inverted<T: Scalar>(rows: Seq<Seq<T>>) -> Seq<Seq<T>> {
    let t = reduced(
        Tableau { rows, aug: identity_rows(rows.len()), rhs: Seq::empty() },
        rows.len() as int,
    );
    normalized_rows(t.aug, t.rows)
}

/// `y` is what normalization with the factor `a` makes of an entry `x` that
/// was found unequal to zero, where `z` stands for zero and `minus_z` for its
/// negation: `z` where `x` was found equal to `minus_z`, else `x` times `a`.
pub open spec fn is_normalized_nonzero<T: Scalar>(x: T, a: T, z: T, minus_z: T, y: T) -> bool {
    exists|f: bool|
        {
            &&& #[trigger] is_equal(x, minus_z, f)
            &&& f ==> y == z
            &&& !f ==> is_product(x, a, y)
        }
}

/// `y` is what normalization with the factor `a` makes of the entry `x`,
/// where `z` stands for zero and `minus_z` for its negation: `x` itself where
/// it was found equal to `z`, else what [`is_normalized_nonzero`] says.
pub open spec fn is_normalized_entry<T: Scalar>(x: T, a: T, z: T, minus_z: T, y: T) -> bool {
    exists|e: bool|
        {
            &&& #[trigger] is_equal(x, z, e)
            &&& e ==> y == x
            &&& !e ==> is_normalized_nonzero(x, a, z, minus_z, y)
        }
}

/// `out` is what normalization with the factor `a` makes of `row`, whatever
/// the element type. For an exact element type it says
/// `out == normalized_row(row, a)`.
pub open spec fn is_normalized_row<T: Scalar>(row: Seq<T>, a: T, out: Seq<T>) -> bool {
    &&& out.len() == row.len()
    &&& exists|z: T, minus_z: T|
        {
            &&& is_image(0u8, z)
            &&& #[trigger] is_negation(z, minus_z)
            &&& forall|k: int|
                0 <= k < row.len() ==> is_normalized_entry(row[k], a, z, minus_z, #[trigger] out[k])
        }
}

/// `a` is what `1 / pivot` evaluates to.
pub open spec fn is_reciprocal<T: Scalar>(pivot: T, a: T) -> bool {
    exists|u: T| #[trigger] is_image(1u8, u) && is_quotient(u, pivot, a)
}

/// `out` is `row` normalized with the reciprocal of `pivot`.
pub open spec fn is_row_by_pivot<T: Scalar>(row: Seq<T>, pivot: T, out: Seq<T>) -> bool {
    exists|a: T| #[trigger] is_reciprocal(pivot, a) && is_normalized_row(row, a, out)
}

/// `out` is `row` normalized with the reciprocal of `pivot`, and `y` is `x`
/// times the same reciprocal.
pub open spec fn is_pair_by_pivot<T: Scalar>(row: Seq<T>, x: T, pivot: T, out: Seq<T>, y: T) -> bool {
    exists|a: T|
        {
            &&& #[trigger] is_reciprocal(pivot, a)
            &&& is_normalized_row(row, a, out)
            &&& is_product(x, a, y)
        }
}

/// `out` is `block` with every row normalized by the diagonal entry of
/// `pivots` in that row, whatever the element type. For an exact element type
/// it says `out == normalized_rows(block, pivots)`.
pub open spec fn is_normalized_block<T: Scalar>(
    block: Seq<Seq<T>>,
    pivots: Seq<Seq<T>>,
    out: Seq<Seq<T>>,
) -> bool {
    &&& out.len() == block.len()
    &&& forall|i: int|
        0 <= i < block.len() ==> is_row_by_pivot(block[i], pivots[i][i], #[trigger] out[i])
}

/// `out_rows` and `out_rhs` are `rows` and `rhs` with every row, and the
/// entry of the right-hand side beside it, normalized by the row's own
/// diagonal entry, whatever the element type.
pub open spec fn is_normalized_system<T: Scalar>(
    rows: Seq<Seq<T>>,
    rhs: Seq<T>,
    out_rows: Seq<Seq<T>>,
    out_rhs: Seq<T>,
) -> bool {
    &&& out_rows.len() == rows.len()
    &&& out_rhs.len() == rhs.len()
    &&& forall|i: int|
        0 <= i < rows.len() ==> is_pair_by_pivot(
            rows[i],
            rhs[i],
            rows[i][i],
            #[trigger] out_rows[i],
            out_rhs[i],
        )
}

/// `out_rows` and `x` are what solving the square system `rows * x = rhs`
/// returns, whatever the element type: the tableau of `rows` and `rhs` after
/// both passes, normalized. For an exact element type it says
/// `(out_rows, x) == solved(rows, rhs)`.
pub open spec fn is_solved<T: Scalar>(
    rows: Seq<Seq<T>>,
    rhs: Seq<T>,
    out_rows: Seq<Seq<T>>,
    x: Seq<T>,
) -> bool {
    exists|t: Tableau<T>|
        {
            &&& #[trigger] is_reduced(
                Tableau { rows, aug: Seq::empty(), rhs },
                rows.len() as int,
                t,
            )
            &&& is_normalized_system(t.rows, t.rhs, out_rows, x)
        }
}

/// `out` is what inverting the square matrix `rows` returns, whatever the
/// element type: an identity after it has undergone both passes beside
/// `rows`, normalized by the pivots that `rows` has ended with. For an exact
/// element type it says `out == inverted(rows)`.
pub open spec fn is_inverted<T: Scalar>(rows: Seq<Seq<T>>, out: Seq<Seq<T>>) -> bool {
    exists|unit: Seq<Seq<T>>, t: Tableau<T>|
        {
            &&& is_identity(unit, rows.len())
            &&& #[trigger] is_reduced(
                Tableau { rows, aug: unit, rhs: Seq::empty() },
                rows.len() as int,
                t,
            )
            &&& is_normalized_block(t.aug, t.rows, out)
        }
}

/// The row with every entry normalized with the factor `a`.
pub fn normalized_copy<T: Scalar>(row: &Vec<T>, a: T) -> (r: Vec<T>)
    requires
        total::<T>(),
    ensures
        r@.len() == row@.len(),
        is_normalized_row(row@, a, r@),
        exact::<T>() ==> r@ == normalized_row(row@, a),
{
    let z: T = zero_value();
    let minus_z: T = z.neg();
    let mut r: Vec<T> = Vec::new();
    let mut k: usize = 0;
    while k < row.len()
        invariant
            total::<T>(),
            is_image(0u8, z),
            is_negation(z, minus_z),
            forall|c: int|
                0 <= c < k ==> is_normalized_entry(row@[c], a, z, minus_z, #[trigger] r@[c]),
            k <= row@.len(),
            r@.len() == k,
        decreases row@.len() - k,
    {
        let x: T = row[k];
        let is_zero: bool = x == z;
        if is_zero {
            r.push(x);
            assert(is_equal(x, z, true));
        } else {
            let is_minus_zero: bool = x == minus_z;
            if is_minus_zero {
                r.push(z);
            } else {
                r.push(x * a);
            }
            assert(is_equal(x, minus_z, is_minus_zero));
            assert(is_equal(x, z, false));
        }
        k += 1;
    }
    r
}

/// Normalizes every row of `block` with the reciprocal of the diagonal entry
/// of `pivots` in that row.
fn normalize_block<T: Scalar>(block: &mut Matrix<T>, pivots: &Matrix<T>)
    requires
        total::<T>(),
        old(block).wf(),
        pivots.wf(),
        pivots.height == pivots.width,
        old(block).height == pivots.height,
    ensures
        final(block).wf(),
        final(block).height == old(block).height,
        final(block).width == old(block).width,
        is_normalized_block(old(block)@, pivots@, final(block)@),
{
    let n: usize = block.height;
    let unit: T = one_value();
    let mut i: usize = 0;
    while i < n
        invariant
            total::<T>(),
            i <= n,
            pivots.wf(),
            pivots.height == n,
            pivots.width == n,
            block.wf(),
            block.height == n,
            block.width == old(block).width,
            is_image(1u8, unit),
            forall|r: int|
                0 <= r < i ==> is_row_by_pivot(
                    old(block)@[r],
                    pivots@[r][r],
                    #[trigger] block@[r],
                ),
            forall|r: int| i <= r < n ==> #[trigger] block@[r] == old(block)@[r],
        decreases n - i,
    {
        proof {
            pivots.lemma_row(i as int);
            block.lemma_row(i as int);
        }
        let a: T = unit / pivots.data[i][i];
        let row = normalized_copy(&block.data[i], a);
        let ghost before = *block;
        block.data[i] = row;
        assert(block@ =~= before@.update(i as int, row@));
        assert(is_reciprocal(pivots@[i as int][i as int], a));
        i += 1;
    }
}

/// The last step of solving: normalizes every row of `m` with the reciprocal
/// of its own diagonal entry, and multiplies the entry of `v` in that row by
/// the same factor.
fn normalize<T: Scalar>(v: &mut Vec<T>, m: &mut Matrix<T>)
    requires
        total::<T>(),
        old(m).wf(),
        old(m).height == old(m).width,
        old(v)@.len() == old(m).height,
    ensures
        final(m).wf(),
        final(m).height == old(m).height,
        final(m).width == old(m).width,
        final(v)@.len() == old(v)@.len(),
        is_normalized_system(old(m)@, old(v)@, final(m)@, final(v)@),
{
    let n: usize = m.height;
    let unit: T = one_value();
    let mut i: usize = 0;
    while i < n
        invariant
            total::<T>(),
            i <= n,
            m.wf(),
            m.height == n,
            m.width == n,
            old(m).wf(),
            old(m).height == n,
            old(m).width == n,
            v@.len() == n,
            old(v)@.len() == n,
            is_image(1u8, unit),
            forall|r: int|
                0 <= r < i ==> is_pair_by_pivot(
                    old(m)@[r],
                    old(v)@[r],
                    old(m)@[r][r],
                    #[trigger] m@[r],
                    v@[r],
                ),
            forall|r: int| i <= r < n ==> #[trigger] m@[r] == old(m)@[r],
            forall|r: int| i <= r < n ==> #[trigger] v@[r] == old(v)@[r],
        decreases n - i,
    {
        proof {
            m.lemma_row(i as int);
        }
        let a: T = unit / m.data[i][i];
        let row = normalized_copy(&m.data[i], a);
        let ghost before = *m;
        m.data[i] = row;
        assert(m@ =~= before@.update(i as int, row@));
        let b: T = v[i] * a;
        v[i] = b;
        assert(is_reciprocal(old(m)@[i as int][i as int], a));
        i += 1;
    }
}

/// Solves the linear system `m * x = v` by Gauss-Jordan elimination.
///
/// Rows of `m` that are linearly dependent on an earlier row are removed
/// first. What is left must have as many rows as `v` has entries, else the
/// call is refused with `DimensionMismatch`; and must be square, else with
/// `NotSquare`. On success the reduced coefficients and the solution are
/// returned (see [`solved`]).
pub fn solve<T: Scalar>(m: Matrix<T>, v: Vec<T>) -> (r: Result<(Matrix<T>, Vec<T>), MatrixError>)
    requires
        total::<T>(),
        m.wf(),
    ensures
        match r {
            Ok((reduced_m, x)) => {
                &&& reduced_m.wf()
                &&& reduced_m.height == m.width
                &&& reduced_m.width == m.width
                &&& x@.len() == v@.len()
                &&& v@.len() == m.width
            },
            Err(e) => e == MatrixError::DimensionMismatch || e == MatrixError::NotSquare,
        },
        exists|rows: Seq<Seq<T>>|
            {
                &&& #[trigger] is_filtered(m@, rows)
                &&& match r {
                    Ok((reduced_m, x)) => {
                        &&& v@.len() == rows.len()
                        &&& rows.len() == m.width
                        &&& is_solved(rows, v@, reduced_m@, x@)
                    },
                    Err(e) => if v@.len() != rows.len() {
                        e == MatrixError::DimensionMismatch
                    } else {
                        e == MatrixError::NotSquare && rows.len() != m.width
                    },
                }
            },
        exact::<T>() ==> match r {
            Ok((reduced_m, x)) => {
                let rows = independent_rows(m@);
                &&& v@.len() == rows.len()
                &&& rows.len() == m.width
                &&& reduced_m@ == solved(rows, v@).0
                &&& x@ == solved(rows, v@).1
            },
            Err(e) => {
                let rows = independent_rows(m@);
                if v@.len() != rows.len() {
                    e == MatrixError::DimensionMismatch
                } else {
                    e == MatrixError::NotSquare && rows.len() != m.width
                }
            },
        },
{
    let mut m = m.remove_linear_dependent_rows();
    let mut v = v;
    if v.len() != m.height {
        return Err(MatrixError::DimensionMismatch);
    }
    if m.width != m.height {
        return Err(MatrixError::NotSquare);
    }
    let ghost rows = m@;
    let ghost rhs = v@;
    let mut aug: Matrix<T> = Matrix { height: 0, width: 0, data: Vec::new() };
    assert(aug@ =~= Seq::<Seq<T>>::empty());
    reduce(&mut m, &mut aug, &mut v);
    normalize(&mut v, &mut m);
    proof {
        if exact::<T>() {
            lemma_solved_is_exact(rows, rhs, m@, v@);
        }
    }
    Ok((m, v))
}

/// Computes the inverse of `m` by Gauss-Jordan elimination beside the
/// identity.
///
/// Rows of `m` that are linearly dependent on an earlier row are removed
/// first. What is left must be square, else the call is refused with
/// `NotSquare`. On success the augmenting block is returned (see
/// [`inverted`]).
pub fn inverse<T: Scalar>(m: Matrix<T>) -> (r: Result<Matrix<T>, MatrixError>)
    requires
        total::<T>(),
        m.wf(),
    ensures
        match r {
            Ok(inv) => inv.wf() && inv.height == m.width && inv.width == m.width,
            Err(e) => e == MatrixError::NotSquare,
        },
        exists|rows: Seq<Seq<T>>|
            {
                &&& #[trigger] is_filtered(m@, rows)
                &&& match r {
                    Ok(inv) => rows.len() == m.width && is_inverted(rows, inv@),
                    Err(e) => rows.len() != m.width,
                }
            },
        exact::<T>() ==> match r {
            Ok(inv) => {
                let rows = independent_rows(m@);
                &&& rows.len() == m.width
                &&& inv@ == inverted(rows)
            },
            Err(e) => independent_rows(m@).len() != m.width,
        },
{
    let mut m = m.remove_linear_dependent_rows();
    if m.width != m.height {
        return Err(MatrixError::NotSquare);
    }
    let ghost rows = m@;
    let mut aug: Matrix<T> = Matrix::identity(m.height);
    let mut v: Vec<T> = Vec::new();
    reduce(&mut m, &mut aug, &mut v);
    normalize_block(&mut aug, &m);
    proof {
        if exact::<T>() {
            lemma_inverted_is_exact(rows, aug@);
        }
    }
    Ok(aug)
}

/// A tableau for `n` unknowns: `n` by `n` coefficients, augmenting rows of
/// one length and a right-hand side that each are absent or `n` long.
pub open spec fn shaped<T: Scalar>(t: Tableau<T>, n: nat) -> bool {
    &&& rectangular(t.rows, n, n)
    &&& (t.aug.len() == 0 || t.aug.len() == n)
    &&& forall|r: int| 0 <= r < t.aug.len() ==> (#[trigger] t.aug[r]).len() == t.aug[0].len()
    &&& (t.rhs.len() == 0 || t.rhs.len() == n)
}

/// With an exact element type a row operation on a block is a function of
/// the block.
pub proof fn lemma_block_step_is_exact<T: Scalar>(
    block: Seq<Seq<T>>,
    i: int,
    j: int,
    f: T,
    out: Seq<Seq<T>>,
)
    requires
        exact::<T>(),
        0 <= i < block.len(),
        0 <= j < block.len(),
        block[i].len() == block[j].len(),
        is_block_step(block, i, j, f, out),
    ensures
        out == block.update(j, row_sum(block[j], row_scaled(block[i], f))),
{
    assert(out[j] =~= row_sum(block[j], row_scaled(block[i], f)));
}

/// With an exact element type one row operation is a function of the
/// tableau: it makes `eliminate(t, i, j)` of it, which has the shape of `t`.
pub proof fn lemma_step_is_exact<T: Scalar>(t: Tableau<T>, n: nat, i: int, j: int, u: Tableau<T>)
    requires
        exact::<T>(),
        shaped(t, n),
        0 <= i < n,
        0 <= j < n,
        is_step(t, i, j, u),
    ensures
        u == eliminate(t, i, j),
        shaped(u, n),
        u.rhs.len() == t.rhs.len(),
{
    let (alpha, minus) = choose|alpha: T, minus: T|
        {
            &&& is_quotient(t.rows[j][i], t.rows[i][i], alpha)
            &&& #[trigger] is_negation(alpha, minus)
            &&& is_block_step(t.rows, i, j, minus, u.rows)
            &&& is_block_step(t.aug, i, j, minus, u.aug)
            &&& is_rhs_step(t.rhs, i, j, alpha, u.rhs)
        };
    lemma_block_step_is_exact(t.rows, i, j, minus, u.rows);
    if j < t.aug.len() {
        lemma_block_step_is_exact(t.aug, i, j, minus, u.aug);
    }
    assert(u.rhs == eliminate(t, i, j).rhs);
}

/// With an exact element type a sweep below a pivot is a function of the
/// tableau.
pub proof fn lemma_swept_down_is_exact<T: Scalar>(
    t: Tableau<T>,
    n: nat,
    i: int,
    j: int,
    u: Tableau<T>,
)
    requires
        exact::<T>(),
        shaped(t, n),
        0 <= i < n,
        j <= n,
        is_swept_down(t, i, j, u),
    ensures
        u == swept_down(t, i, j),
        shaped(u, n),
        u.rhs.len() == t.rhs.len(),
    decreases j - i,
{
    if j > i + 1 {
        let m = choose|m: Tableau<T>|
            is_swept_down(t, i, j - 1, m) && #[trigger] is_step(m, i, j - 1, u);
        lemma_swept_down_is_exact(t, n, i, j - 1, m);
        lemma_step_is_exact(m, n, i, j - 1, u);
    }
}

/// With an exact element type a sweep above a pivot is a function of the
/// tableau.
pub proof fn lemma_swept_up_is_exact<T: Scalar>(
    t: Tableau<T>,
    n: nat,
    i: int,
    j: int,
    u: Tableau<T>,
)
    requires
        exact::<T>(),
        shaped(t, n),
        0 <= i < n,
        j <= n,
        is_swept_up(t, i, j, u),
    ensures
        u == swept_up(t, i, j),
        shaped(u, n),
        u.rhs.len() == t.rhs.len(),
    decreases j,
{
    if j > 0 {
        let m = choose|m: Tableau<T>|
            is_swept_up(t, i, j - 1, m) && #[trigger] is_step(m, i, j - 1, u);
        lemma_swept_up_is_exact(t, n, i, j - 1, m);
        lemma_step_is_exact(m, n, i, j - 1, u);
    }
}

/// With an exact element type the forward pass is a function of the
/// tableau.
pub proof fn lemma_forward_is_exact<T: Scalar>(t: Tableau<T>, n: nat, i: int, u: Tableau<T>)
    requires
        exact::<T>(),
        shaped(t, n),
        i <= n,
        is_forward(t, n as int, i, u),
    ensures
        u == forward(t, n as int, i),
        shaped(u, n),
        u.rhs.len() == t.rhs.len(),
    decreases i,
{
    if i > 0 {
        let m = choose|m: Tableau<T>|
            is_forward(t, n as int, i - 1, m) && #[trigger] is_swept_down(m, i - 1, n as int, u);
        lemma_forward_is_exact(t, n, i - 1, m);
        lemma_swept_down_is_exact(m, n, i - 1, n as int, u);
    }
}

/// With an exact element type the backward pass is a function of the
/// tableau.
pub proof fn lemma_backward_is_exact<T: Scalar>(t: Tableau<T>, n: nat, i: int, u: Tableau<T>)
    requires
        exact::<T>(),
        shaped(t, n),
        0 <= i,
        is_backward(t, n as int, i, u),
    ensures
        u == backward(t, n as int, i),
        shaped(u, n),
        u.rhs.len() == t.rhs.len(),
    decreases n - i,
{
    if i < n {
        let m = choose|m: Tableau<T>|
            is_backward(t, n as int, i + 1, m) && #[trigger] is_swept_up(m, i, i, u);
        lemma_backward_is_exact(t, n, i + 1, m);
        lemma_swept_up_is_exact(m, n, i, i, u);
    }
}

/// With an exact element type both passes are a function of the tableau:
/// they make `reduced(t, n)` of it.
pub proof fn lemma_reduced_is_exact<T: Scalar>(t: Tableau<T>, n: nat, u: Tableau<T>)
    requires
        exact::<T>(),
        shaped(t, n),
        is_reduced(t, n as int, u),
    ensures
        u == reduced(t, n as int),
        shaped(u, n),
        u.rhs.len() == t.rhs.len(),
{
    let m = choose|m: Tableau<T>|
        #[trigger] is_forward(t, n as int, n as int, m) && is_backward(m, n as int, 0, u);
    lemma_forward_is_exact(t, n, n as int, m);
    lemma_backward_is_exact(m, n, 0, u);
}

/// With an exact element type normalization is a function of the row.
pub proof fn lemma_normalized_row_is_exact<T: Scalar>(row: Seq<T>, a: T, out: Seq<T>)
    requires
        exact::<T>(),
        is_normalized_row(row, a, out),
    ensures
        out == normalized_row(row, a),
{
    let (z, minus_z) = choose|z: T, minus_z: T|
        {
            &&& is_image(0u8, z)
            &&& #[trigger] is_negation(z, minus_z)
            &&& forall|k: int|
                0 <= k < row.len() ==> is_normalized_entry(row[k], a, z, minus_z, #[trigger] out[k])
        };
    assert(z == zero::<T>() && minus_z == negative_zero::<T>());
}

/// With an exact element type the normalized system is a function of the
/// system.
pub proof fn lemma_normalized_system_is_exact<T: Scalar>(
    rows: Seq<Seq<T>>,
    rhs: Seq<T>,
    out_rows: Seq<Seq<T>>,
    out_rhs: Seq<T>,
)
    requires
        exact::<T>(),
        rhs.len() == rows.len(),
        is_normalized_system(rows, rhs, out_rows, out_rhs),
    ensures
        out_rows == normalized_rows(rows, rows),
        out_rhs == normalized_rhs(rhs, rows),
{
    assert forall|i: int| 0 <= i < rows.len() implies out_rows[i] == normalized_row(
        rows[i],
        reciprocal(rows[i][i]),
    ) && out_rhs[i] == rhs[i].mul_spec(reciprocal(rows[i][i])) by {
        let a = choose|a: T|
            {
                &&& #[trigger] is_reciprocal(rows[i][i], a)
                &&& is_normalized_row(rows[i], a, out_rows[i])
                &&& is_product(rhs[i], a, out_rhs[i])
            };
        lemma_normalized_row_is_exact(rows[i], a, out_rows[i]);
    }
}

/// With an exact element type the normalized block is a function of the
/// block and the pivots.
pub proof fn lemma_normalized_block_is_exact<T: Scalar>(
    block: Seq<Seq<T>>,
    pivots: Seq<Seq<T>>,
    out: Seq<Seq<T>>,
)
    requires
        exact::<T>(),
        is_normalized_block(block, pivots, out),
    ensures
        out == normalized_rows(block, pivots),
{
    assert forall|i: int| 0 <= i < block.len() implies out[i] == normalized_row(
        block[i],
        reciprocal(pivots[i][i]),
    ) by {
        let a = choose|a: T|
            #[trigger] is_reciprocal(pivots[i][i], a) && is_normalized_row(block[i], a, out[i]);
        lemma_normalized_row_is_exact(block[i], a, out[i]);
    }
}

/// With an exact element type solving is a function of the system: what
/// comes back is `solved(rows, rhs)`.
pub proof fn lemma_solved_is_exact<T: Scalar>(
    rows: Seq<Seq<T>>,
    rhs: Seq<T>,
    out_rows: Seq<Seq<T>>,
    x: Seq<T>,
)
    requires
        exact::<T>(),
        rectangular(rows, rows.len(), rows.len()),
        rhs.len() == rows.len(),
        is_solved(rows, rhs, out_rows, x),
    ensures
        out_rows == solved(rows, rhs).0,
        x == solved(rows, rhs).1,
{
    let start = Tableau { rows, aug: Seq::empty(), rhs };
    let t = choose|t: Tableau<T>|
        {
            &&& #[trigger] is_reduced(start, rows.len() as int, t)
            &&& is_normalized_system(t.rows, t.rhs, out_rows, x)
        };
    lemma_reduced_is_exact(start, rows.len(), t);
    lemma_normalized_system_is_exact(t.rows, t.rhs, out_rows, x);
}

/// With an exact element type inverting is a function of the matrix: what
/// comes back is `inverted(rows)`.
pub proof fn lemma_inverted_is_exact<T: Scalar>(rows: Seq<Seq<T>>, out: Seq<Seq<T>>)
    requires
        exact::<T>(),
        rectangular(rows, rows.len(), rows.len()),
        is_inverted(rows, out),
    ensures
        out == inverted(rows),
{
    let (unit, t) = choose|unit: Seq<Seq<T>>, t: Tableau<T>|
        {
            &&& is_identity(unit, rows.len())
            &&& #[trigger] is_reduced(
                Tableau { rows, aug: unit, rhs: Seq::empty() },
                rows.len() as int,
                t,
            )
            &&& is_normalized_block(t.aug, t.rows, out)
        };
    assert(unit =~= identity_rows::<T>(rows.len())) by {
        assert forall|i: int| 0 <= i < rows.len() implies #[trigger] unit[i] =~= identity_rows::<T>(
            rows.len(),
        )[i] by {
        }
    }
    lemma_reduced_is_exact(Tableau { rows, aug: unit, rhs: Seq::empty() }, rows.len(), t);
    lemma_normalized_block_is_exact(t.aug, t.rows, out);
}

} // verus!
