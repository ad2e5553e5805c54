//! The numbers a matrix holds.
//!
//! The algorithms of this crate are written once, for every element type that
//! offers the four arithmetic operators, negation, equality and a conversion
//! from small integers. Their contracts are stated over the specification
//! functions that `vstd` attaches to those operator traits: `add_spec`,
//! `mul_spec`, `eq_spec` and so on.
//!
//! The functions ask of the element type only that its operators never fail
//! ([`total`]). What a function returns is stated twice. Once for every such
//! type, as a relation: the result is what the operations of the algorithm,
//! in their order, have evaluated to ([`is_sum`], [`is_product`] and their
//! like say what one operation evaluates to). And once for the types whose
//! operators are functions of their operands ([`exact`]), as an equation: the
//! result is a specification function of the input. Lemmas show that the
//! relation leaves no choice where the element type is exact.
//!
//! For the floating-point types `vstd` leaves open whether they are exact: an
//! operation on two NaN may yield any NaN. They are total.
use core::ops::{Add, Div, Mul, Neg, Sub};
use vstd::prelude::*;
use vstd::std_specs::cmp::PartialEqSpec;
use vstd::std_specs::convert::FromSpec;
use vstd::std_specs::ops::{AddSpec, DivSpec, MulSpec, NegSpec, SubSpec};

verus! {

/// An element type: copyable, with `+ - * /`, unary minus, `==` and a
/// conversion from `u8` (which yields the constants zero and one).
///
/// The trait has no methods of its own; every type with these operators is a
/// `Scalar`.
pub trait Scalar: Copy + Add<Output = Self> + Sub<Output = Self> + Mul<Output = Self> + Div<
    Output = Self,
> + Neg<Output = Self> + PartialEq + From<u8> {

}

impl<T> Scalar for T where
    T: Copy + Add<Output = T> + Sub<Output = T> + Mul<Output = T> + Div<Output = T> + Neg<
        Output = T,
    > + PartialEq + From<u8>,
{
}

/// Every operator of `T` accepts every operand: none of them has a
/// precondition that some value would fail.
///
/// Division is total here: dividing by zero yields whatever the element type
/// yields for it (for IEEE numbers an infinity or a NaN), it is never an
/// error. The floating-point types are total; the fixed-width integers are
/// not, since their operators must not overflow.
pub open spec fn total<T: Scalar>() -> bool {
    &&& forall|a: T, b: T| #[trigger] call_requires(<T as Add>::add, (a, b))
    &&& forall|a: T, b: T| #[trigger] call_requires(<T as Sub>::sub, (a, b))
    &&& forall|a: T, b: T| #[trigger] call_requires(<T as Mul>::mul, (a, b))
    &&& forall|a: T, b: T| #[trigger] call_requires(<T as Div>::div, (a, b))
    &&& forall|a: T| #[trigger] call_requires(<T as Neg>::neg, (a,))
}

/// The operators of `T` are total, and each returns exactly what its
/// specification function says.
///
/// This is what makes the result of an algorithm a function of its input.
pub open spec fn exact<T: Scalar>() -> bool {
    &&& total::<T>()
    &&& <T as AddSpec>::obeys_add_spec()
    &&& <T as SubSpec>::obeys_sub_spec()
    &&& <T as MulSpec>::obeys_mul_spec()
    &&& <T as DivSpec>::obeys_div_spec()
    &&& <T as NegSpec>::obeys_neg_spec()
    &&& <T as PartialEqSpec>::obeys_eq_spec()
    &&& <T as FromSpec<u8>>::obeys_from_spec()
}

/// `r` is what `a + b` evaluates to. This holds of every element type; for an
/// exact one it says `r == a.add_spec(b)`.
pub open spec fn is_sum<T: Scalar>(a: T, b: T, r: T) -> bool {
    call_ensures(<T as Add>::add, (a, b), r)
}

/// `r` is what `a - b` evaluates to.
pub open spec fn is_difference<T: Scalar>(a: T, b: T, r: T) -> bool {
    call_ensures(<T as Sub>::sub, (a, b), r)
}

/// `r` is what `a * b` evaluates to.
pub open spec fn is_product<T: Scalar>(a: T, b: T, r: T) -> bool {
    call_ensures(<T as Mul>::mul, (a, b), r)
}

/// `r` is what `a / b` evaluates to.
pub open spec fn is_quotient<T: Scalar>(a: T, b: T, r: T) -> bool {
    call_ensures(<T as Div>::div, (a, b), r)
}

/// `r` is what `-a` evaluates to.
pub open spec fn is_negation<T: Scalar>(a: T, r: T) -> bool {
    call_ensures(<T as Neg>::neg, (a,), r)
}

/// `r` is what `a == b` evaluates to.
pub open spec fn is_equal<T: Scalar>(a: T, b: T, r: bool) -> bool {
    call_ensures(<T as PartialEq>::eq, (&a, &b), r)
}

/// `r` is what the conversion of `n` evaluates to.
pub open spec fn is_image<T: Scalar>(n: u8, r: T) -> bool {
    call_ensures(<T as From<u8>>::from, (n,), r)
}

/// `r` is what the cofactor sign of column `j` evaluates to: the image of one
/// for even `j`, its negation for odd.
pub open spec fn is_sign<T: Scalar>(j: int, r: T) -> bool {
    if j % 2 == 0 {
        is_image(1u8, r)
    } else {
        exists|u: T| #[trigger] is_image(1u8, u) && is_negation(u, r)
    }
}

/// The additive constant: the image of `0u8`.
pub open spec fn zero<T: Scalar>() -> T {
    T::from_spec(0u8)
}

/// The multiplicative constant: the image of `1u8`.
pub open spec fn one<T: Scalar>() -> T {
    T::from_spec(1u8)
}

/// The negated zero. For IEEE numbers this is `-0.0`, which compares equal to
/// zero; for other element types it may or may not.
pub open spec fn negative_zero<T: Scalar>() -> T {
    zero::<T>().neg_spec()
}

/// `a == b` as the element type defines it.
pub open spec fn same<T: Scalar>(a: T, b: T) -> bool {
    a.eq_spec(&b)
}

/// The sign of the cofactor of column `j`: one for even `j`, minus one for odd.
pub open spec fn sign<T: Scalar>(j: int) -> T {
    if j % 2 == 0 {
        one::<T>()
    } else {
        one::<T>().neg_spec()
    }
}

/// Returns the constant zero.
pub fn zero_value<T: Scalar>() -> (r: T)
    ensures
        is_image(0u8, r),
        exact::<T>() ==> r == zero::<T>(),
{
    T::from(0u8)
}

/// Returns the constant one.
pub fn one_value<T: Scalar>() -> (r: T)
    ensures
        is_image(1u8, r),
        exact::<T>() ==> r == one::<T>(),
{
    T::from(1u8)
}

/// Returns the cofactor sign of column `j`.
pub fn sign_value<T: Scalar>(j: usize) -> (r: T)
    requires
        total::<T>(),
    ensures
        is_sign(j as int, r),
        exact::<T>() ==> r == sign::<T>(j as int),
{
    let unit: T = T::from(1u8);
    assert(is_image(1u8, unit));
    if j % 2 == 0 {
        unit
    } else {
        unit.neg()
    }
}

} // verus!
