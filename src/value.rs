//! The number type that value estimates are computed in.

use vstd::prelude::*;

verus! {

/// A number type for Q-values, supplied by the user of the library (for
/// instance a wrapper around a binary floating-point number).
///
/// Each operation is a function of its arguments alone, named by the
/// matching `spec_*` function: the contracts of the kernel, the table and
/// the agent are stated over those. An implementation outside verified code
/// defines each `spec_*` function as the computation its operation performs.
pub trait QValue: Copy + Sized {
    /// The value zero.
    spec fn spec_zero() -> Self;

    /// The value of a signed count.
    spec fn spec_from_i64(n: i64) -> Self;

    /// The value of an unsigned count.
    spec fn spec_from_usize(n: usize) -> Self;

    /// `a + b`.
    spec fn spec_add(a: Self, b: Self) -> Self;

    /// `a - b`.
    spec fn spec_sub(a: Self, b: Self) -> Self;

    /// `a * b`.
    spec fn spec_mul(a: Self, b: Self) -> Self;

    /// `a * b + c`, as one operation where the type has one.
    spec fn spec_mul_add(a: Self, b: Self, c: Self) -> Self;

    /// `a / b`.
    spec fn spec_div(a: Self, b: Self) -> Self;

    /// Whether `a` is zero.
    spec fn spec_is_zero(a: Self) -> bool;

    /// Whether `a` is strictly greater than `b`.
    spec fn spec_greater(a: Self, b: Self) -> bool;

    /// Whether `a` and `b` are equal within the type's comparison tolerance.
    spec fn spec_near(a: Self, b: Self) -> bool;

    /// The value zero.
    fn zero() -> (r: Self)
        ensures
            r == Self::spec_zero(),
    ;

    /// The value of a signed count.
    fn from_i64(n: i64) -> (r: Self)
        ensures
            r == Self::spec_from_i64(n),
    ;

    /// The value of an unsigned count.
    fn from_usize(n: usize) -> (r: Self)
        ensures
            r == Self::spec_from_usize(n),
    ;

    /// `a + b`.
    fn add(a: Self, b: Self) -> (r: Self)
        ensures
            r == Self::spec_add(a, b),
    ;

    /// `a - b`.
    fn sub(a: Self, b: Self) -> (r: Self)
        ensures
            r == Self::spec_sub(a, b),
    ;

    /// `a * b`.
    fn mul(a: Self, b: Self) -> (r: Self)
        ensures
            r == Self::spec_mul(a, b),
    ;

    /// `a * b + c`, as one operation where the type has one.
    fn mul_add(a: Self, b: Self, c: Self) -> (r: Self)
        ensures
            r == Self::spec_mul_add(a, b, c),
    ;

    /// `a / b`; only called where `b` is not zero.
    fn div(a: Self, b: Self) -> (r: Self)
        requires
            !Self::spec_is_zero(b),
        ensures
            r == Self::spec_div(a, b),
    ;

    /// Whether `a` is zero.
    fn is_zero(a: Self) -> (r: bool)
        ensures
            r == Self::spec_is_zero(a),
    ;

    /// Whether `a` is strictly greater than `b`.
    fn greater(a: Self, b: Self) -> (r: bool)
        ensures
            r == Self::spec_greater(a, b),
    ;

    /// Whether `a` and `b` are equal within the type's comparison tolerance.
    fn near(a: Self, b: Self) -> (r: bool)
        ensures
            r == Self::spec_near(a, b),
    ;
}

} // verus!
