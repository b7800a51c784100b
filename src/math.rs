//! The numeric kernel shared by the table and the agent: the Bellman update,
//! the Bayesian average and a division that treats a zero divisor as giving
//! zero.

use vstd::prelude::*;
use crate::value::QValue;

verus! {

/// `dividend / divisor`, or zero where the divisor is zero.
pub open spec fn safe_divide_spec<V: QValue>(dividend: V, divisor: V) -> V {
    if V::spec_is_zero(divisor) {
        V::spec_zero()
    } else {
        V::spec_div(dividend, divisor)
    }
}

/// `old + learning_rate * (reward + discount_factor * future - old)`, with
/// each product folded into the addition that follows it.
pub open spec fn bellman_spec<V: QValue>(
    old_value: V,
    learning_rate: V,
    reward: V,
    discount_factor: V,
    optimal_future_value: V,
) -> V {
    V::spec_mul_add(
        learning_rate,
        V::spec_sub(V::spec_mul_add(discount_factor, optimal_future_value, reward), old_value),
        old_value,
    )
}

/// `(c * m + n * v) / (c + n)`, through the safe division.
pub open spec fn bayesian_average_spec<V: QValue>(c: V, n: V, m: V, v: V) -> V {
    safe_divide_spec(V::spec_mul_add(c, m, V::spec_mul(n, v)), V::spec_add(c, n))
}

/// Applies a Bellman operation to recommend a new q-value for a state:
/// `old + learning_rate * (reward + discount_factor * future - old)`, with
/// each product folded into the addition that follows it.
pub fn bellman<V: QValue>(
    old_value: V,
    learning_rate: V,
    reward: V,
    discount_factor: V,
    optimal_future_value: V,
) -> (r: V)
    ensures
        r == bellman_spec(old_value, learning_rate, reward, discount_factor, optimal_future_value),
{
    let target = V::mul_add(discount_factor, optimal_future_value, reward);
    V::mul_add(learning_rate, V::sub(target, old_value), old_value)
}

/// Returns the Bayesian weighted average `(c * m + n * v) / (c + n)` of an
/// estimated value `m` and an observed value `v`, where `c` is the number of
/// observations after which `v` weighs as much as `m`, and `n` the number of
/// times `v` has been observed. As `n` grows past `c`, the result moves from
/// `m` towards `v`. Where `c + n` is zero the result is zero.
pub fn bayesian_average<V: QValue>(c: V, n: V, m: V, v: V) -> (r: V)
    ensures
        r == bayesian_average_spec(c, n, m, v),
        V::spec_is_zero(V::spec_add(c, n)) ==> r == V::spec_zero(),
{
    safe_divide(V::mul_add(c, m, V::mul(n, v)), V::add(c, n))
}

/// Returns zero if the divisor is zero, and the quotient otherwise.
pub fn safe_divide<V: QValue>(dividend: V, divisor: V) -> (r: V)
    ensures
        r == safe_divide_spec(dividend, divisor),
        V::spec_is_zero(divisor) ==> r == V::spec_zero(),
        !V::spec_is_zero(divisor) ==> r == V::spec_div(dividend, divisor),
{
    if V::is_zero(divisor) {
        V::zero()
    } else {
        V::div(dividend, divisor)
    }
}

} // verus!
