//! Fixed-point scalars: integers that count millionths.

use vstd::prelude::*;

verus! {

/// One world unit, and one radian, in fixed point.
pub const UNIT: i64 = 1_000_000;

/// One second, in the microseconds that durations are counted in.
pub const SECOND: u64 = 1_000_000;

/// The quotient of `n` by a positive `d`, rounded towards zero: what is cut off is
/// cut off alike on both sides of zero.
pub open spec fn quotient(n: int, d: int) -> int {
    if n >= 0 {
        n / d
    } else {
        -((-n) / d)
    }
}

/// What a quantity that changes at `rate` per second gains over `dt` microseconds,
/// rounded towards zero to a whole millionth.
pub open spec fn scaled(rate: int, dt: int) -> int {
    quotient(rate * dt, SECOND as int)
}

/// Whether `v` can be stored in a signed 64-bit scalar.
pub open spec fn fits(v: int) -> bool {
    i64::MIN <= v <= i64::MAX
}

/// The quotient of `n` by a positive `d`, rounded towards zero.
pub fn divide(n: i128, d: i128) -> (q: i128)
    requires
        d > 0,
    ensures
        q == quotient(n as int, d as int),
{
    n / d
}

/// The gain of `rate` over `dt` microseconds; wide enough never to overflow.
pub fn scale(rate: i64, dt: u64) -> (r: i128)
    ensures
        r == scaled(rate as int, dt as int),
{
    let wide_rate: i128 = rate as i128;
    let wide_dt: i128 = dt as i128;
    assert(-0x8000_0000_0000_0000_0000_0000_0000_0000 < wide_rate * wide_dt
        < 0x8000_0000_0000_0000_0000_0000_0000_0000) by (nonlinear_arith)
        requires
            -0x8000_0000_0000_0000 <= wide_rate < 0x8000_0000_0000_0000,
            0 <= wide_dt < 0x1_0000_0000_0000_0000,
    ;
    divide(wide_rate * wide_dt, 1_000_000)
}

/// `value` after gaining at `rate` per second for `dt` microseconds, where that can be stored.
pub fn checked_advance(value: i64, rate: i64, dt: u64) -> (r: Option<i64>)
    ensures
        fits(value + scaled(rate as int, dt as int)) ==> r == Some(
            (value + scaled(rate as int, dt as int)) as i64,
        ),
        !fits(value + scaled(rate as int, dt as int)) ==> r.is_none(),
{
    let gain: i128 = scale(rate, dt);
    assert(-0x8000_0000_0000_0000_0000_0000_0000 <= gain <= 0x8000_0000_0000_0000_0000_0000_0000)
        by (nonlinear_arith)
        requires
            gain == quotient((rate as int) * (dt as int), 1_000_000),
            -0x8000_0000_0000_0000 <= rate < 0x8000_0000_0000_0000,
            0 <= dt < 0x1_0000_0000_0000_0000,
    ;
    let sum: i128 = value as i128 + gain;
    if sum < i64::MIN as i128 || sum > i64::MAX as i128 {
        None
    } else {
        Some(sum as i64)
    }
}

/// Rounding towards zero treats both directions alike: the quotient of the
/// negative is the negative of the quotient.
pub proof fn law_quotient_is_odd(n: int, d: int)
    requires
        d > 0,
    ensures
        quotient(-n, d) == -quotient(n, d),
{
}

/// A rate and its opposite gain opposite amounts over the same time.
pub proof fn law_scaled_is_odd(rate: int, dt: int)
    ensures
        scaled(-rate, dt) == -scaled(rate, dt),
{
    assert((-rate) * dt == -(rate * dt)) by (nonlinear_arith);
    law_quotient_is_odd(rate * dt, SECOND as int);
}

/// A greater dividend never gives a smaller quotient.
pub proof fn law_quotient_is_monotone(a: int, b: int, d: int)
    requires
        d > 0,
        a <= b,
    ensures
        quotient(a, d) <= quotient(b, d),
{
    if a >= 0 {
        vstd::arithmetic::div_mod::lemma_div_is_ordered(a, b, d);
    } else if b < 0 {
        vstd::arithmetic::div_mod::lemma_div_is_ordered(-b, -a, d);
    } else {
        vstd::arithmetic::div_mod::lemma_div_pos_is_pos(-a, d);
        vstd::arithmetic::div_mod::lemma_div_pos_is_pos(b, d);
    }
}

} // verus!
