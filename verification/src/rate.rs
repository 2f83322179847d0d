//! Fixed-point arithmetic for the exchange rate and for fee ratios.
//!
//! A rate is kept as the inner value of sp_arithmetic's `FixedU128`: the
//! represented number scaled by `10^18` ([`RATE_ONE`]).  A ratio is kept as
//! parts per million, the inner value of sp_arithmetic's `Permill`.  The
//! arithmetic itself is performed by sp_arithmetic behind the trusted
//! wrappers below; each wrapper states the exact rounded-down (or, where
//! noted, rounded-up) quotient that the crate computes.

use vstd::prelude::*;
use vstd::arithmetic::div_mod::{
    lemma_div_is_ordered, lemma_div_pos_is_pos, lemma_fundamental_div_mod,
    lemma_mod_division_less_than_divisor,
};
use sp_arithmetic::{FixedPointNumber, FixedU128, PerThing, Permill};

verus! {

/// Inner value of the rate that represents the number one.
pub const RATE_ONE: u128 = 1_000_000_000_000_000_000;

/// Number of parts of a ratio that represent the whole.
pub const RATIO_ONE: u32 = 1_000_000;

/// Value of `n` multiplied by the rate `rate / 10^18`, rounded down.
pub open spec fn mul_rate_floor(rate: int, n: int) -> int {
    (rate * n) / (RATE_ONE as int)
}

/// Inner value of the reciprocal of `rate`, rounded down; meaningful for
/// `rate > 0`.
pub open spec fn reciprocal_rate(rate: int) -> int {
    ((RATE_ONE as int) * (RATE_ONE as int)) / rate
}

/// Base-to-derivative conversion at `rate`: multiplication by the rounded
/// reciprocal, rounded down.
pub open spec fn staking_to_liquid_at(rate: int, amount: int) -> int {
    mul_rate_floor(reciprocal_rate(rate), amount)
}

/// Derivative-to-base conversion at `rate`, rounded down.
pub open spec fn liquid_to_staking_at(rate: int, liquid: int) -> int {
    mul_rate_floor(rate, liquid)
}

/// Value of `x` multiplied by the ratio `parts / 10^6`, rounded down.
pub open spec fn ratio_mul_floor(parts: int, x: int) -> int {
    (parts * x) / (RATIO_ONE as int)
}

/// Value of `x` divided by the ratio `parts / 10^6`, rounded up; meaningful
/// for `parts > 0`.
pub open spec fn ratio_reciprocal_mul_ceil(parts: int, x: int) -> int {
    (x * (RATIO_ONE as int) + parts - 1) / parts
}

/// Relies on `sp_arithmetic::FixedPointNumber::checked_mul_int` on
/// `FixedU128` with a `u128` operand: the result is
/// `rate * n / 10^18` rounded down, or `None` if that quotient does not fit
/// in `u128`.
#[verifier::external_body]
pub(crate) fn fixed_mul_int(rate: u128, n: u128) -> (r: Option<u128>)
    ensures
        mul_rate_floor(rate as int, n as int) <= u128::MAX as int ==> r == Some(
            mul_rate_floor(rate as int, n as int) as u128,
        ),
        mul_rate_floor(rate as int, n as int) > u128::MAX as int ==> r.is_none(),
{
    FixedU128::from_inner(rate).checked_mul_int(n)
}

/// Relies on `sp_arithmetic::FixedPointNumber::saturating_mul_int` on
/// `FixedU128` with a `u128` operand: `rate * n / 10^18` rounded down,
/// saturating at `u128::MAX`.
#[verifier::external_body]
pub(crate) fn fixed_saturating_mul_int(rate: u128, n: u128) -> (r: u128)
    ensures
        mul_rate_floor(rate as int, n as int) <= u128::MAX as int ==> r as int == mul_rate_floor(
            rate as int,
            n as int,
        ),
        mul_rate_floor(rate as int, n as int) > u128::MAX as int ==> r == u128::MAX,
{
    FixedU128::from_inner(rate).saturating_mul_int(n)
}

/// Relies on `sp_arithmetic::FixedPointNumber::reciprocal` on `FixedU128`:
/// `None` for a zero rate, else the inner value `10^36 / rate` rounded
/// down (which always fits in `u128`).
#[verifier::external_body]
pub(crate) fn fixed_reciprocal(rate: u128) -> (r: Option<u128>)
    ensures
        rate == 0 ==> r.is_none(),
        rate > 0 ==> r == Some(reciprocal_rate(rate as int) as u128),
{
    FixedU128::from_inner(rate).reciprocal().map(|x: FixedU128| x.into_inner())
}

/// Relies on `sp_arithmetic::FixedPointNumber::checked_from_rational` on
/// `FixedU128` with `u128` operands: `None` for a zero denominator, else
/// the inner value `n * 10^18 / d` rounded down, or `None` if that does not
/// fit in `u128`.
#[verifier::external_body]
pub(crate) fn fixed_from_rational(n: u128, d: u128) -> (r: Option<u128>)
    ensures
        d == 0 ==> r.is_none(),
        d > 0 && (n as int * RATE_ONE as int) / d as int <= u128::MAX as int ==> r == Some(
            ((n as int * RATE_ONE as int) / d as int) as u128,
        ),
        d > 0 && (n as int * RATE_ONE as int) / d as int > u128::MAX as int ==> r.is_none(),
{
    FixedU128::checked_from_rational(n, d).map(|x: FixedU128| x.into_inner())
}

/// Relies on `sp_arithmetic::PerThing::mul_floor` on `Permill` with a
/// `u128` operand: exactly `parts * x / 10^6` rounded down, which never
/// overflows.
#[verifier::external_body]
pub(crate) fn ratio_mul_floor_exec(parts: u32, x: u128) -> (r: u128)
    requires
        parts <= RATIO_ONE,
    ensures
        r as int == ratio_mul_floor(parts as int, x as int),
{
    Permill::from_parts(parts).mul_floor(x)
}

/// Relies on `sp_arithmetic::PerThing::saturating_reciprocal_mul_ceil` on
/// `Permill` with a `u128` operand: `x * 10^6 / parts` rounded up,
/// saturating at `u128::MAX`.  The crate divides by `parts`, so a zero
/// ratio is excluded here.
#[verifier::external_body]
pub(crate) fn ratio_reciprocal_mul_ceil_exec(parts: u32, x: u128) -> (r: u128)
    requires
        0 < parts <= RATIO_ONE,
    ensures
        ratio_reciprocal_mul_ceil(parts as int, x as int) <= u128::MAX as int ==> r
            as int == ratio_reciprocal_mul_ceil(parts as int, x as int),
        ratio_reciprocal_mul_ceil(parts as int, x as int) > u128::MAX as int ==> r == u128::MAX,
{
    Permill::from_parts(parts).saturating_reciprocal_mul_ceil(x)
}

/// For a positive divisor, the rounded-down quotient times the divisor
/// brackets the dividend.
proof fn lemma_div_brackets(a: int, d: int)
    requires
        d > 0,
    ensures
        (a / d) * d <= a < (a / d) * d + d,
{
    lemma_fundamental_div_mod(a, d);
    lemma_mod_division_less_than_divisor(a, d);
    assert((a / d) * d == d * (a / d)) by (nonlinear_arith);
}

/// Multiplying by a nonnegative rate and rounding down is monotone.
pub proof fn lemma_mul_rate_floor_monotone(rate: int, a: int, b: int)
    requires
        0 <= rate,
        a <= b,
    ensures
        mul_rate_floor(rate, a) <= mul_rate_floor(rate, b),
{
    assert(rate * a <= rate * b) by (nonlinear_arith)
        requires
            0 <= rate,
            a <= b,
    ;
    lemma_div_is_ordered(rate * a, rate * b, RATE_ONE as int);
}

/// A ratio of at most one never grows the amount.
pub proof fn lemma_ratio_mul_floor_le(parts: int, x: int)
    requires
        0 <= parts <= RATIO_ONE as int,
        0 <= x,
    ensures
        0 <= ratio_mul_floor(parts, x) <= x,
{
    assert(0 <= parts * x) by (nonlinear_arith)
        requires
            0 <= parts,
            0 <= x,
    ;
    lemma_div_pos_is_pos(parts * x, RATIO_ONE as int);
    assert(parts * x <= (RATIO_ONE as int) * x) by (nonlinear_arith)
        requires
            parts <= RATIO_ONE as int,
            0 <= x,
    ;
    lemma_div_is_ordered(parts * x, (RATIO_ONE as int) * x, RATIO_ONE as int);
    vstd::arithmetic::div_mod::lemma_div_multiples_vanish(x, RATIO_ONE as int);
}

/// A rate of at most one never grows the amount.
pub proof fn lemma_mul_rate_floor_le(rate: int, n: int)
    requires
        0 <= rate <= RATE_ONE as int,
        0 <= n,
    ensures
        0 <= mul_rate_floor(rate, n) <= n,
{
    assert(0 <= rate * n) by (nonlinear_arith)
        requires
            0 <= rate,
            0 <= n,
    ;
    lemma_div_pos_is_pos(rate * n, RATE_ONE as int);
    assert(rate * n <= (RATE_ONE as int) * n) by (nonlinear_arith)
        requires
            rate <= RATE_ONE as int,
            0 <= n,
    ;
    lemma_div_is_ordered(rate * n, (RATE_ONE as int) * n, RATE_ONE as int);
    vstd::arithmetic::div_mod::lemma_div_multiples_vanish(n, RATE_ONE as int);
}

/// What was converted out of a base amount converts back to no more than
/// that amount: fast-unstake settlements can never draw beyond the free
/// stake liquidity they were matched against.
pub proof fn lemma_round_trip_within(rate: int, free: int, y: int)
    requires
        0 < rate,
        0 <= free,
        0 <= y <= staking_to_liquid_at(rate, free),
    ensures
        liquid_to_staking_at(rate, y) <= free,
        0 <= liquid_to_staking_at(rate, y),
{
    lemma_mul_rate_floor_monotone(rate, y, staking_to_liquid_at(rate, free));
    lemma_round_trip(rate, free);
    assert(0 <= rate * y) by (nonlinear_arith)
        requires
            0 < rate,
            0 <= y,
    ;
    lemma_div_pos_is_pos(rate * y, RATE_ONE as int);
}

/// Converting base to derivative and back at a positive rate never gains
/// value, and loses at most the two rounding steps: one unit of the
/// derivative rounding (worth `rate / 10^18` in base terms) plus the
/// relative error of the rounded reciprocal.
pub proof fn lemma_round_trip(rate: int, x: int)
    requires
        0 < rate,
        0 <= x,
    ensures
        liquid_to_staking_at(rate, staking_to_liquid_at(rate, x)) <= x,
        x - liquid_to_staking_at(rate, staking_to_liquid_at(rate, x)) <= (rate * x + rate * (
        RATE_ONE as int)) / ((RATE_ONE as int) * (RATE_ONE as int)) + 1,
{
    let d = RATE_ONE as int;
    let dd = d * d;
    let q = dd / rate;
    let y = (q * x) / d;
    let z = (rate * y) / d;
    lemma_div_brackets(dd, rate);
    lemma_div_pos_is_pos(dd, rate);
    assert(q * x >= 0) by (nonlinear_arith)
        requires
            q >= 0,
            x >= 0,
    ;
    lemma_div_pos_is_pos(q * x, d);
    assert(rate * y >= 0) by (nonlinear_arith)
        requires
            rate > 0,
            y >= 0,
    ;
    lemma_div_pos_is_pos(rate * y, d);
    lemma_div_brackets(q * x, d);
    lemma_div_brackets(rate * y, d);
    // Upper bound: z * d * d <= rate * y * d <= rate * q * x <= d * d * x.
    assert(z * dd <= (rate * y) * d) by (nonlinear_arith)
        requires
            dd == d * d,
            z * d <= rate * y,
            d > 0,
    ;
    assert((rate * y) * d <= rate * (q * x)) by (nonlinear_arith)
        requires
            y * d <= q * x,
            rate > 0,
    ;
    assert(rate * (q * x) <= dd * x) by (nonlinear_arith)
        requires
            (q * rate <= dd || (dd / rate) * rate <= dd),
            q == dd / rate,
            (dd / rate) * rate <= dd,
            x >= 0,
    ;
    assert(z <= x) by (nonlinear_arith)
        requires
            z * dd <= dd * x,
            dd > 0,
    ;
    // Lower bound: each rounded division loses strictly less than one
    // divisor, so d * d * (x - z) < rate * x + rate * d + d * d.
    assert(z * dd >= (rate * y) * d - dd + d) by (nonlinear_arith)
        requires
            dd == d * d,
            rate * y < z * d + d,
            d > 0,
    ;
    assert((rate * y) * d >= rate * (q * x) - rate * d + rate) by (nonlinear_arith)
        requires
            q * x < y * d + d,
            rate > 0,
    ;
    assert(rate * (q * x) >= dd * x - rate * x + x) by (nonlinear_arith)
        requires
            dd < (dd / rate) * rate + rate,
            q == dd / rate,
            x >= 0,
    ;
    assert(dd * (x - z) <= rate * x + rate * d + dd) by (nonlinear_arith)
        requires
            z * dd >= dd * x - rate * x + x - rate * d + rate - dd + d,
            dd == d * d,
            d > 0,
            rate > 0,
            x >= 0,
    ;
    let s = rate * x + rate * d;
    let w = s / dd;
    lemma_div_brackets(s, dd);
    assert(x - z <= w + 1) by (nonlinear_arith)
        requires
            dd * (x - z) <= s + dd,
            s < w * dd + dd,
            dd > 0,
    ;
}

} // verus!
