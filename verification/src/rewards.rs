//! The reward accrual engine: simple, non-compounding interest from
//! principal, elapsed time, and the annual rate.

use vstd::prelude::*;
use crate::errors::StakePoolError;

verus! {

/// Seconds in the 365-day year the engine accrues against.
pub const SECONDS_PER_YEAR: u64 = 31_536_000;

/// The exact reward owed: principal times the rate (in percent) times the
/// elapsed seconds, divided by the seconds in a year, floored.
pub open spec fn reward_amount(total_staked: u64, time_elapsed: i64, reward_rate: u64) -> int
    recommends
        time_elapsed >= 0,
{
    (total_staked * reward_rate * time_elapsed) / (100 * (SECONDS_PER_YEAR as int))
}

/// What a reward computation returns: the clock must not have regressed,
/// and the reward must fit in 64 bits.
pub open spec fn spec_calculate_rewards(
    total_staked: u64,
    time_elapsed: i64,
    reward_rate: u64,
) -> Result<u64, StakePoolError> {
    if time_elapsed < 0 {
        Err(StakePoolError::ClockRegression)
    } else if reward_amount(total_staked, time_elapsed, reward_rate) > u64::MAX {
        Err(StakePoolError::ArithmeticOverflow)
    } else {
        Ok(reward_amount(total_staked, time_elapsed, reward_rate) as u64)
    }
}

/// Computes the simple-interest reward for the elapsed interval.
pub fn calculate_rewards(total_staked: u64, time_elapsed: i64, reward_rate: u64) -> (r: Result<
    u64,
    StakePoolError,
>)
    ensures
        r == spec_calculate_rewards(total_staked, time_elapsed, reward_rate),
{
    if time_elapsed < 0 {
        return Err(StakePoolError::ClockRegression);
    }
    let elapsed: u128 = time_elapsed as u128;
    proof {
        assert((total_staked as int) * (reward_rate as int) <= u128::MAX) by (nonlinear_arith)
            requires
                total_staked <= u64::MAX,
                reward_rate <= u64::MAX,
        ;
    }
    let principal_rate: u128 = (total_staked as u128) * (reward_rate as u128);
    if principal_rate != 0 && elapsed > u128::MAX / principal_rate {
        proof {
            lemma_mul_div_overflow(principal_rate, elapsed);
            lemma_div_dominates(
                (principal_rate * elapsed) as int,
                u128::MAX as int + 1,
                100 * (SECONDS_PER_YEAR as int),
            );
            assert((u128::MAX as int + 1) / (100 * (SECONDS_PER_YEAR as int)) > u64::MAX);
            assert(reward_amount(total_staked, time_elapsed, reward_rate)
                == (principal_rate * elapsed) as int / (100 * (SECONDS_PER_YEAR as int)));
        }
        return Err(StakePoolError::ArithmeticOverflow);
    }
    proof {
        if principal_rate != 0 {
            lemma_mul_div_no_overflow(principal_rate, elapsed);
        }
    }
    let product: u128 = principal_rate * elapsed;
    let denom: u128 = 100 * (SECONDS_PER_YEAR as u128);
    let reward: u128 = product / denom;
    proof {
        assert(reward == reward_amount(total_staked, time_elapsed, reward_rate));
    }
    if reward > u64::MAX as u128 {
        Err(StakePoolError::ArithmeticOverflow)
    } else {
        Ok(reward as u64)
    }
}

/// If the second factor exceeds the largest quotient, the product exceeds
/// the 128-bit range.
proof fn lemma_mul_div_overflow(a: u128, b: u128)
    requires
        a != 0,
        b > u128::MAX / a,
    ensures
        a * b > u128::MAX,
{
    let q = (u128::MAX as int) / (a as int);
    vstd::arithmetic::div_mod::lemma_fundamental_div_mod(u128::MAX as int, a as int);
    assert(a * b >= a * (q + 1)) by (nonlinear_arith)
        requires
            b >= q + 1,
            a >= 1,
    ;
    assert(a * (q + 1) == a * q + a) by (nonlinear_arith);
}

/// If the second factor is within the largest quotient, the product fits
/// the 128-bit range.
proof fn lemma_mul_div_no_overflow(a: u128, b: u128)
    requires
        a != 0,
        b <= u128::MAX / a,
    ensures
        a * b <= u128::MAX,
{
    let q = (u128::MAX as int) / (a as int);
    vstd::arithmetic::div_mod::lemma_fundamental_div_mod(u128::MAX as int, a as int);
    assert(a * b <= a * q) by (nonlinear_arith)
        requires
            b <= q,
            a >= 1,
    ;
}

/// Division by a positive divisor preserves order.
proof fn lemma_div_dominates(x: int, y: int, d: int)
    requires
        x >= y,
        d > 0,
    ensures
        x / d >= y / d,
{
    vstd::arithmetic::div_mod::lemma_div_is_ordered(y, x, d);
}

} // verus!
