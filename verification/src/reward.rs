use vstd::prelude::*;
use vstd::arithmetic::div_mod::{
    lemma_basic_div, lemma_div_is_ordered, lemma_div_of0, lemma_div_pos_is_pos,
};
use vstd::arithmetic::mul::{lemma_mul_basics, lemma_mul_nonnegative, lemma_mul_upper_bound};
use crate::errors::StakingError;

verus! {

/// Seconds in one day; only whole elapsed days accrue reward.
pub const SECONDS_PER_DAY: u64 = 86400;

/// The fixed-point reward scale: the annual rate is a percentage (a
/// denominator of 100) spread over a 365-day year, so one staked unit earns
/// `rate / 36500` units per whole day.
pub const RATE_SCALE: u64 = 36500;

/// The reward owed on `principal` staked for `elapsed_seconds` at an annual
/// rate of `annual_rate_percent` percent:
/// `floor(principal * rate * whole_days / 36500)`.
///
/// The whole product is formed before any division and the result rounds
/// down, so the ledger never pays out more than the exact fraction earned.
pub open spec fn spec_reward(principal: int, elapsed_seconds: int, annual_rate_percent: int) -> int {
    (principal * annual_rate_percent * (elapsed_seconds / (SECONDS_PER_DAY as int)))
        / (RATE_SCALE as int)
}

/// Computes the reward for a stake of `principal` held for
/// `elapsed_seconds` at `annual_rate_percent` percent per year, in exact
/// fixed-point arithmetic (the product is formed in a wide integer before the
/// final division, rounding down).
///
/// A negative elapsed time (a bogus timestamp) is refused as an invalid
/// argument; a reward too large for the result type is an arithmetic failure.
pub fn compute_reward(principal: u64, elapsed_seconds: i64, annual_rate_percent: u8) -> (result: Result<
    u64,
    StakingError,
>)
    requires
        annual_rate_percent <= 100,
    ensures
        elapsed_seconds < 0 ==> result == Err::<u64, StakingError>(StakingError::InvalidArgument),
        elapsed_seconds >= 0 && spec_reward(
            principal as int,
            elapsed_seconds as int,
            annual_rate_percent as int,
        ) <= u64::MAX ==> result == Ok::<u64, StakingError>(
            spec_reward(principal as int, elapsed_seconds as int, annual_rate_percent as int) as u64,
        ),
        elapsed_seconds >= 0 && spec_reward(
            principal as int,
            elapsed_seconds as int,
            annual_rate_percent as int,
        ) > u64::MAX ==> result == Err::<u64, StakingError>(StakingError::CalculationError),
{
    if elapsed_seconds < 0 {
        return Err(StakingError::InvalidArgument);
    }
    let elapsed: u64 = elapsed_seconds as u64;
    let days: u64 = elapsed / SECONDS_PER_DAY;
    proof {
        lemma_div_pos_is_pos(elapsed as int, SECONDS_PER_DAY as int);
        lemma_div_is_ordered(elapsed as int, i64::MAX as int, SECONDS_PER_DAY as int);
        assert(days <= i64::MAX as int / SECONDS_PER_DAY as int);
        lemma_mul_nonnegative(principal as int, annual_rate_percent as int);
        lemma_mul_upper_bound(principal as int, u64::MAX as int, annual_rate_percent as int, 100);
        lemma_mul_nonnegative(principal as int * annual_rate_percent as int, days as int);
        lemma_mul_upper_bound(
            principal as int * annual_rate_percent as int,
            u64::MAX as int * 100,
            days as int,
            i64::MAX as int / SECONDS_PER_DAY as int,
        );
    }
    let scaled: u128 = (principal as u128) * (annual_rate_percent as u128) * (days as u128);
    let reward: u128 = scaled / (RATE_SCALE as u128);
    proof {
        lemma_div_pos_is_pos(scaled as int, RATE_SCALE as int);
    }
    if reward > u64::MAX as u128 {
        Err(StakingError::CalculationError)
    } else {
        Ok(reward as u64)
    }
}

/// For every principal, every non-negative elapsed time and every rate in
/// [0, 100]: the reward is never negative; a zero principal or a zero rate
/// earns exactly zero; and less than one full day earns exactly zero.
pub proof fn lemma_reward_bounds(principal: int, elapsed_seconds: int, annual_rate_percent: int)
    requires
        0 <= principal,
        0 <= elapsed_seconds,
        0 <= annual_rate_percent <= 100,
    ensures
        spec_reward(principal, elapsed_seconds, annual_rate_percent) >= 0,
        spec_reward(0, elapsed_seconds, annual_rate_percent) == 0,
        spec_reward(principal, elapsed_seconds, 0) == 0,
        elapsed_seconds < SECONDS_PER_DAY ==> spec_reward(
            principal,
            elapsed_seconds,
            annual_rate_percent,
        ) == 0,
{
    let days = elapsed_seconds / (SECONDS_PER_DAY as int);
    lemma_div_pos_is_pos(elapsed_seconds, SECONDS_PER_DAY as int);
    lemma_mul_nonnegative(principal, annual_rate_percent);
    lemma_mul_nonnegative(principal * annual_rate_percent, days);
    lemma_div_pos_is_pos(principal * annual_rate_percent * days, RATE_SCALE as int);
    lemma_div_of0(RATE_SCALE as int);
    lemma_mul_basics(annual_rate_percent);
    lemma_mul_basics(principal);
    lemma_mul_basics(days);
    lemma_mul_basics(principal * annual_rate_percent);
    if elapsed_seconds < SECONDS_PER_DAY {
        lemma_basic_div(elapsed_seconds, SECONDS_PER_DAY as int);
    }
}

} // verus!
