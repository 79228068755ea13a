use staking_ledger::errors::StakingError;
use staking_ledger::reward::compute_reward;

const DAY: i64 = 86400;

#[test]
fn one_day_small_principal_rounds_down_to_zero() {
    // floor(500 * 10 * 1 / 36500) == 0: one day at 10 percent on 500 rounds
    // down to nothing.
    assert_eq!(compute_reward(500, DAY, 10), Ok(0));
}

#[test]
fn full_year_pays_the_annual_rate_exactly() {
    // floor(100000 * 10 * 365 / 36500) == 10000: a full year at 10 percent.
    assert_eq!(compute_reward(100_000, 365 * DAY, 10), Ok(10_000));
}

#[test]
fn one_day_at_full_rate() {
    // floor(1000000 * 100 * 1 / 36500) == 2739.
    assert_eq!(compute_reward(1_000_000, DAY, 100), Ok(2739));
}

#[test]
fn ten_days_accumulate_linearly_in_whole_days() {
    // floor(73000 * 10 * 10 / 36500) == 200, and a partial eleventh day adds
    // nothing.
    assert_eq!(compute_reward(73_000, 10 * DAY, 10), Ok(200));
    assert_eq!(compute_reward(73_000, 10 * DAY + 86399, 10), Ok(200));
}

#[test]
fn zero_principal_earns_zero() {
    assert_eq!(compute_reward(0, 365 * DAY, 50), Ok(0));
}

#[test]
fn zero_rate_earns_zero() {
    assert_eq!(compute_reward(123_456_789, 1000 * DAY, 0), Ok(0));
}

#[test]
fn less_than_one_full_day_earns_zero() {
    assert_eq!(compute_reward(u64::MAX, 86399, 100), Ok(0));
    assert_eq!(compute_reward(42, 0, 100), Ok(0));
}

#[test]
fn negative_elapsed_time_is_an_invalid_argument() {
    assert_eq!(compute_reward(100, -1, 10), Err(StakingError::InvalidArgument));
    assert_eq!(compute_reward(0, i64::MIN, 0), Err(StakingError::InvalidArgument));
}

#[test]
fn a_reward_too_large_for_the_result_type_is_a_calculation_error() {
    assert_eq!(
        compute_reward(u64::MAX, i64::MAX, 100),
        Err(StakingError::CalculationError)
    );
}
