use staking_ledger::errors::StakingError;
use staking_ledger::state::{Account, StakingLedger};

const DAY: i64 = 86400;

// Identities used throughout: small numbers for users, the bytes of "TOK"
// packed into an integer for the value unit.
const ADMIN: u64 = 1;
const ALICE: u64 = 2;
const BOB: u64 = 3;
const CAROL: u64 = 4;
const POOL: u64 = 100;
const TOK: u64 = 0x544F4B;

fn pool_with_budget(rate: u8, min_duration: u64, budget: u64) -> StakingLedger {
    let mut ledger = StakingLedger::new();
    assert_eq!(ledger.initialize_pool(POOL, ADMIN, TOK, rate, min_duration), Ok(()));
    if budget > 0 {
        let transfer = ledger.fund(POOL, ADMIN, budget).unwrap();
        assert_eq!(transfer.from, Account::User(ADMIN));
        assert_eq!(transfer.to, Account::PoolCustody(POOL));
        assert_eq!(transfer.amount, budget);
    }
    ledger
}

#[test]
fn fund_stake_redeem_after_one_day() {
    let mut ledger = pool_with_budget(10, 0, 1000);
    assert_eq!(ledger.get_pool(POOL).unwrap().reward_budget, 1000);

    let transfer = ledger.stake(POOL, ALICE, TOK, 500, Some(0), 0).unwrap();
    assert_eq!(transfer.from, Account::User(ALICE));
    assert_eq!(transfer.to, Account::PoolCustody(POOL));
    assert_eq!(transfer.amount, 500);
    let position = ledger.get_position(POOL, ALICE).unwrap();
    assert_eq!(position.principal, 500);
    assert_eq!(position.opened_at, 0);

    // One day at 10 percent on 500: floor(500 * 10 * 1 / 36500) == 0, the
    // formula's literal output under the fixed-point policy.
    let outcome = ledger.redeem(POOL, ALICE, false, DAY).unwrap();
    assert_eq!(outcome.reward_paid, 0);
    assert_eq!(outcome.transfer.from, Account::PoolCustody(POOL));
    assert_eq!(outcome.transfer.to, Account::User(ALICE));
    assert_eq!(outcome.transfer.amount, 500);
    // The budget decreases by exactly the reward paid, and the position is
    // gone.
    assert_eq!(ledger.get_pool(POOL).unwrap().reward_budget, 1000);
    assert_eq!(ledger.get_position(POOL, ALICE), None);
}

#[test]
fn a_redemption_with_a_positive_reward_debits_the_budget_exactly() {
    let mut ledger = pool_with_budget(10, 0, 1000);
    // Ten days at 10 percent on 73000: floor(73000 * 10 * 10 / 36500) == 200.
    ledger.stake(POOL, ALICE, TOK, 73_000, Some(0), 0).unwrap();
    let outcome = ledger.redeem(POOL, ALICE, false, 10 * DAY).unwrap();
    assert_eq!(outcome.reward_paid, 200);
    assert_eq!(outcome.transfer.amount, 73_200);
    assert_eq!(ledger.get_pool(POOL).unwrap().reward_budget, 800);
}

#[test]
fn double_stake_is_refused_and_changes_nothing() {
    let mut ledger = pool_with_budget(10, 0, 0);
    ledger.stake(POOL, BOB, TOK, 100, Some(0), 0).unwrap();
    let before = ledger.clone();
    assert_eq!(
        ledger.stake(POOL, BOB, TOK, 50, Some(10), 10),
        Err(StakingError::AlreadyStaked)
    );
    assert_eq!(ledger, before);
    assert_eq!(ledger.get_position(POOL, BOB).unwrap().principal, 100);
}

#[test]
fn minimum_duration_blocks_unforced_redemption_only() {
    let mut ledger = pool_with_budget(10, DAY as u64, 0);
    ledger.stake(POOL, CAROL, TOK, 100, Some(0), 0).unwrap();
    assert_eq!(
        ledger.redeem(POOL, CAROL, false, 100),
        Err(StakingError::DurationNotMet)
    );
    // A forced redemption bypasses the duration rule; 100 seconds is zero
    // whole days, so the reward is zero and exactly the principal returns.
    let outcome = ledger.redeem(POOL, CAROL, true, 100).unwrap();
    assert_eq!(outcome.reward_paid, 0);
    assert_eq!(outcome.transfer.amount, 100);
    assert_eq!(ledger.get_position(POOL, CAROL), None);
}

#[test]
fn underfunded_pool_clamps_forced_and_refuses_unforced() {
    // One day at 10 percent on 73000 computes a reward of 20, but the budget
    // holds only 5.
    let mut ledger = pool_with_budget(10, 0, 5);
    ledger.stake(POOL, ALICE, TOK, 73_000, Some(0), 0).unwrap();

    let unforced = ledger.clone();
    let outcome = ledger.redeem(POOL, ALICE, true, DAY).unwrap();
    assert_eq!(outcome.reward_paid, 5);
    assert_eq!(outcome.transfer.amount, 73_005);
    assert_eq!(ledger.get_pool(POOL).unwrap().reward_budget, 0);

    // Under the identical setup, an unforced redemption fails and leaves
    // every record exactly as it was.
    let mut ledger = unforced;
    let before = ledger.clone();
    assert_eq!(
        ledger.redeem(POOL, ALICE, false, DAY),
        Err(StakingError::InsufficientRewardFunds)
    );
    assert_eq!(ledger, before);
    assert_eq!(ledger.get_pool(POOL).unwrap().reward_budget, 5);
    assert_eq!(ledger.get_position(POOL, ALICE).unwrap().principal, 73_000);
}

#[test]
fn creating_the_same_pool_twice_is_refused() {
    let mut ledger = StakingLedger::new();
    assert_eq!(ledger.initialize_pool(POOL, ADMIN, TOK, 10, 0), Ok(()));
    let before = ledger.clone();
    assert_eq!(
        ledger.initialize_pool(POOL, ADMIN, TOK, 25, 7),
        Err(StakingError::AlreadyExists)
    );
    assert_eq!(ledger, before);
}

#[test]
fn a_rate_above_one_hundred_percent_is_refused() {
    let mut ledger = StakingLedger::new();
    assert_eq!(
        ledger.initialize_pool(POOL, ADMIN, TOK, 101, 0),
        Err(StakingError::InvalidArgument)
    );
    assert_eq!(ledger.get_pool(POOL), None);
}

#[test]
fn only_the_admin_may_fund() {
    let mut ledger = pool_with_budget(10, 0, 0);
    assert_eq!(ledger.fund(POOL, ALICE, 1000), Err(StakingError::Unauthorized));
    assert_eq!(ledger.get_pool(POOL).unwrap().reward_budget, 0);
}

#[test]
fn funding_nothing_or_an_unknown_pool_is_an_invalid_argument() {
    let mut ledger = pool_with_budget(10, 0, 0);
    assert_eq!(ledger.fund(POOL, ADMIN, 0), Err(StakingError::InvalidArgument));
    assert_eq!(ledger.fund(POOL + 1, ADMIN, 10), Err(StakingError::InvalidArgument));
}

#[test]
fn overflowing_the_budget_is_a_calculation_error() {
    let mut ledger = pool_with_budget(10, 0, 0);
    ledger.fund(POOL, ADMIN, u64::MAX).unwrap();
    let before = ledger.clone();
    assert_eq!(ledger.fund(POOL, ADMIN, 1), Err(StakingError::CalculationError));
    assert_eq!(ledger, before);
}

#[test]
fn staking_checks_amount_token_and_pool() {
    let mut ledger = pool_with_budget(10, 0, 0);
    assert_eq!(
        ledger.stake(POOL, ALICE, TOK, 0, Some(0), 0),
        Err(StakingError::InvalidArgument)
    );
    assert_eq!(
        ledger.stake(POOL, ALICE, TOK + 1, 100, Some(0), 0),
        Err(StakingError::InvalidArgument)
    );
    assert_eq!(
        ledger.stake(POOL + 1, ALICE, TOK, 100, Some(0), 0),
        Err(StakingError::InvalidArgument)
    );
    assert_eq!(ledger.get_position(POOL, ALICE), None);
}

#[test]
fn staking_without_an_override_records_the_clock_time() {
    let mut ledger = pool_with_budget(10, 0, 0);
    ledger.stake(POOL, ALICE, TOK, 100, None, 12345).unwrap();
    assert_eq!(ledger.get_position(POOL, ALICE).unwrap().opened_at, 12345);
}

#[test]
fn redeeming_without_a_stake_is_refused() {
    let mut ledger = pool_with_budget(10, 0, 100);
    assert_eq!(ledger.redeem(POOL, ALICE, false, DAY), Err(StakingError::NothingStaked));
    assert_eq!(
        ledger.redeem(POOL + 1, ALICE, false, DAY),
        Err(StakingError::InvalidArgument)
    );
}

#[test]
fn a_negative_elapsed_time_is_an_invalid_argument() {
    let mut ledger = pool_with_budget(10, 0, 100);
    ledger.stake(POOL, ALICE, TOK, 100, Some(1000), 0).unwrap();
    let before = ledger.clone();
    assert_eq!(ledger.redeem(POOL, ALICE, false, 999), Err(StakingError::InvalidArgument));
    assert_eq!(ledger, before);
}

#[test]
fn an_unrepresentable_elapsed_time_is_a_calculation_error() {
    let mut ledger = pool_with_budget(10, 0, 100);
    ledger.stake(POOL, ALICE, TOK, 100, Some(-2), 0).unwrap();
    assert_eq!(
        ledger.redeem(POOL, ALICE, false, i64::MAX),
        Err(StakingError::CalculationError)
    );
}

#[test]
fn a_total_payout_too_large_for_the_ledger_is_a_calculation_error() {
    let mut ledger = pool_with_budget(100, 0, 10);
    ledger.stake(POOL, ALICE, TOK, u64::MAX, Some(0), 0).unwrap();
    let before = ledger.clone();
    // The clamped reward of 10 cannot be added to a principal of u64::MAX.
    assert_eq!(ledger.redeem(POOL, ALICE, true, DAY), Err(StakingError::CalculationError));
    assert_eq!(ledger, before);
}

#[test]
fn distinct_users_hold_independent_positions_in_one_pool() {
    let mut ledger = pool_with_budget(10, 0, 1000);
    ledger.stake(POOL, ALICE, TOK, 100, Some(0), 0).unwrap();
    ledger.stake(POOL, BOB, TOK, 200, Some(5), 0).unwrap();
    assert_eq!(ledger.get_position(POOL, ALICE).unwrap().principal, 100);
    assert_eq!(ledger.get_position(POOL, BOB).unwrap().principal, 200);
    ledger.redeem(POOL, ALICE, false, 100).unwrap();
    assert_eq!(ledger.get_position(POOL, ALICE), None);
    assert_eq!(ledger.get_position(POOL, BOB).unwrap().principal, 200);
}

#[test]
fn one_user_may_hold_positions_in_distinct_pools() {
    let mut ledger = StakingLedger::new();
    ledger.initialize_pool(POOL, ADMIN, TOK, 10, 0).unwrap();
    ledger.initialize_pool(POOL + 1, ADMIN, TOK, 20, 0).unwrap();
    ledger.stake(POOL, ALICE, TOK, 100, Some(0), 0).unwrap();
    ledger.stake(POOL + 1, ALICE, TOK, 300, Some(0), 0).unwrap();
    assert_eq!(ledger.get_position(POOL, ALICE).unwrap().principal, 100);
    assert_eq!(ledger.get_position(POOL + 1, ALICE).unwrap().principal, 300);
}
