use vstd::prelude::*;
use crate::errors::StakingError;
use crate::reward::spec_reward;
use crate::state::{Account, LedgerView, PoolView, Position, RedeemOutcome, TransferRequest};

verus! {

/// The timestamp a new position records: the caller-supplied override when
/// one is given (for deterministic testing), the clock's current time
/// otherwise.
pub open spec fn stake_time(now_override: Option<i64>, clock_now: i64) -> i64 {
    match now_override {
        Some(t) => t,
        None => clock_now,
    }
}

/// What creating a pool does to a ledger: refuses an identity that already
/// exists or a rate above 100 percent, and otherwise appends a pool with an
/// empty reward budget and no positions.
pub open spec fn spec_initialize_pool(
    v: LedgerView,
    pool_id: u64,
    admin: u64,
    token_identifier: u64,
    reward_rate: u8,
    min_staking_duration: u64,
) -> (LedgerView, Result<(), StakingError>) {
    if v.has_pool(pool_id) {
        (v, Err(StakingError::AlreadyExists))
    } else if reward_rate > 100 {
        (v, Err(StakingError::InvalidArgument))
    } else {
        let new_pool = PoolView {
            pool_id,
            admin,
            token_identifier,
            reward_rate,
            reward_budget: 0,
            min_staking_duration,
            positions: Seq::empty(),
        };
        (LedgerView { pools: v.pools.push(new_pool) }, Ok(()))
    }
}

/// What funding does to a ledger: only the pool's administrator may fund,
/// only by a positive amount, and only while the budget stays representable;
/// on success the reward budget grows by the amount and the administrator
/// owes the pool's custody a transfer of it.
pub open spec fn spec_fund(v: LedgerView, pool_id: u64, funder: u64, amount: u64) -> (
    LedgerView,
    Result<TransferRequest, StakingError>,
) {
    if !v.has_pool(pool_id) {
        (v, Err(StakingError::InvalidArgument))
    } else {
        let i = v.pool_index(pool_id);
        let pool = v.pools[i];
        if funder != pool.admin {
            (v, Err(StakingError::Unauthorized))
        } else if amount == 0 {
            (v, Err(StakingError::InvalidArgument))
        } else if pool.reward_budget + amount > u64::MAX {
            (v, Err(StakingError::CalculationError))
        } else {
            let new_pool = PoolView { reward_budget: pool.reward_budget + amount, ..pool };
            (
                LedgerView { pools: v.pools.update(i, new_pool) },
                Ok(
                    TransferRequest {
                        from: Account::User(funder),
                        to: Account::PoolCustody(pool_id),
                        amount,
                    },
                ),
            )
        }
    }
}

/// What staking does to a ledger: the user must hold no active position in
/// the pool, the amount must be positive and the declared token must match
/// the pool's; on success a position opens at the override time (or the
/// clock's) and the user owes the pool's custody the staked amount.
pub open spec fn spec_stake(
    v: LedgerView,
    pool_id: u64,
    user: u64,
    token_identifier: u64,
    amount: u64,
    now_override: Option<i64>,
    clock_now: i64,
) -> (LedgerView, Result<TransferRequest, StakingError>) {
    if !v.has_pool(pool_id) {
        (v, Err(StakingError::InvalidArgument))
    } else {
        let i = v.pool_index(pool_id);
        let pool = v.pools[i];
        if pool.has_position(user) {
            (v, Err(StakingError::AlreadyStaked))
        } else if amount == 0 {
            (v, Err(StakingError::InvalidArgument))
        } else if token_identifier != pool.token_identifier {
            (v, Err(StakingError::InvalidArgument))
        } else {
            let position = Position {
                user,
                principal: amount,
                opened_at: stake_time(now_override, clock_now),
            };
            let new_pool = PoolView { positions: pool.positions.push(position), ..pool };
            (
                LedgerView { pools: v.pools.update(i, new_pool) },
                Ok(
                    TransferRequest {
                        from: Account::User(user),
                        to: Account::PoolCustody(pool_id),
                        amount,
                    },
                ),
            )
        }
    }
}

/// What redemption does to a ledger. The user must hold an active position;
/// the elapsed time must be representable and non-negative; an unforced
/// redemption must meet the pool's minimum duration and be fully covered by
/// the reward budget, while a forced one accepts a reward clamped to the
/// budget. On success the budget shrinks by exactly the reward paid, the
/// position is removed, and the pool's custody owes the user principal plus
/// reward.
pub open spec fn spec_redeem(v: LedgerView, pool_id: u64, user: u64, force: bool, now: i64) -> (
    LedgerView,
    Result<RedeemOutcome, StakingError>,
) {
    if !v.has_pool(pool_id) {
        (v, Err(StakingError::InvalidArgument))
    } else {
        let i = v.pool_index(pool_id);
        let pool = v.pools[i];
        if !pool.has_position(user) {
            (v, Err(StakingError::NothingStaked))
        } else {
            let j = pool.position_index(user);
            let position = pool.positions[j];
            if now < position.opened_at {
                (v, Err(StakingError::InvalidArgument))
            } else if now - position.opened_at > i64::MAX {
                (v, Err(StakingError::CalculationError))
            } else {
                let elapsed = now - position.opened_at;
                if !force && elapsed < pool.min_staking_duration {
                    (v, Err(StakingError::DurationNotMet))
                } else {
                    let reward_full = spec_reward(
                        position.principal as int,
                        elapsed,
                        pool.reward_rate as int,
                    );
                    if reward_full > u64::MAX {
                        (v, Err(StakingError::CalculationError))
                    } else if !force && pool.reward_budget < reward_full {
                        (v, Err(StakingError::InsufficientRewardFunds))
                    } else {
                        let reward_paid = if reward_full <= pool.reward_budget {
                            reward_full
                        } else {
                            pool.reward_budget
                        };
                        let total = position.principal + reward_paid;
                        if total > u64::MAX {
                            (v, Err(StakingError::CalculationError))
                        } else {
                            let new_pool = PoolView {
                                reward_budget: pool.reward_budget - reward_paid,
                                positions: pool.positions.remove(j),
                                ..pool
                            };
                            (
                                LedgerView { pools: v.pools.update(i, new_pool) },
                                Ok(
                                    RedeemOutcome {
                                        transfer: TransferRequest {
                                            from: Account::PoolCustody(pool_id),
                                            to: Account::User(user),
                                            amount: total as u64,
                                        },
                                        reward_paid: reward_paid as u64,
                                    },
                                ),
                            )
                        }
                    }
                }
            }
        }
    }
}

/// One ledger operation, for stating what holds across arbitrary call
/// sequences. Each executable operation of `StakingLedger` ensures that its
/// final view equals the corresponding transition applied to its old view,
/// so whatever `spec_step` preserves holds of every history of calls.
pub enum LedgerOp {
    InitializePool {
        pool_id: u64,
        admin: u64,
        token_identifier: u64,
        reward_rate: u8,
        min_staking_duration: u64,
    },
    Fund { pool_id: u64, funder: u64, amount: u64 },
    Stake {
        pool_id: u64,
        user: u64,
        token_identifier: u64,
        amount: u64,
        now_override: Option<i64>,
        clock_now: i64,
    },
    Redeem { pool_id: u64, user: u64, force: bool, now: i64 },
}

/// The state an operation leaves behind; a failed operation leaves the
/// ledger exactly as it was.
pub open spec fn spec_step(v: LedgerView, op: LedgerOp) -> LedgerView {
    match op {
        LedgerOp::InitializePool {
            pool_id,
            admin,
            token_identifier,
            reward_rate,
            min_staking_duration,
        } => spec_initialize_pool(
            v,
            pool_id,
            admin,
            token_identifier,
            reward_rate,
            min_staking_duration,
        ).0,
        LedgerOp::Fund { pool_id, funder, amount } => spec_fund(v, pool_id, funder, amount).0,
        LedgerOp::Stake { pool_id, user, token_identifier, amount, now_override, clock_now } => spec_stake(
            v,
            pool_id,
            user,
            token_identifier,
            amount,
            now_override,
            clock_now,
        ).0,
        LedgerOp::Redeem { pool_id, user, force, now } => spec_redeem(v, pool_id, user, force, now).0,
    }
}

/// The state after a whole sequence of operations, applied left to right.
pub open spec fn apply_ops(v: LedgerView, ops: Seq<LedgerOp>) -> LedgerView
    decreases ops.len(),
{
    if ops.len() == 0 {
        v
    } else {
        apply_ops(spec_step(v, ops[0]), ops.drop_first())
    }
}

/// Creating a pool preserves the ledger invariant.
pub proof fn lemma_initialize_pool_preserves_wf(
    v: LedgerView,
    pool_id: u64,
    admin: u64,
    token_identifier: u64,
    reward_rate: u8,
    min_staking_duration: u64,
)
    requires
        v.wf(),
    ensures
        spec_initialize_pool(v, pool_id, admin, token_identifier, reward_rate, min_staking_duration).0.wf(),
{
    if !v.has_pool(pool_id) && reward_rate <= 100 {
        let w = spec_initialize_pool(
            v,
            pool_id,
            admin,
            token_identifier,
            reward_rate,
            min_staking_duration,
        ).0;
        assert forall|i: int| 0 <= i < w.pools.len() implies (#[trigger] w.pools[i]).wf() by {
            if i < v.pools.len() {
                assert(w.pools[i] == v.pools[i]);
            }
        }
        assert forall|i: int, j: int| 0 <= i < j < w.pools.len() implies w.pools[i].pool_id
            != w.pools[j].pool_id by {
            if j < v.pools.len() {
                assert(v.pools[i].pool_id != v.pools[j].pool_id);
            } else {
                assert(!(exists|k: int|
                    0 <= k < v.pools.len() && (#[trigger] v.pools[k]).pool_id == pool_id));
                assert(w.pools[i] == v.pools[i]);
            }
        }
    }
}

/// Funding preserves the ledger invariant.
pub proof fn lemma_fund_preserves_wf(v: LedgerView, pool_id: u64, funder: u64, amount: u64)
    requires
        v.wf(),
    ensures
        spec_fund(v, pool_id, funder, amount).0.wf(),
{
    let w = spec_fund(v, pool_id, funder, amount).0;
    if w != v {
        let i = v.pool_index(pool_id);
        assert(v.pools[i].wf());
        assert forall|k: int| 0 <= k < w.pools.len() implies (#[trigger] w.pools[k]).wf() by {
            if k != i {
                assert(w.pools[k] == v.pools[k]);
            }
        }
        assert forall|k: int, l: int| 0 <= k < l < w.pools.len() implies w.pools[k].pool_id
            != w.pools[l].pool_id by {
            assert(v.pools[k].pool_id != v.pools[l].pool_id);
            assert(w.pools[k].pool_id == v.pools[k].pool_id);
            assert(w.pools[l].pool_id == v.pools[l].pool_id);
        }
    }
}

/// Staking preserves the ledger invariant; in particular a user who already
/// holds a position is refused, so no pool ever holds two positions of one
/// user.
pub proof fn lemma_stake_preserves_wf(
    v: LedgerView,
    pool_id: u64,
    user: u64,
    token_identifier: u64,
    amount: u64,
    now_override: Option<i64>,
    clock_now: i64,
)
    requires
        v.wf(),
    ensures
        spec_stake(v, pool_id, user, token_identifier, amount, now_override, clock_now).0.wf(),
{
    let w = spec_stake(v, pool_id, user, token_identifier, amount, now_override, clock_now).0;
    if w != v {
        let i = v.pool_index(pool_id);
        let pool = v.pools[i];
        let new_pool = w.pools[i];
        assert(pool.wf());
        assert forall|m: int| 0 <= m < new_pool.positions.len() implies (#[trigger] new_pool.positions[m]).principal
            > 0 by {
            if m < pool.positions.len() {
                assert(new_pool.positions[m] == pool.positions[m]);
            }
        }
        assert forall|m: int, n: int| 0 <= m < n < new_pool.positions.len() implies new_pool.positions[m].user
            != new_pool.positions[n].user by {
            if n < pool.positions.len() {
                assert(new_pool.positions[m] == pool.positions[m]);
                assert(new_pool.positions[n] == pool.positions[n]);
            } else {
                assert(!(exists|k: int|
                    0 <= k < pool.positions.len() && (#[trigger] pool.positions[k]).user == user));
                assert(new_pool.positions[m] == pool.positions[m]);
            }
        }
        assert(new_pool.wf());
        assert forall|k: int| 0 <= k < w.pools.len() implies (#[trigger] w.pools[k]).wf() by {
            if k != i {
                assert(w.pools[k] == v.pools[k]);
            }
        }
        assert forall|k: int, l: int| 0 <= k < l < w.pools.len() implies w.pools[k].pool_id
            != w.pools[l].pool_id by {
            assert(v.pools[k].pool_id != v.pools[l].pool_id);
            assert(w.pools[k].pool_id == v.pools[k].pool_id);
            assert(w.pools[l].pool_id == v.pools[l].pool_id);
        }
    }
}

/// Redemption preserves the ledger invariant; in particular the reward paid
/// never exceeds the budget, so the budget never goes negative.
pub proof fn lemma_redeem_preserves_wf(v: LedgerView, pool_id: u64, user: u64, force: bool, now: i64)
    requires
        v.wf(),
    ensures
        spec_redeem(v, pool_id, user, force, now).0.wf(),
{
    let w = spec_redeem(v, pool_id, user, force, now).0;
    if w != v {
        let i = v.pool_index(pool_id);
        let pool = v.pools[i];
        let j = pool.position_index(user);
        let new_pool = w.pools[i];
        assert(pool.wf());
        pool.positions.remove_ensures(j);
        assert forall|m: int| 0 <= m < new_pool.positions.len() implies (#[trigger] new_pool.positions[m]).principal
            > 0 by {
            if m < j {
                assert(new_pool.positions[m] == pool.positions[m]);
            } else {
                assert(new_pool.positions[m] == pool.positions[m + 1]);
            }
        }
        assert forall|m: int, n: int| 0 <= m < n < new_pool.positions.len() implies new_pool.positions[m].user
            != new_pool.positions[n].user by {
            let m0 = if m < j { m } else { m + 1 };
            let n0 = if n < j { n } else { n + 1 };
            assert(new_pool.positions[m] == pool.positions[m0]);
            assert(new_pool.positions[n] == pool.positions[n0]);
            assert(pool.positions[m0].user != pool.positions[n0].user);
        }
        assert(new_pool.wf());
        assert forall|k: int| 0 <= k < w.pools.len() implies (#[trigger] w.pools[k]).wf() by {
            if k != i {
                assert(w.pools[k] == v.pools[k]);
            }
        }
        assert forall|k: int, l: int| 0 <= k < l < w.pools.len() implies w.pools[k].pool_id
            != w.pools[l].pool_id by {
            assert(v.pools[k].pool_id != v.pools[l].pool_id);
            assert(w.pools[k].pool_id == v.pools[k].pool_id);
            assert(w.pools[l].pool_id == v.pools[l].pool_id);
        }
    }
}

/// Every single operation preserves the ledger invariant.
pub proof fn lemma_step_preserves_wf(v: LedgerView, op: LedgerOp)
    requires
        v.wf(),
    ensures
        spec_step(v, op).wf(),
{
    match op {
        LedgerOp::InitializePool {
            pool_id,
            admin,
            token_identifier,
            reward_rate,
            min_staking_duration,
        } => lemma_initialize_pool_preserves_wf(
            v,
            pool_id,
            admin,
            token_identifier,
            reward_rate,
            min_staking_duration,
        ),
        LedgerOp::Fund { pool_id, funder, amount } => lemma_fund_preserves_wf(
            v,
            pool_id,
            funder,
            amount,
        ),
        LedgerOp::Stake { pool_id, user, token_identifier, amount, now_override, clock_now } => lemma_stake_preserves_wf(
            v,
            pool_id,
            user,
            token_identifier,
            amount,
            now_override,
            clock_now,
        ),
        LedgerOp::Redeem { pool_id, user, force, now } => lemma_redeem_preserves_wf(
            v,
            pool_id,
            user,
            force,
            now,
        ),
    }
}

/// The ledger invariant holds after any whole sequence of operations.
pub proof fn lemma_apply_ops_wf(v: LedgerView, ops: Seq<LedgerOp>)
    requires
        v.wf(),
    ensures
        apply_ops(v, ops).wf(),
    decreases ops.len(),
{
    if ops.len() > 0 {
        lemma_step_preserves_wf(v, ops[0]);
        lemma_apply_ops_wf(spec_step(v, ops[0]), ops.drop_first());
    }
}

/// The ledger invariant holds in every intermediate state of any sequence of
/// operations.
pub proof fn lemma_wf_across_ops(v: LedgerView, ops: Seq<LedgerOp>)
    requires
        v.wf(),
    ensures
        forall|k: int| 0 <= k <= ops.len() ==> #[trigger] apply_ops(v, ops.take(k)).wf(),
{
    assert forall|k: int| 0 <= k <= ops.len() implies #[trigger] apply_ops(v, ops.take(k)).wf() by {
        lemma_apply_ops_wf(v, ops.take(k));
    }
}

/// Across any sequence of operations applied to a well-formed ledger, no
/// pool's reward budget ever goes negative: funding only adds to the budget,
/// and a redemption never pays out more reward than the budget holds.
pub proof fn lemma_budget_never_negative(v: LedgerView, ops: Seq<LedgerOp>)
    requires
        v.wf(),
    ensures
        forall|k: int, i: int|
            0 <= k <= ops.len() && 0 <= i < apply_ops(v, ops.take(k)).pools.len()
                ==> (#[trigger] apply_ops(v, ops.take(k)).pools[i]).reward_budget >= 0,
{
    lemma_wf_across_ops(v, ops);
    assert forall|k: int, i: int|
        0 <= k <= ops.len() && 0 <= i < apply_ops(v, ops.take(k)).pools.len() implies (
    #[trigger] apply_ops(v, ops.take(k)).pools[i]).reward_budget >= 0 by {
        assert(apply_ops(v, ops.take(k)).wf());
        assert(apply_ops(v, ops.take(k)).pools[i].wf());
    }
}

/// Across any sequence of operations applied to a well-formed ledger, at most
/// one active position exists per (pool, user) pair in every intermediate
/// state: two distinct positions of one pool always belong to distinct users.
pub proof fn lemma_at_most_one_position(v: LedgerView, ops: Seq<LedgerOp>)
    requires
        v.wf(),
    ensures
        forall|k: int, i: int, m: int, n: int|
            0 <= k <= ops.len() && 0 <= i < apply_ops(v, ops.take(k)).pools.len() && 0 <= m < n
                < apply_ops(v, ops.take(k)).pools[i].positions.len()
                ==> (#[trigger] apply_ops(v, ops.take(k)).pools[i].positions[m]).user != (
            #[trigger] apply_ops(v, ops.take(k)).pools[i].positions[n]).user,
{
    lemma_wf_across_ops(v, ops);
    assert forall|k: int, i: int, m: int, n: int|
        0 <= k <= ops.len() && 0 <= i < apply_ops(v, ops.take(k)).pools.len() && 0 <= m < n
            < apply_ops(v, ops.take(k)).pools[i].positions.len() implies (
    #[trigger] apply_ops(v, ops.take(k)).pools[i].positions[m]).user != (
    #[trigger] apply_ops(v, ops.take(k)).pools[i].positions[n]).user by {
        assert(apply_ops(v, ops.take(k)).wf());
        assert(apply_ops(v, ops.take(k)).pools[i].wf());
    }
}

} // verus!
