use vstd::prelude::*;

verus! {

/// One user's active stake in a pool: the amount locked and the timestamp at
/// which it was locked. A position only exists while its principal is
/// positive; redemption removes the record entirely.
#[derive(Clone, Copy, Debug, PartialEq, Eq, Structural)]
pub struct Position {
    /// The staking user's identity.
    pub user: u64,
    /// The amount currently staked; always positive while the record exists.
    pub principal: u64,
    /// The timestamp (seconds) recorded when the position was opened.
    pub opened_at: i64,
}

/// A party in a requested value transfer: either a user's external balance or
/// the custody balance a pool holds as collateral.
#[derive(Clone, Copy, Debug, PartialEq, Eq, Hash, Structural)]
pub enum Account {
    /// A user's (or the administrator's) own balance.
    User(u64),
    /// The custody balance of the pool with this identity.
    PoolCustody(u64),
}

/// A transfer the external balance store must execute for an operation to
/// take effect. The ledger never moves value itself; the host performs the
/// transfer and discards the staged ledger state if the transfer fails.
#[derive(Clone, Copy, Debug, PartialEq, Eq, Structural)]
pub struct TransferRequest {
    pub from: Account,
    pub to: Account,
    pub amount: u64,
}

/// What a successful redemption settles: the transfer returning principal
/// plus reward to the user, and the reward share of that total.
#[derive(Clone, Copy, Debug, PartialEq, Eq, Structural)]
pub struct RedeemOutcome {
    /// Pays `principal + reward_paid` from pool custody back to the user.
    pub transfer: TransferRequest,
    /// The reward actually paid, clamped to the budget on a forced
    /// redemption.
    pub reward_paid: u64,
}

/// One staking pool: its configuration, its reward budget and the active
/// positions of its users.
#[derive(Clone, Debug, PartialEq, Eq)]
pub struct Pool {
    /// The pool's identity, unique within a ledger.
    pub pool_id: u64,
    /// The identity authorized to fund the reward budget.
    pub admin: u64,
    /// The value unit this pool accepts; every stake must declare it.
    pub token_identifier: u64,
    /// Annual yield in whole percent, between 0 and 100.
    pub reward_rate: u8,
    /// The amount still available to pay rewards; increased only by funding,
    /// decreased only by redemptions, and never below zero.
    pub reward_budget: u64,
    /// Minimum seconds a position must stand before unforced redemption.
    pub min_staking_duration: u64,
    /// The active positions, at most one per user.
    pub positions: Vec<Position>,
}

/// The mathematical value of a `Pool`: the same fields with the positions as
/// a sequence and the budget as an unbounded integer, so that invariants and
/// transitions can be stated without fixed-width arithmetic.
#[verifier::ext_equal]
pub struct PoolView {
    pub pool_id: u64,
    pub admin: u64,
    pub token_identifier: u64,
    pub reward_rate: u8,
    pub reward_budget: int,
    pub min_staking_duration: u64,
    pub positions: Seq<Position>,
}

impl PoolView {
    /// Whether `user` holds an active position in this pool.
    pub open spec fn has_position(self, user: u64) -> bool {
        exists|i: int|
            0 <= i < self.positions.len() && (#[trigger] self.positions[i]).user == user
    }

    /// The index of `user`'s position; meaningful only when `has_position`
    /// holds, and unique under `wf`.
    pub open spec fn position_index(self, user: u64) -> int {
        choose|i: int|
            0 <= i < self.positions.len() && (#[trigger] self.positions[i]).user == user
    }

    /// `user`'s active position; meaningful only when `has_position` holds.
    pub open spec fn position_of(self, user: u64) -> Position {
        self.positions[self.position_index(user)]
    }

    /// The pool's invariant: the rate is a percentage, the budget is
    /// non-negative and representable, every stored position is active
    /// (positive principal), and no user appears twice — at most one active
    /// position per (pool, user) pair.
    pub open spec fn wf(self) -> bool {
        &&& self.reward_rate <= 100
        &&& 0 <= self.reward_budget <= u64::MAX
        &&& forall|i: int|
            0 <= i < self.positions.len() ==> (#[trigger] self.positions[i]).principal > 0
        &&& forall|i: int, j: int|
            0 <= i < j < self.positions.len() ==> self.positions[i].user != self.positions[j].user
    }
}

impl View for Pool {
    type V = PoolView;

    open spec fn view(&self) -> PoolView {
        PoolView {
            pool_id: self.pool_id,
            admin: self.admin,
            token_identifier: self.token_identifier,
            reward_rate: self.reward_rate,
            reward_budget: self.reward_budget as int,
            min_staking_duration: self.min_staking_duration,
            positions: self.positions@,
        }
    }
}

/// The whole staking ledger: a keyed store of pools.
#[derive(Clone, Debug, PartialEq, Eq)]
pub struct StakingLedger {
    /// The pools, with pairwise distinct identities.
    pub pools: Vec<Pool>,
}

/// The mathematical value of a `StakingLedger`: its pools as a sequence of
/// `PoolView`s.
#[verifier::ext_equal]
pub struct LedgerView {
    pub pools: Seq<PoolView>,
}

impl LedgerView {
    /// Whether a pool with this identity exists.
    pub open spec fn has_pool(self, pool_id: u64) -> bool {
        exists|i: int| 0 <= i < self.pools.len() && (#[trigger] self.pools[i]).pool_id == pool_id
    }

    /// The index of the pool with this identity; meaningful only when
    /// `has_pool` holds, and unique under `wf`.
    pub open spec fn pool_index(self, pool_id: u64) -> int {
        choose|i: int| 0 <= i < self.pools.len() && (#[trigger] self.pools[i]).pool_id == pool_id
    }

    /// The pool with this identity; meaningful only when `has_pool` holds.
    pub open spec fn pool_of(self, pool_id: u64) -> PoolView {
        self.pools[self.pool_index(pool_id)]
    }

    /// The ledger's invariant: every pool is well formed and pool identities
    /// are pairwise distinct.
    pub open spec fn wf(self) -> bool {
        &&& forall|i: int| 0 <= i < self.pools.len() ==> (#[trigger] self.pools[i]).wf()
        &&& forall|i: int, j: int|
            0 <= i < j < self.pools.len() ==> self.pools[i].pool_id != self.pools[j].pool_id
    }
}

impl View for StakingLedger {
    type V = LedgerView;

    open spec fn view(&self) -> LedgerView {
        LedgerView { pools: self.pools@.map_values(|p: Pool| p@) }
    }
}

/// Under `wf`, a pool's identity determines its index: any position in the
/// sequence holding that identity is the one `pool_index` picks.
pub proof fn lemma_pool_index_agrees(v: LedgerView, i: int)
    requires
        v.wf(),
        0 <= i < v.pools.len(),
    ensures
        v.has_pool(v.pools[i].pool_id),
        v.pool_index(v.pools[i].pool_id) == i,
{
    let pool_id = v.pools[i].pool_id;
    assert(v.has_pool(pool_id));
    let j = v.pool_index(pool_id);
    if i < j {
        assert(v.pools[i].pool_id != v.pools[j].pool_id);
    } else if j < i {
        assert(v.pools[j].pool_id != v.pools[i].pool_id);
    }
}

/// Under `wf`, a user determines the index of their position: any index
/// holding that user is the one `position_index` picks.
pub proof fn lemma_position_index_agrees(p: PoolView, i: int)
    requires
        p.wf(),
        0 <= i < p.positions.len(),
    ensures
        p.has_position(p.positions[i].user),
        p.position_index(p.positions[i].user) == i,
{
    let user = p.positions[i].user;
    assert(p.has_position(user));
    let j = p.position_index(user);
    if i < j {
        assert(p.positions[i].user != p.positions[j].user);
    } else if j < i {
        assert(p.positions[j].user != p.positions[i].user);
    }
}

} // verus!
