use vstd::prelude::*;
use crate::errors::StakingError;
use crate::reward::compute_reward;
use crate::state::{
    lemma_pool_index_agrees, lemma_position_index_agrees, Account, Pool, Position, RedeemOutcome,
    StakingLedger, TransferRequest,
};
use crate::transitions::{
    lemma_fund_preserves_wf, lemma_initialize_pool_preserves_wf, lemma_redeem_preserves_wf,
    lemma_stake_preserves_wf, spec_fund, spec_initialize_pool, spec_redeem, spec_stake,
};

verus! {

impl Pool {
    /// The index of `user`'s active position in this pool, if any.
    fn find_position(&self, user: u64) -> (found: Option<usize>)
        ensures
            match found {
                Some(j) => j < self@.positions.len() && self@.positions[j as int].user == user,
                None => !self@.has_position(user),
            },
    {
        let n = self.positions.len();
        let mut k: usize = 0;
        while k < n
            invariant
                n == self.positions.len(),
                k <= n,
                forall|m: int| 0 <= m < k ==> self@.positions[m].user != user,
            decreases n - k,
        {
            if self.positions[k].user == user {
                return Some(k);
            }
            k += 1;
        }
        None
    }
}

impl StakingLedger {
    /// An empty ledger with no pools.
    pub fn new() -> (ledger: StakingLedger)
        ensures
            ledger@.wf(),
            ledger@.pools.len() == 0,
    {
        StakingLedger { pools: Vec::new() }
    }

    /// The index of the pool with this identity, if any.
    fn find_pool(&self, pool_id: u64) -> (found: Option<usize>)
        ensures
            match found {
                Some(i) => i < self@.pools.len() && self@.pools[i as int].pool_id == pool_id,
                None => !self@.has_pool(pool_id),
            },
    {
        let n = self.pools.len();
        let mut k: usize = 0;
        while k < n
            invariant
                n == self.pools.len(),
                k <= n,
                forall|m: int| 0 <= m < k ==> self@.pools[m].pool_id != pool_id,
            decreases n - k,
        {
            if self.pools[k].pool_id == pool_id {
                return Some(k);
            }
            k += 1;
        }
        None
    }

    /// Creates a new pool with an empty reward budget and no positions.
    /// Refused when a pool with this identity already exists, or when the
    /// rate is above 100 percent. On failure the ledger is unchanged.
    pub fn initialize_pool(
        &mut self,
        pool_id: u64,
        admin: u64,
        token_identifier: u64,
        reward_rate: u8,
        min_staking_duration: u64,
    ) -> (result: Result<(), StakingError>)
        requires
            old(self)@.wf(),
        ensures
            final(self)@.wf(),
            final(self)@ == spec_initialize_pool(
                old(self)@,
                pool_id,
                admin,
                token_identifier,
                reward_rate,
                min_staking_duration,
            ).0,
            result == spec_initialize_pool(
                old(self)@,
                pool_id,
                admin,
                token_identifier,
                reward_rate,
                min_staking_duration,
            ).1,
            result is Err ==> *final(self) == *old(self),
    {
        proof {
            lemma_initialize_pool_preserves_wf(
                self@,
                pool_id,
                admin,
                token_identifier,
                reward_rate,
                min_staking_duration,
            );
        }
        if self.find_pool(pool_id).is_some() {
            return Err(StakingError::AlreadyExists);
        }
        if reward_rate > 100 {
            return Err(StakingError::InvalidArgument);
        }
        let ghost v0 = self@;
        let new_pool = Pool {
            pool_id,
            admin,
            token_identifier,
            reward_rate,
            reward_budget: 0,
            min_staking_duration,
            positions: Vec::new(),
        };
        self.pools.push(new_pool);
        proof {
            assert(self@ =~~= spec_initialize_pool(
                v0,
                pool_id,
                admin,
                token_identifier,
                reward_rate,
                min_staking_duration,
            ).0);
        }
        Ok(())
    }

    /// Adds `amount` to the pool's reward budget. Only the pool's
    /// administrator may fund, only by a positive amount, and only while the
    /// budget stays representable. On success, returns the transfer the host
    /// must execute from the funder to the pool's custody; on failure the
    /// ledger is unchanged.
    pub fn fund(&mut self, pool_id: u64, funder: u64, amount: u64) -> (result: Result<
        TransferRequest,
        StakingError,
    >)
        requires
            old(self)@.wf(),
        ensures
            final(self)@.wf(),
            final(self)@ == spec_fund(old(self)@, pool_id, funder, amount).0,
            result == spec_fund(old(self)@, pool_id, funder, amount).1,
            result is Err ==> *final(self) == *old(self),
    {
        proof {
            lemma_fund_preserves_wf(self@, pool_id, funder, amount);
        }
        let pool_i = match self.find_pool(pool_id) {
            Some(i) => i,
            None => {
                return Err(StakingError::InvalidArgument);
            },
        };
        proof {
            lemma_pool_index_agrees(self@, pool_i as int);
        }
        if funder != self.pools[pool_i].admin {
            return Err(StakingError::Unauthorized);
        }
        if amount == 0 {
            return Err(StakingError::InvalidArgument);
        }
        let new_budget = match self.pools[pool_i].reward_budget.checked_add(amount) {
            Some(b) => b,
            None => {
                return Err(StakingError::CalculationError);
            },
        };
        let ghost v0 = self@;
        let pool = &mut self.pools[pool_i];
        pool.reward_budget = new_budget;
        proof {
            assert(self@ =~~= spec_fund(v0, pool_id, funder, amount).0);
        }
        Ok(TransferRequest { from: Account::User(funder), to: Account::PoolCustody(pool_id), amount })
    }

    /// Opens a position of `amount` for `user`, recorded at the override
    /// time when one is supplied (for deterministic testing) and at the
    /// clock's current time otherwise. Refused when the user already holds a
    /// position, the amount is zero, or the declared token does not match
    /// the pool's. On success, returns the transfer the host must execute
    /// from the user to the pool's custody; on failure the ledger is
    /// unchanged.
    pub fn stake(
        &mut self,
        pool_id: u64,
        user: u64,
        token_identifier: u64,
        amount: u64,
        now_override: Option<i64>,
        clock_now: i64,
    ) -> (result: Result<TransferRequest, StakingError>)
        requires
            old(self)@.wf(),
        ensures
            final(self)@.wf(),
            final(self)@ == spec_stake(
                old(self)@,
                pool_id,
                user,
                token_identifier,
                amount,
                now_override,
                clock_now,
            ).0,
            result == spec_stake(
                old(self)@,
                pool_id,
                user,
                token_identifier,
                amount,
                now_override,
                clock_now,
            ).1,
            result is Err ==> *final(self) == *old(self),
    {
        proof {
            lemma_stake_preserves_wf(
                self@,
                pool_id,
                user,
                token_identifier,
                amount,
                now_override,
                clock_now,
            );
        }
        let pool_i = match self.find_pool(pool_id) {
            Some(i) => i,
            None => {
                return Err(StakingError::InvalidArgument);
            },
        };
        proof {
            lemma_pool_index_agrees(self@, pool_i as int);
        }
        if let Some(j) = self.pools[pool_i].find_position(user) {
            proof {
                lemma_position_index_agrees(self@.pools[pool_i as int], j as int);
            }
            return Err(StakingError::AlreadyStaked);
        }
        if amount == 0 {
            return Err(StakingError::InvalidArgument);
        }
        if token_identifier != self.pools[pool_i].token_identifier {
            return Err(StakingError::InvalidArgument);
        }
        let opened_at = match now_override {
            Some(t) => t,
            None => clock_now,
        };
        let ghost v0 = self@;
        let pool = &mut self.pools[pool_i];
        pool.positions.push(Position { user, principal: amount, opened_at });
        proof {
            assert(self@ =~~= spec_stake(
                v0,
                pool_id,
                user,
                token_identifier,
                amount,
                now_override,
                clock_now,
            ).0);
        }
        Ok(TransferRequest { from: Account::User(user), to: Account::PoolCustody(pool_id), amount })
    }

    /// Closes `user`'s position: pays back the principal plus the reward
    /// earned over the elapsed time at the pool's rate. An unforced
    /// redemption must meet the pool's minimum staking duration and be fully
    /// covered by the reward budget; a forced one bypasses the duration rule
    /// and accepts a reward clamped to whatever the budget still holds. On
    /// success, the budget shrinks by exactly the reward paid, the position
    /// is removed, and the returned outcome carries the transfer the host
    /// must execute from pool custody to the user; on failure the ledger is
    /// unchanged.
    pub fn redeem(&mut self, pool_id: u64, user: u64, force: bool, now: i64) -> (result: Result<
        RedeemOutcome,
        StakingError,
    >)
        requires
            old(self)@.wf(),
        ensures
            final(self)@.wf(),
            final(self)@ == spec_redeem(old(self)@, pool_id, user, force, now).0,
            result == spec_redeem(old(self)@, pool_id, user, force, now).1,
            result is Err ==> *final(self) == *old(self),
    {
        proof {
            lemma_redeem_preserves_wf(self@, pool_id, user, force, now);
        }
        let pool_i = match self.find_pool(pool_id) {
            Some(i) => i,
            None => {
                return Err(StakingError::InvalidArgument);
            },
        };
        proof {
            lemma_pool_index_agrees(self@, pool_i as int);
        }
        let pos_i = match self.pools[pool_i].find_position(user) {
            Some(j) => j,
            None => {
                return Err(StakingError::NothingStaked);
            },
        };
        proof {
            lemma_position_index_agrees(self@.pools[pool_i as int], pos_i as int);
        }
        let principal = self.pools[pool_i].positions[pos_i].principal;
        let opened_at = self.pools[pool_i].positions[pos_i].opened_at;
        if now < opened_at {
            return Err(StakingError::InvalidArgument);
        }
        let elapsed = match now.checked_sub(opened_at) {
            Some(e) => e,
            None => {
                return Err(StakingError::CalculationError);
            },
        };
        if !force && (elapsed as u64) < self.pools[pool_i].min_staking_duration {
            return Err(StakingError::DurationNotMet);
        }
        let reward_full = match compute_reward(principal, elapsed, self.pools[pool_i].reward_rate) {
            Ok(r) => r,
            Err(e) => {
                return Err(e);
            },
        };
        let budget = self.pools[pool_i].reward_budget;
        if !force && budget < reward_full {
            return Err(StakingError::InsufficientRewardFunds);
        }
        let reward_paid = if reward_full <= budget {
            reward_full
        } else {
            budget
        };
        let total = match principal.checked_add(reward_paid) {
            Some(t) => t,
            None => {
                return Err(StakingError::CalculationError);
            },
        };
        let ghost v0 = self@;
        let pool = &mut self.pools[pool_i];
        pool.reward_budget = budget - reward_paid;
        pool.positions.remove(pos_i);
        proof {
            assert(self@ =~~= spec_redeem(v0, pool_id, user, force, now).0);
        }
        Ok(
            RedeemOutcome {
                transfer: TransferRequest {
                    from: Account::PoolCustody(pool_id),
                    to: Account::User(user),
                    amount: total,
                },
                reward_paid,
            },
        )
    }

    /// The pool with this identity, if any.
    pub fn get_pool(&self, pool_id: u64) -> (pool: Option<&Pool>)
        requires
            self@.wf(),
        ensures
            match pool {
                Some(p) => self@.has_pool(pool_id) && p@ == self@.pool_of(pool_id),
                None => !self@.has_pool(pool_id),
            },
    {
        match self.find_pool(pool_id) {
            Some(i) => {
                proof {
                    lemma_pool_index_agrees(self@, i as int);
                }
                Some(&self.pools[i])
            },
            None => None,
        }
    }

    /// `user`'s active position in the pool with this identity, if both
    /// exist.
    pub fn get_position(&self, pool_id: u64, user: u64) -> (position: Option<Position>)
        requires
            self@.wf(),
        ensures
            match position {
                Some(p) => self@.has_pool(pool_id) && self@.pool_of(pool_id).has_position(user)
                    && p == self@.pool_of(pool_id).position_of(user),
                None => !self@.has_pool(pool_id) || !self@.pool_of(pool_id).has_position(user),
            },
    {
        let pool_i = match self.find_pool(pool_id) {
            Some(i) => i,
            None => {
                return None;
            },
        };
        proof {
            lemma_pool_index_agrees(self@, pool_i as int);
        }
        match self.pools[pool_i].find_position(user) {
            Some(j) => {
                proof {
                    lemma_position_index_agrees(self@.pools[pool_i as int], j as int);
                }
                Some(self.pools[pool_i].positions[j])
            },
            None => None,
        }
    }
}

} // verus!
