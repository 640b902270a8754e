//! Executable ledger state and its read-only queries.
//!
//! [`State`] is the durable aggregate the vault owns exclusively: global
//! configuration, the per-user account table, the per-principal guard set and
//! the dividend accumulator. Its view is the [`StateModel`] of `model`, and
//! every contract of this crate speaks about that view.

use vstd::prelude::*;

use crate::model::{
    cumulative_dividends, lemma_user_index_unique, user_zero, EntryModel,
    PrincipalId, StateModel, UserModel,
};

verus! {

/// Scale of the dividend accumulator (10^18), fixed at initialization.
pub const PRECISION: u128 = 1000000000000000000;

/// Whether a lease for one principal is held; the per-principal state of the
/// reentrancy guard.
#[derive(Clone, Copy, PartialEq, Eq, Structural, Debug)]
pub enum GuardState {
    GuardUnlocked,
    GuardLocked,
}

/// One user's account. Created on first stake, never deleted (zeroed
/// instead).
#[derive(Clone, Copy, PartialEq, Eq, Structural, Debug)]
pub struct UserInfo {
    /// Currently staked balance.
    pub amount: u128,
    /// Timestamp (nanoseconds) after which withdrawal incurs no fee.
    pub unlock_time: u64,
    /// Baseline of the dividend accumulator as of the last synchronization.
    pub total_excluded: u128,
    /// Withdrawn stake awaiting a confirmed transfer out.
    pub token_to_claim: u128,
    /// Crystallized rewards awaiting a confirmed transfer out.
    pub rewards_to_claim: u128,
    /// Early-exit fees awaiting a confirmed transfer to the fee recipient.
    pub fee_to_claim: u128,
}

impl View for UserInfo {
    type V = UserModel;

    open spec fn view(&self) -> UserModel {
        UserModel {
            amount: self.amount as nat,
            unlock_time: self.unlock_time as nat,
            total_excluded: self.total_excluded as nat,
            token_to_claim: self.token_to_claim as nat,
            rewards_to_claim: self.rewards_to_claim as nat,
            fee_to_claim: self.fee_to_claim as nat,
        }
    }
}

impl UserInfo {
    /// A freshly created account: everything zero.
    pub fn default() -> (r: UserInfo)
        ensures
            r@ == user_zero(),
    {
        UserInfo {
            amount: 0,
            unlock_time: 0,
            total_excluded: 0,
            token_to_claim: 0,
            rewards_to_claim: 0,
            fee_to_claim: 0,
        }
    }

    /// Nanoseconds until the lock expires at time `now`; zero once it has.
    pub fn time_until_unlock(&self, now: u64) -> (r: u64)
        ensures
            self.unlock_time < now ==> r == 0,
            self.unlock_time >= now ==> r == self.unlock_time - now,
    {
        if self.unlock_time < now {
            return 0u64;
        }
        self.unlock_time - now
    }
}

/// One row of the user table.
#[derive(Clone, Copy)]
pub struct UserEntry {
    pub principal: PrincipalId,
    pub info: UserInfo,
}

impl View for UserEntry {
    type V = EntryModel;

    open spec fn view(&self) -> EntryModel {
        EntryModel { principal: self.principal, info: self.info@ }
    }
}

/// Immutable configuration of the vault, as handed out by `get_metadata`.
#[derive(Clone, Copy, PartialEq, Eq, Structural, Debug)]
pub struct Metadata {
    pub lock_time: u64,
    pub leave_early_fee: u128,
    pub fee_recipient: PrincipalId,
    pub token: PrincipalId,
    pub reward: PrincipalId,
}

/// The durable ledger state.
pub struct State {
    /// Staking lock period in nanoseconds.
    pub lock_time: u64,
    /// Fee numerator applied over a denominator of 100 on early withdrawal.
    pub leave_early_fee: u128,
    /// Recipient of early-exit fees.
    pub fee_recipient: PrincipalId,
    /// Ledger of the staked asset.
    pub token: PrincipalId,
    /// Ledger of the reward asset.
    pub reward: PrincipalId,
    /// One row per staker ever created; principals pairwise distinct.
    pub users: Vec<UserEntry>,
    /// Principals currently holding a reentrancy lease.
    pub principal_guards: Vec<PrincipalId>,
    /// Lifetime sum of confirmed reward deposits.
    pub total_rewards: u128,
    /// Sum of all users' staked amounts.
    pub total_shares: u128,
    /// Cumulative reward per share, scaled by `precision`.
    pub dividends_per_share: u128,
    /// Fixed scale retaining fractional precision under integer division.
    pub precision: u128,
}

impl View for State {
    type V = StateModel;

    open spec fn view(&self) -> StateModel {
        StateModel {
            lock_time: self.lock_time as nat,
            leave_early_fee: self.leave_early_fee as nat,
            fee_recipient: self.fee_recipient,
            token: self.token,
            reward: self.reward,
            users: self.users@.map_values(|e: UserEntry| e@),
            guards: self.principal_guards@,
            total_rewards: self.total_rewards as nat,
            total_shares: self.total_shares as nat,
            dividends_per_share: self.dividends_per_share as nat,
            precision: self.precision as nat,
        }
    }
}

/// Whether the product feeding `p`'s cumulative-dividend computation fits the
/// machine word; a side condition the machine representation forces.
pub open spec fn cd_fits(m: StateModel, p: PrincipalId) -> bool {
    m.has_user(p) ==> m.user(p).amount * m.dividends_per_share <= u128::MAX
}

impl State {
    /// A fresh vault: the given configuration, no users, no leases, all
    /// counters zero and the accumulator scale fixed at [`PRECISION`].
    pub fn init(
        token: PrincipalId,
        reward: PrincipalId,
        fee_recipient: PrincipalId,
        leave_early_fee: u128,
        lock_time: u64,
    ) -> (s: State)
        requires
            leave_early_fee <= 100,
        ensures
            s@ == crate::model::init_model(
                token,
                reward,
                fee_recipient,
                leave_early_fee as nat,
                lock_time as nat,
            ),
            s@.wf(),
    {
        let s = State {
            lock_time,
            leave_early_fee,
            fee_recipient,
            token,
            reward,
            users: Vec::new(),
            principal_guards: Vec::new(),
            total_rewards: 0,
            total_shares: 0,
            dividends_per_share: 0,
            precision: PRECISION,
        };
        proof {
            assert(s@ =~~= crate::model::init_model(
                token,
                reward,
                fee_recipient,
                leave_early_fee as nat,
                lock_time as nat,
            ));
        }
        s
    }

    /// Index of `p`'s row in the user table.
    pub(crate) fn find_user(&self, p: PrincipalId) -> (r: Option<usize>)
        ensures
            match r {
                Some(i) => i < self.users.len() && self@.users[i as int].principal == p,
                None => !self@.has_user(p),
            },
    {
        let mut j: usize = 0;
        while j < self.users.len()
            invariant
                j <= self.users.len(),
                forall|k: int| 0 <= k < j ==> self@.users[k].principal != p,
            decreases self.users.len() - j,
        {
            if self.users[j].principal == p {
                return Some(j);
            }
            j += 1;
        }
        None
    }

    /// Replace the account at row `i`, keeping its principal.
    pub(crate) fn set_user_info(&mut self, i: usize, info: UserInfo)
        requires
            i < old(self).users.len(),
        ensures
            final(self)@ == old(self)@.with_user(i as int, info@),
    {
        let e = vstd::std_specs::vec::vec_index_mut(&mut self.users, i);
        e.info = info;
        proof {
            assert(self@.users =~= old(self)@.with_user(i as int, info@).users);
            assert(self@ =~= old(self)@.with_user(i as int, info@));
        }
    }

    /// The account of `p`, if one was ever created.
    pub fn get_user(&self, p: PrincipalId) -> (r: Option<UserInfo>)
        requires
            self@.wf(),
        ensures
            match r {
                Some(u) => self@.has_user(p) && u@ == self@.user(p),
                None => !self@.has_user(p),
            },
    {
        match self.find_user(p) {
            Some(i) => {
                proof {
                    lemma_user_index_unique(self@.users, p, i as int);
                }
                Some(self.users[i].info)
            },
            None => None,
        }
    }

    /// Total staked shares.
    pub fn total_supply(&self) -> (r: u128)
        ensures
            r as nat == self@.total_shares,
    {
        self.total_shares
    }

    /// Lifetime sum of confirmed reward deposits.
    pub fn total_rewards(&self) -> (r: u128)
        ensures
            r as nat == self@.total_rewards,
    {
        self.total_rewards
    }

    /// Currently staked balance of `user`, zero for an unknown principal.
    pub fn balance_of(&self, user: PrincipalId) -> (r: u128)
        requires
            self@.wf(),
        ensures
            r as nat == self@.balance_of(user),
    {
        match self.get_user(user) {
            Some(u) => u.amount,
            None => 0,
        }
    }

    /// `share * dividends_per_share / precision`, truncated toward zero.
    pub fn get_cumulative_dividends(&self, share: u128) -> (r: u128)
        requires
            self@.precision >= 1,
            share * self@.dividends_per_share <= u128::MAX,
        ensures
            r as nat == cumulative_dividends(
                share as nat,
                self@.dividends_per_share,
                self@.precision,
            ),
    {
        (share * self.dividends_per_share) / self.precision
    }

    /// Rewards accrued by `user_principal` since its last synchronization and
    /// not yet crystallized; zero for an unknown principal or an empty stake.
    pub fn pending_rewards(&self, user_principal: PrincipalId) -> (r: u128)
        requires
            self@.wf(),
            cd_fits(self@, user_principal),
        ensures
            r as nat == self@.pending(user_principal),
    {
        match self.get_user(user_principal) {
            None => 0,
            Some(user) => {
                if user.amount == 0 {
                    return 0u128;
                }
                let total_dividends = self.get_cumulative_dividends(user.amount);
                if total_dividends <= user.total_excluded {
                    return 0u128;
                }
                total_dividends - user.total_excluded
            },
        }
    }

    /// The vault's immutable configuration.
    pub fn get_metadata(&self) -> (m: Metadata)
        ensures
            m.lock_time as nat == self@.lock_time,
            m.leave_early_fee as nat == self@.leave_early_fee,
            m.fee_recipient == self@.fee_recipient,
            m.token == self@.token,
            m.reward == self@.reward,
    {
        Metadata {
            lock_time: self.lock_time,
            leave_early_fee: self.leave_early_fee,
            fee_recipient: self.fee_recipient,
            token: self.token,
            reward: self.reward,
        }
    }

    /// Index of `p` in the guard set.
    pub(crate) fn find_guard(&self, p: PrincipalId) -> (r: Option<usize>)
        ensures
            match r {
                Some(i) => {
                    &&& i < self.principal_guards.len()
                    &&& self@.guards[i as int] == p
                    &&& forall|k: int| 0 <= k < i ==> self@.guards[k] != p
                },
                None => !self@.guards.contains(p),
            },
    {
        let mut j: usize = 0;
        while j < self.principal_guards.len()
            invariant
                j <= self.principal_guards.len(),
                forall|k: int| 0 <= k < j ==> self@.guards[k] != p,
            decreases self.principal_guards.len() - j,
        {
            if self.principal_guards[j] == p {
                return Some(j);
            }
            j += 1;
        }
        None
    }

    /// Whether the reentrancy guard currently holds a lease for `p`.
    pub fn guard_state(&self, p: PrincipalId) -> (r: GuardState)
        ensures
            r == GuardState::GuardLocked <==> self@.guard_held(p),
            r == GuardState::GuardLocked || r == GuardState::GuardUnlocked,
    {
        match self.find_guard(p) {
            Some(_) => GuardState::GuardLocked,
            None => GuardState::GuardUnlocked,
        }
    }
}

} // verus!
