//! Mathematical model of the vault ledger.
//!
//! The executable state in `state` is viewed as a [`StateModel`]: amounts
//! become unbounded naturals, the user table becomes a sequence of entries
//! with pairwise-distinct principals, and the per-principal guard set becomes
//! a sequence of principals. Every mutating operation of the library is
//! specified as a total function on this model; the laws in `laws` are proved
//! about these functions alone.

use vstd::prelude::*;

verus! {

/// Identifier standing for an account principal. The surrounding application
/// maps real principals one-to-one onto these identifiers.
pub type PrincipalId = u64;

/// Upper bound on the number of simultaneously held per-principal leases.
pub const MAX_CONCURRENT: usize = 100;

/// The three per-user settlement buckets, in the fixed order in which a
/// settlement pass pays them out.
#[derive(Clone, Copy, PartialEq, Eq, Structural, Debug)]
pub enum ClaimKind {
    /// Early-exit fee owed to the fee recipient, denominated in the staked
    /// asset (the asset that was being withdrawn when the fee was charged).
    Fee,
    /// Accrued rewards owed to the user, denominated in the reward asset.
    Rewards,
    /// Withdrawn stake owed back to the user, denominated in the staked asset.
    Token,
}

/// Model of one user's account.
#[verifier::ext_equal]
pub struct UserModel {
    /// Currently staked balance.
    pub amount: nat,
    /// Timestamp (nanoseconds) after which withdrawal incurs no fee.
    pub unlock_time: nat,
    /// `amount * dividends_per_share / precision` as of the last
    /// synchronization; rewards accrued since are the difference to the
    /// current value of that product.
    pub total_excluded: nat,
    /// Withdrawn stake awaiting a confirmed transfer out.
    pub token_to_claim: nat,
    /// Crystallized rewards awaiting a confirmed transfer out.
    pub rewards_to_claim: nat,
    /// Early-exit fees awaiting a confirmed transfer to the fee recipient.
    pub fee_to_claim: nat,
}

/// One entry of the user table.
#[verifier::ext_equal]
pub struct EntryModel {
    pub principal: PrincipalId,
    pub info: UserModel,
}

/// Model of the whole ledger state.
#[verifier::ext_equal]
pub struct StateModel {
    /// Staking lock period in nanoseconds.
    pub lock_time: nat,
    /// Fee numerator applied over a denominator of 100 on early withdrawal.
    pub leave_early_fee: nat,
    /// Recipient of early-exit fees.
    pub fee_recipient: PrincipalId,
    /// Ledger of the staked asset.
    pub token: PrincipalId,
    /// Ledger of the reward asset.
    pub reward: PrincipalId,
    /// One entry per staker ever created; principals pairwise distinct.
    pub users: Seq<EntryModel>,
    /// Principals currently holding a reentrancy lease.
    pub guards: Seq<PrincipalId>,
    /// Lifetime sum of confirmed reward deposits.
    pub total_rewards: nat,
    /// Sum of all users' staked amounts.
    pub total_shares: nat,
    /// Cumulative reward per share, scaled by `precision`.
    pub dividends_per_share: nat,
    /// Fixed scale retaining fractional precision under integer division.
    pub precision: nat,
}

/// A user's share of the cumulative reward stream: `share * dps / precision`,
/// truncated toward zero.
pub open spec fn cumulative_dividends(share: nat, dps: nat, precision: nat) -> nat {
    (share * dps) / precision
}

/// Rewards accrued by `u` since its last synchronization, clamped at zero.
pub open spec fn pending_of(u: UserModel, dps: nat, precision: nat) -> nat {
    let cd = cumulative_dividends(u.amount, dps, precision);
    if u.amount == 0 {
        0
    } else if cd <= u.total_excluded {
        0
    } else {
        (cd - u.total_excluded) as nat
    }
}

/// A freshly created account: everything zero.
pub open spec fn user_zero() -> UserModel {
    UserModel {
        amount: 0,
        unlock_time: 0,
        total_excluded: 0,
        token_to_claim: 0,
        rewards_to_claim: 0,
        fee_to_claim: 0,
    }
}

pub open spec fn has_user_in(users: Seq<EntryModel>, p: PrincipalId) -> bool {
    exists|i: int| 0 <= i < users.len() && users[i].principal == p
}

/// Index of the entry for `p`; meaningful only when `has_user_in` holds and
/// the principals are pairwise distinct.
pub open spec fn user_index(users: Seq<EntryModel>, p: PrincipalId) -> int {
    choose|i: int| 0 <= i < users.len() && users[i].principal == p
}

pub open spec fn users_unique(users: Seq<EntryModel>) -> bool {
    forall|i: int, j: int|
        0 <= i < j < users.len() ==> users[i].principal != users[j].principal
}

pub open spec fn guards_unique(guards: Seq<PrincipalId>) -> bool {
    forall|i: int, j: int| 0 <= i < j < guards.len() ==> guards[i] != guards[j]
}

/// Sum of the staked amounts of all entries.
pub open spec fn sum_amounts(users: Seq<EntryModel>) -> nat
    decreases users.len(),
{
    if users.len() == 0 {
        0
    } else {
        sum_amounts(users.drop_last()) + users.last().info.amount
    }
}

impl StateModel {
    /// The invariants every reachable ledger state satisfies.
    pub open spec fn wf(self) -> bool {
        &&& self.precision >= 1
        &&& self.leave_early_fee <= 100
        &&& users_unique(self.users)
        &&& guards_unique(self.guards)
        &&& self.total_shares == sum_amounts(self.users)
        &&& forall|i: int|
            0 <= i < self.users.len() ==> (#[trigger] self.users[i]).info.total_excluded
                <= cumulative_dividends(
                self.users[i].info.amount,
                self.dividends_per_share,
                self.precision,
            )
    }

    pub open spec fn has_user(self, p: PrincipalId) -> bool {
        has_user_in(self.users, p)
    }

    pub open spec fn user(self, p: PrincipalId) -> UserModel {
        self.users[user_index(self.users, p)].info
    }

    /// Currently staked balance of `p`, zero for an unknown principal.
    pub open spec fn balance_of(self, p: PrincipalId) -> nat {
        if self.has_user(p) {
            self.user(p).amount
        } else {
            0
        }
    }

    /// Accrued, not yet crystallized rewards of `p`.
    pub open spec fn pending(self, p: PrincipalId) -> nat {
        if self.has_user(p) {
            pending_of(self.user(p), self.dividends_per_share, self.precision)
        } else {
            0
        }
    }

    /// Content of one settlement bucket of `p`.
    pub open spec fn bucket_of(self, p: PrincipalId, kind: ClaimKind) -> nat {
        if self.has_user(p) {
            match kind {
                ClaimKind::Fee => self.user(p).fee_to_claim,
                ClaimKind::Rewards => self.user(p).rewards_to_claim,
                ClaimKind::Token => self.user(p).token_to_claim,
            }
        } else {
            0
        }
    }

    /// `self` with the entry at `i` replaced by the same principal carrying
    /// `u`.
    pub open spec fn with_user(self, i: int, u: UserModel) -> StateModel {
        StateModel {
            users: self.users.update(
                i,
                EntryModel { principal: self.users[i].principal, info: u },
            ),
            ..self
        }
    }

    /// Crystallization: move the accrued rewards of `p` into the
    /// rewards-to-claim bucket and re-synchronize the baseline. Identity when
    /// `p` is unknown, has no stake, or has nothing accrued.
    pub open spec fn crystallize(self, p: PrincipalId) -> StateModel {
        if !self.has_user(p) {
            self
        } else {
            let i = user_index(self.users, p);
            let u = self.users[i].info;
            let pend = pending_of(u, self.dividends_per_share, self.precision);
            if u.amount == 0 || pend == 0 {
                self
            } else {
                self.with_user(
                    i,
                    UserModel {
                        total_excluded: cumulative_dividends(
                            u.amount,
                            self.dividends_per_share,
                            self.precision,
                        ),
                        rewards_to_claim: u.rewards_to_claim + pend,
                        ..u
                    },
                )
            }
        }
    }

    /// Account creation on first contact: identity when `p` already exists.
    pub open spec fn with_account(self, p: PrincipalId) -> StateModel {
        if self.has_user(p) {
            self
        } else {
            StateModel {
                users: self.users.push(EntryModel { principal: p, info: user_zero() }),
                ..self
            }
        }
    }

    /// Bookkeeping of a confirmed stake transfer-in: raise the user's amount
    /// and the total shares, restart the lock, re-synchronize the baseline.
    /// Identity when `p` is unknown (accounts are created before staking).
    pub open spec fn apply_stake(self, p: PrincipalId, amount: nat, now: nat) -> StateModel {
        if !self.has_user(p) {
            self
        } else {
            let i = user_index(self.users, p);
            let u = self.users[i].info;
            let a2 = u.amount + amount;
            StateModel {
                total_shares: self.total_shares + amount,
                ..self.with_user(
                    i,
                    UserModel {
                        amount: a2,
                        unlock_time: now + self.lock_time,
                        total_excluded: cumulative_dividends(
                            a2,
                            self.dividends_per_share,
                            self.precision,
                        ),
                        ..u
                    },
                )
            }
        }
    }

    /// Early-exit fee charged when withdrawing `amount` at `now`: the fee
    /// numerator over a denominator of 100 while the lock has not expired,
    /// zero afterwards.
    pub open spec fn withdraw_fee(self, p: PrincipalId, amount: nat, now: nat) -> nat {
        if now < self.user(p).unlock_time {
            amount * self.leave_early_fee / 100
        } else {
            0
        }
    }

    /// Bookkeeping of a withdrawal, after crystallization: lower the user's
    /// amount and the total shares, re-synchronize the baseline, and
    /// crystallize the net amount and the fee into their buckets. Identity
    /// outside its domain (unknown principal, amount above the balance, or a
    /// fee above the amount, which `wf` rules out).
    pub open spec fn apply_withdraw(self, p: PrincipalId, amount: nat, now: nat) -> StateModel {
        if !self.has_user(p) || amount > self.user(p).amount || amount > self.total_shares
            || self.withdraw_fee(p, amount, now) > amount {
            self
        } else {
            let i = user_index(self.users, p);
            let u = self.users[i].info;
            let fee = self.withdraw_fee(p, amount, now);
            let a2 = (u.amount - amount) as nat;
            StateModel {
                total_shares: (self.total_shares - amount) as nat,
                ..self.with_user(
                    i,
                    UserModel {
                        amount: a2,
                        total_excluded: cumulative_dividends(
                            a2,
                            self.dividends_per_share,
                            self.precision,
                        ),
                        token_to_claim: u.token_to_claim + ((amount - fee) as nat),
                        fee_to_claim: u.fee_to_claim + fee,
                        ..u
                    },
                )
            }
        }
    }

    /// Bookkeeping of a confirmed reward deposit: raise the accumulator by
    /// the deposit's per-share value and the lifetime counter by the deposit.
    /// Identity when there are no shares to distribute over.
    pub open spec fn apply_deposit(self, amount: nat) -> StateModel {
        if self.total_shares == 0 {
            self
        } else {
            StateModel {
                dividends_per_share: self.dividends_per_share + (amount * self.precision)
                    / self.total_shares,
                total_rewards: self.total_rewards + amount,
                ..self
            }
        }
    }

    /// Bookkeeping of a confirmed settlement transfer: decrement the bucket
    /// by the transferred amount, clamped at zero. Identity for an unknown
    /// principal.
    pub open spec fn confirm(self, p: PrincipalId, kind: ClaimKind, amount: nat) -> StateModel {
        if !self.has_user(p) {
            self
        } else {
            let i = user_index(self.users, p);
            let u = self.users[i].info;
            let b = self.bucket_of(p, kind);
            let b2 = if amount >= b {
                0
            } else {
                (b - amount) as nat
            };
            self.with_user(
                i,
                match kind {
                    ClaimKind::Fee => UserModel { fee_to_claim: b2, ..u },
                    ClaimKind::Rewards => UserModel { rewards_to_claim: b2, ..u },
                    ClaimKind::Token => UserModel { token_to_claim: b2, ..u },
                },
            )
        }
    }

    /// The first bucket, in the fixed fee, rewards, token order, that a
    /// settlement pass for `p` would pay out next; `None` when nothing is
    /// owed.
    pub open spec fn next_claim_of(self, p: PrincipalId) -> Option<ClaimKind> {
        if self.bucket_of(p, ClaimKind::Fee) > 0 {
            Some(ClaimKind::Fee)
        } else if self.bucket_of(p, ClaimKind::Rewards) > 0 {
            Some(ClaimKind::Rewards)
        } else if self.bucket_of(p, ClaimKind::Token) > 0 {
            Some(ClaimKind::Token)
        } else {
            None
        }
    }

    /// Ledger a settlement transfer of `kind` is performed on: the fee is
    /// denominated in the staked asset (it was charged on a withdrawal of
    /// that asset), rewards in the reward asset, returned stake in the staked
    /// asset.
    pub open spec fn claim_ledger(self, kind: ClaimKind) -> PrincipalId {
        match kind {
            ClaimKind::Fee => self.token,
            ClaimKind::Rewards => self.reward,
            ClaimKind::Token => self.token,
        }
    }

    /// Recipient of a settlement transfer of `kind` for `p`.
    pub open spec fn claim_recipient(self, p: PrincipalId, kind: ClaimKind) -> PrincipalId {
        match kind {
            ClaimKind::Fee => self.fee_recipient,
            ClaimKind::Rewards => p,
            ClaimKind::Token => p,
        }
    }

    /// Whether a lease for `p` is currently held.
    pub open spec fn guard_held(self, p: PrincipalId) -> bool {
        self.guards.contains(p)
    }

    /// Whether a lease for `p` can be acquired now.
    pub open spec fn can_acquire(self, p: PrincipalId) -> bool {
        !self.guard_held(p) && self.guards.len() < MAX_CONCURRENT
    }

    /// Lease acquisition; meaningful when `can_acquire` holds.
    pub open spec fn acquire(self, p: PrincipalId) -> StateModel {
        StateModel { guards: self.guards.push(p), ..self }
    }

    /// Lease release: identity when no lease for `p` is held.
    pub open spec fn release(self, p: PrincipalId) -> StateModel {
        if self.guards.contains(p) {
            StateModel { guards: self.guards.remove_value(p), ..self }
        } else {
            self
        }
    }
}

/// The model of a freshly initialized vault.
pub open spec fn init_model(
    token: PrincipalId,
    reward: PrincipalId,
    fee_recipient: PrincipalId,
    leave_early_fee: nat,
    lock_time: nat,
) -> StateModel {
    StateModel {
        lock_time,
        leave_early_fee,
        fee_recipient,
        token,
        reward,
        users: Seq::empty(),
        guards: Seq::empty(),
        total_rewards: 0,
        total_shares: 0,
        dividends_per_share: 0,
        precision: crate::state::PRECISION as nat,
    }
}

/// With pairwise-distinct principals, any index whose entry carries `p` is
/// the index `user_index` denotes.
pub proof fn lemma_user_index_unique(users: Seq<EntryModel>, p: PrincipalId, i: int)
    requires
        users_unique(users),
        0 <= i < users.len(),
        users[i].principal == p,
    ensures
        has_user_in(users, p),
        user_index(users, p) == i,
{
    assert(has_user_in(users, p));
    let j = user_index(users, p);
    assert(0 <= j < users.len() && users[j].principal == p);
    if i < j {
        assert(users[i].principal != users[j].principal);
    } else if j < i {
        assert(users[j].principal != users[i].principal);
    }
}

/// Replacing the account at one row keeps the table's shape: principals,
/// membership and every other user's account are untouched, distinctness is
/// preserved, and the sum of amounts moves by the difference at that row.
pub proof fn lemma_with_user(m: StateModel, i: int, u: UserModel)
    requires
        users_unique(m.users),
        0 <= i < m.users.len(),
    ensures
        m.with_user(i, u).users.len() == m.users.len(),
        forall|k: int|
            0 <= k < m.users.len() ==> (#[trigger] m.with_user(i, u).users[k]).principal
                == m.users[k].principal,
        users_unique(m.with_user(i, u).users),
        forall|q: PrincipalId|
            #[trigger] has_user_in(m.with_user(i, u).users, q) == has_user_in(m.users, q),
        m.with_user(i, u).has_user(m.users[i].principal),
        m.with_user(i, u).user(m.users[i].principal) == u,
        forall|q: PrincipalId|
            q != m.users[i].principal && m.has_user(q) ==> #[trigger] m.with_user(i, u).user(q)
                == m.user(q),
        sum_amounts(m.with_user(i, u).users) + m.users[i].info.amount == sum_amounts(m.users)
            + u.amount,
{
    let p = m.users[i].principal;
    let m2 = m.with_user(i, u);
    assert forall|q: PrincipalId|
        #[trigger] has_user_in(m2.users, q) == has_user_in(m.users, q) by {
        if has_user_in(m.users, q) {
            let k = choose|k: int| 0 <= k < m.users.len() && m.users[k].principal == q;
            assert(m2.users[k].principal == q);
        }
        if has_user_in(m2.users, q) {
            let k = choose|k: int| 0 <= k < m2.users.len() && m2.users[k].principal == q;
            assert(m.users[k].principal == q);
        }
    }
    lemma_user_index_unique(m2.users, p, i);
    assert forall|q: PrincipalId|
        q != p && m.has_user(q) implies #[trigger] m2.user(q) == m.user(q) by {
        let k = choose|k: int| 0 <= k < m.users.len() && m.users[k].principal == q;
        lemma_user_index_unique(m.users, q, k);
        lemma_user_index_unique(m2.users, q, k);
    }
    lemma_sum_update(m.users, i, EntryModel { principal: p, info: u });
}

/// Updating one entry moves the sum of amounts by the difference at that
/// entry.
pub proof fn lemma_sum_update(users: Seq<EntryModel>, i: int, e: EntryModel)
    requires
        0 <= i < users.len(),
    ensures
        sum_amounts(users.update(i, e)) + users[i].info.amount == sum_amounts(users)
            + e.info.amount,
    decreases users.len(),
{
    let upd = users.update(i, e);
    if i == users.len() - 1 {
        assert(upd.drop_last() =~= users.drop_last());
    } else {
        assert(upd.drop_last() =~= users.drop_last().update(i, e));
        lemma_sum_update(users.drop_last(), i, e);
    }
}

/// Appending one entry adds its amount to the sum.
pub proof fn lemma_sum_push(users: Seq<EntryModel>, e: EntryModel)
    ensures
        sum_amounts(users.push(e)) == sum_amounts(users) + e.info.amount,
{
    assert(users.push(e).drop_last() =~= users);
}

/// Every single amount is bounded by the sum of all of them.
pub proof fn lemma_sum_at_least(users: Seq<EntryModel>, i: int)
    requires
        0 <= i < users.len(),
    ensures
        users[i].info.amount <= sum_amounts(users),
    decreases users.len(),
{
    if i < users.len() - 1 {
        lemma_sum_at_least(users.drop_last(), i);
    }
}

} // verus!
