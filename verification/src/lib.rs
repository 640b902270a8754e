//! A staking vault: users stake a token, accrue a proportional share of
//! periodically deposited rewards, and withdraw subject to a lock period and
//! an early-exit fee. This crate holds the accounting and settlement engine:
//! the dividend-distribution arithmetic, the per-principal reentrancy guard,
//! and the deferred settlement protocol that never loses nor double-pays an
//! owed amount when an external transfer fails.
//!
//! The asynchronous token transfers themselves are performed by the
//! surrounding application, which drives the phase functions of this crate:
//! a handler's synchronous part runs here (`stake_begin`, `withdraw_begin`,
//! `claim_rewards_begin`, `deposit_rewards_begin`), the application performs
//! the external call, and reports its outcome back into a commit or confirm
//! function (`stake_commit`, `deposit_rewards_commit`, `confirm_claim`).
//! Settlement transfers are requested one at a time through `next_claim`; a
//! failed transfer is simply not confirmed, which leaves the owed amount in
//! its bucket for a later retry.

pub mod guard;
pub mod laws;
pub mod model;
pub mod state;

use vstd::prelude::*;

use crate::guard::GuardPrincipal;
use crate::laws::{
    lemma_acquire_release, lemma_apply_deposit, lemma_apply_stake, lemma_apply_withdraw, lemma_confirm,
    lemma_crystallize, lemma_fee_le_amount, lemma_mul_mono_right, lemma_with_account,
};
use crate::model::{lemma_sum_at_least, lemma_user_index_unique, ClaimKind, PrincipalId, StateModel};
use crate::state::{cd_fits, State, UserEntry, UserInfo};

verus! {

/// Why a vault operation failed.
#[derive(Debug, PartialEq, Eq, Structural, Clone, Copy)]
pub enum StakingError {
    /// An operation for this principal is already in flight; retry later.
    Busy,
    /// A zero amount was passed where a positive one is required.
    ZeroAmount,
    /// Neither accrued nor crystallized rewards exist to claim.
    NothingToClaim,
    /// The withdrawal asks for more than the staked balance.
    InsufficientBalance,
    /// An account that must exist does not; unreachable through this crate.
    UserDoesNotExist,
    /// The external token transfer did not confirm; crystallized amounts
    /// stay claimable.
    TransferTokenFailed,
    /// A conflicting interleaving was detected.
    RaceCondition,
    /// No shares exist to distribute a reward deposit over.
    NoShare,
}

/// One settlement transfer the application is asked to perform.
#[derive(Clone, Copy, PartialEq, Eq, Structural, Debug)]
pub struct ClaimTransfer {
    /// Which bucket this transfer discharges.
    pub kind: ClaimKind,
    /// Ledger the transfer is performed on.
    pub ledger: PrincipalId,
    /// Recipient of the transfer.
    pub to: PrincipalId,
    /// Amount owed; the whole bucket.
    pub amount: u128,
}

/// Whether the crystallization of `p`'s rewards stays within the machine
/// word.
pub open spec fn claim_fits(m: StateModel, p: PrincipalId) -> bool {
    m.has_user(p) ==> m.user(p).rewards_to_claim + m.pending(p) <= u128::MAX
}

/// Whether a stake of `amount` confirmed at `now` stays within the machine
/// words.
pub open spec fn stake_fits(m: StateModel, p: PrincipalId, amount: nat, now: nat) -> bool {
    &&& m.total_shares + amount <= u128::MAX
    &&& (m.has_user(p) ==> (m.user(p).amount + amount) * m.dividends_per_share <= u128::MAX)
    &&& now + m.lock_time <= u64::MAX
}

/// Whether a withdrawal of `amount` stays within the machine words.
pub open spec fn withdraw_fits(m: StateModel, p: PrincipalId, amount: nat) -> bool {
    &&& amount * m.leave_early_fee <= u128::MAX
    &&& (m.has_user(p) ==> m.user(p).token_to_claim + amount <= u128::MAX && m.user(
        p,
    ).fee_to_claim + amount <= u128::MAX)
}

/// Whether a reward deposit of `amount` stays within the machine words.
pub open spec fn deposit_fits(m: StateModel, amount: nat) -> bool {
    &&& amount * m.precision <= u128::MAX
    &&& m.total_rewards + amount <= u128::MAX
    &&& (m.total_shares > 0 ==> m.dividends_per_share + (amount * m.precision) / m.total_shares
        <= u128::MAX)
}

/// Creates `principal`'s account if none exists yet; otherwise does nothing.
pub fn try_init_account(s: &mut State, principal: PrincipalId)
    requires
        old(s)@.wf(),
    ensures
        final(s)@ == old(s)@.with_account(principal),
        final(s)@.wf(),
{
    proof {
        lemma_with_account(s@, principal);
    }
    match s.find_user(principal) {
        Some(_) => {
            proof {
                assert(old(s)@.with_account(principal) == old(s)@);
            }
        },
        None => {
            s.users.push(UserEntry { principal, info: UserInfo::default() });
            proof {
                assert(s@.users =~= old(s)@.with_account(principal).users);
                assert(s@ =~~= old(s)@.with_account(principal));
            }
        },
    }
}

/// Crystallization: moves `principal`'s accrued rewards into its
/// rewards-to-claim bucket and re-synchronizes the baseline, so a later
/// change of stake cannot double-count or dilute them. No-op when nothing
/// has accrued.
pub fn init_claim_rewards(s: &mut State, principal: PrincipalId)
    requires
        old(s)@.wf(),
        cd_fits(old(s)@, principal),
        claim_fits(old(s)@, principal),
    ensures
        final(s)@ == old(s)@.crystallize(principal),
        final(s)@.wf(),
{
    proof {
        lemma_crystallize(s@, principal);
    }
    let idx = match s.find_user(principal) {
        Some(i) => i,
        None => {
            return ;
        },
    };
    proof {
        lemma_user_index_unique(s@.users, principal, idx as int);
    }
    let u = s.users[idx].info;
    if u.amount == 0 {
        return ;
    }
    let amount_pending = s.pending_rewards(principal);
    if amount_pending == 0 {
        return ;
    }
    let new_excluded = s.get_cumulative_dividends(u.amount);
    let new_info = UserInfo {
        total_excluded: new_excluded,
        rewards_to_claim: u.rewards_to_claim + amount_pending,
        ..u
    };
    s.set_user_info(idx, new_info);
    proof {
        assert(s@ =~~= old(s)@.crystallize(principal));
    }
}

/// Synchronous part of `stake`: rejects a zero amount, acquires the guard,
/// crystallizes already-earned rewards (so the new stake cannot dilute
/// them) and creates the account if needed. On success the application must
/// perform the transfer-in of `amount` from the caller and then call
/// [`stake_commit`] (confirmed) or release the lease (failed); no balance
/// changes before the transfer confirms.
pub fn stake_begin(s: &mut State, principal: PrincipalId, amount: u128) -> (r: Result<
    GuardPrincipal,
    StakingError,
>)
    requires
        old(s)@.wf(),
        cd_fits(old(s)@, principal),
        claim_fits(old(s)@, principal),
    ensures
        final(s)@.wf(),
        match r {
            Ok(g) => {
                &&& amount != 0
                &&& old(s)@.can_acquire(principal)
                &&& g.principal() == principal
                &&& final(s)@ == old(s)@.acquire(principal).crystallize(principal).with_account(
                    principal,
                )
                &&& final(s)@.guard_held(principal)
            },
            Err(StakingError::ZeroAmount) => amount == 0 && final(s)@ == old(s)@,
            Err(StakingError::Busy) => amount != 0 && !old(s)@.can_acquire(principal) && final(s)@ == old(s)@,
            Err(_) => false,
        },
{
    if amount == 0 {
        return Err(StakingError::ZeroAmount);
    }
    let g = match GuardPrincipal::new(s, principal) {
        Ok(g) => g,
        Err(_) => {
            return Err(StakingError::Busy);
        },
    };
    init_claim_rewards(s, principal);
    try_init_account(s, principal);
    proof {
        lemma_crystallize(old(s)@.acquire(principal), principal);
        lemma_with_account(old(s)@.acquire(principal).crystallize(principal), principal);
    }
    Ok(g)
}

/// Bookkeeping of a confirmed stake transfer-in: raises the user's balance
/// and the total shares by the staked amount, restarts the lock from `now`,
/// re-synchronizes the reward baseline, and releases the lease.
pub fn stake_commit(s: &mut State, g: GuardPrincipal, amount: u128, now: u64)
    requires
        old(s)@.wf(),
        stake_fits(old(s)@, g.principal(), amount as nat, now as nat),
    ensures
        final(s)@ == old(s)@.apply_stake(g.principal(), amount as nat, now as nat).release(
            g.principal(),
        ),
        final(s)@.wf(),
        !final(s)@.guard_held(g.principal()),
{
    let principal = g.principal_id();
    match s.find_user(principal) {
        None => {
            proof {
                assert(old(s)@.apply_stake(principal, amount as nat, now as nat)
                    == old(s)@);
            }
            g.release(s);
        },
        Some(i) => {
            proof {
                lemma_user_index_unique(s@.users, principal, i as int);
                lemma_sum_at_least(s@.users, i as int);
            }
            let u = s.users[i].info;
            let a2 = u.amount + amount;
            let new_excluded = s.get_cumulative_dividends(a2);
            let new_info = UserInfo {
                amount: a2,
                unlock_time: now + s.lock_time,
                total_excluded: new_excluded,
                ..u
            };
            s.set_user_info(i, new_info);
            s.total_shares = s.total_shares + amount;
            proof {
                assert(s@ =~~= old(s)@.apply_stake(
                    principal,
                    amount as nat,
                    now as nat,
                ));
                lemma_apply_stake(old(s)@, principal, amount as nat, now as nat);
            }
            g.release(s);
        },
    }
}

/// Synchronous part of `withdraw`: rejects a zero amount, acquires the
/// guard, checks the balance, crystallizes accrued rewards, then — in one
/// non-suspending step — lowers the balance and total shares, charges the
/// early-exit fee while the lock has not expired, and crystallizes the net
/// amount and the fee into their settlement buckets. On success the
/// application runs the settlement pass ([`next_claim`] / [`confirm_claim`])
/// and releases the returned lease afterwards.
pub fn withdraw_begin(s: &mut State, principal: PrincipalId, amount: u128, now: u64) -> (r: Result<
    GuardPrincipal,
    StakingError,
>)
    requires
        old(s)@.wf(),
        cd_fits(old(s)@, principal),
        claim_fits(old(s)@, principal),
        withdraw_fits(old(s)@, principal, amount as nat),
    ensures
        final(s)@.wf(),
        match r {
            Ok(g) => {
                &&& amount != 0
                &&& old(s)@.can_acquire(principal)
                &&& g.principal() == principal
                &&& amount as nat <= old(s)@.balance_of(principal)
                &&& final(s)@ == old(s)@.acquire(principal).crystallize(principal).apply_withdraw(
                    principal,
                    amount as nat,
                    now as nat,
                )
                &&& final(s)@.guard_held(principal)
            },
            Err(StakingError::ZeroAmount) => amount == 0 && final(s)@ == old(s)@,
            Err(StakingError::Busy) => amount != 0 && !old(s)@.can_acquire(principal) && final(s)@ == old(s)@,
            Err(StakingError::InsufficientBalance) => {
                &&& amount != 0
                &&& old(s)@.can_acquire(principal)
                &&& amount as nat > old(s)@.balance_of(principal)
                &&& final(s)@ == old(s)@
            },
            Err(_) => false,
        },
{
    if amount == 0 {
        return Err(StakingError::ZeroAmount);
    }
    let g = match GuardPrincipal::new(s, principal) {
        Ok(g) => g,
        Err(_) => {
            return Err(StakingError::Busy);
        },
    };
    let user_amount = s.balance_of(principal);
    if amount > user_amount {
        proof {
            lemma_acquire_release(old(s)@, principal);
        }
        g.release(s);
        return Err(StakingError::InsufficientBalance);
    }
    init_claim_rewards(s, principal);
    proof {
        lemma_crystallize(old(s)@.acquire(principal), principal);
    }
    let ghost mid = old(s)@.acquire(principal).crystallize(principal);
    let i = match s.find_user(principal) {
        Some(i) => i,
        None => {
            proof {
                assert(false);
            }
            return Err(StakingError::UserDoesNotExist);
        },
    };
    proof {
        lemma_user_index_unique(s@.users, principal, i as int);
        lemma_sum_at_least(s@.users, i as int);
    }
    let u = s.users[i].info;
    let until = u.time_until_unlock(now);
    let fee: u128 = if until == 0 {
        0
    } else {
        (amount * s.leave_early_fee) / 100
    };
    proof {
        lemma_fee_le_amount(amount as nat, s@.leave_early_fee);
        assert(fee as nat == mid.withdraw_fee(principal, amount as nat, now as nat));
    }
    let tokens_to_claim = amount - fee;
    let new_amount = u.amount - amount;
    proof {
        lemma_mul_mono_right(s@.dividends_per_share, new_amount as nat, u.amount as nat);
        vstd::arithmetic::mul::lemma_mul_is_commutative(
            s@.dividends_per_share as int,
            new_amount as int,
        );
        vstd::arithmetic::mul::lemma_mul_is_commutative(
            s@.dividends_per_share as int,
            u.amount as int,
        );
    }
    let new_excluded = s.get_cumulative_dividends(new_amount);
    let new_info = UserInfo {
        amount: new_amount,
        total_excluded: new_excluded,
        token_to_claim: u.token_to_claim + tokens_to_claim,
        fee_to_claim: u.fee_to_claim + fee,
        ..u
    };
    s.set_user_info(i, new_info);
    s.total_shares = s.total_shares - amount;
    proof {
        assert(s@ =~~= mid.apply_withdraw(principal, amount as nat, now as nat));
        lemma_apply_withdraw(mid, principal, amount as nat, now as nat);
    }
    Ok(g)
}

/// Synchronous part of `claimRewards`: acquires the guard and crystallizes
/// accrued rewards. Fails with `NothingToClaim` — leaving the ledger exactly
/// as it was — when neither newly accrued nor previously crystallized
/// rewards exist. On success the application runs the settlement pass and
/// releases the returned lease afterwards.
pub fn claim_rewards_begin(s: &mut State, principal: PrincipalId) -> (r: Result<
    GuardPrincipal,
    StakingError,
>)
    requires
        old(s)@.wf(),
        cd_fits(old(s)@, principal),
        claim_fits(old(s)@, principal),
    ensures
        final(s)@.wf(),
        match r {
            Ok(g) => {
                &&& old(s)@.can_acquire(principal)
                &&& g.principal() == principal
                &&& old(s)@.pending(principal) + old(s)@.bucket_of(principal, ClaimKind::Rewards)
                    > 0
                &&& final(s)@ == old(s)@.acquire(principal).crystallize(principal)
                &&& final(s)@.bucket_of(principal, ClaimKind::Rewards) == old(s)@.bucket_of(
                    principal,
                    ClaimKind::Rewards,
                ) + old(s)@.pending(principal)
                &&& final(s)@.pending(principal) == 0
                &&& final(s)@.guard_held(principal)
            },
            Err(StakingError::Busy) => !old(s)@.can_acquire(principal) && final(s)@ == old(s)@,
            Err(StakingError::NothingToClaim) => {
                &&& old(s)@.can_acquire(principal)
                &&& old(s)@.pending(principal) + old(s)@.bucket_of(principal, ClaimKind::Rewards)
                    == 0
                &&& final(s)@ == old(s)@
            },
            Err(_) => false,
        },
{
    let g = match GuardPrincipal::new(s, principal) {
        Ok(g) => g,
        Err(_) => {
            return Err(StakingError::Busy);
        },
    };
    init_claim_rewards(s, principal);
    proof {
        lemma_crystallize(old(s)@.acquire(principal), principal);
    }
    let owed = match s.get_user(principal) {
        Some(u) => u.rewards_to_claim,
        None => 0,
    };
    if owed == 0 {
        proof {
            assert(old(s)@.acquire(principal).crystallize(principal) == old(s)@.acquire(
                principal,
            ));
            lemma_acquire_release(old(s)@, principal);
        }
        g.release(s);
        return Err(StakingError::NothingToClaim);
    }
    Ok(g)
}

/// Synchronous check of `depositRewards`: a deposit is admissible exactly
/// when shares exist to distribute it over. On success the application
/// performs the transfer-in from the depositor and, once it confirms, calls
/// [`deposit_rewards_commit`]; nothing changes before that.
pub fn deposit_rewards_begin(s: &State, amount: u128) -> (r: Result<(), StakingError>)
    ensures
        match r {
            Ok(()) => s@.total_shares > 0,
            Err(StakingError::NoShare) => s@.total_shares == 0,
            Err(_) => false,
        },
{
    if s.total_shares == 0 {
        return Err(StakingError::NoShare);
    }
    Ok(())
}

/// Bookkeeping of a confirmed reward deposit: raises the accumulator by the
/// deposit's per-share value and the lifetime reward counter by the
/// deposit. Fails with `NoShare` — changing nothing — when all shares were
/// withdrawn while the transfer was in flight.
pub fn deposit_rewards_commit(s: &mut State, amount: u128) -> (r: Result<(), StakingError>)
    requires
        old(s)@.wf(),
        deposit_fits(old(s)@, amount as nat),
    ensures
        final(s)@.wf(),
        match r {
            Ok(()) => old(s)@.total_shares > 0 && final(s)@ == old(s)@.apply_deposit(
                amount as nat,
            ),
            Err(StakingError::NoShare) => old(s)@.total_shares == 0 && final(s)@ == old(s)@,
            Err(_) => false,
        },
{
    if s.total_shares == 0 {
        return Err(StakingError::NoShare);
    }
    s.dividends_per_share = s.dividends_per_share + (amount * s.precision) / s.total_shares;
    s.total_rewards = s.total_rewards + amount;
    proof {
        assert(s@ =~~= old(s)@.apply_deposit(amount as nat));
        lemma_apply_deposit(old(s)@, amount as nat);
    }
    Ok(())
}

/// The next settlement transfer owed to or on behalf of `principal`: the
/// first non-empty bucket in the fixed fee, rewards, token order, together
/// with the ledger and recipient it must be paid on. `None` when nothing is
/// owed. The fee is denominated in the staked asset — the asset that was
/// being withdrawn when the fee was charged — rewards in the reward asset,
/// returned stake in the staked asset.
pub fn next_claim(s: &State, principal: PrincipalId) -> (r: Option<ClaimTransfer>)
    requires
        s@.wf(),
    ensures
        match r {
            Some(t) => {
                &&& s@.next_claim_of(principal) == Some(t.kind)
                &&& t.amount as nat == s@.bucket_of(principal, t.kind)
                &&& t.amount > 0
                &&& t.ledger == s@.claim_ledger(t.kind)
                &&& t.to == s@.claim_recipient(principal, t.kind)
            },
            None => s@.next_claim_of(principal) == None::<ClaimKind>,
        },
{
    let u = match s.get_user(principal) {
        Some(u) => u,
        None => {
            return None;
        },
    };
    if u.fee_to_claim > 0 {
        Some(ClaimTransfer {
            kind: ClaimKind::Fee,
            ledger: s.token,
            to: s.fee_recipient,
            amount: u.fee_to_claim,
        })
    } else if u.rewards_to_claim > 0 {
        Some(ClaimTransfer {
            kind: ClaimKind::Rewards,
            ledger: s.reward,
            to: principal,
            amount: u.rewards_to_claim,
        })
    } else if u.token_to_claim > 0 {
        Some(ClaimTransfer {
            kind: ClaimKind::Token,
            ledger: s.token,
            to: principal,
            amount: u.token_to_claim,
        })
    } else {
        None
    }
}

/// Bookkeeping of one confirmed settlement transfer: decrements the paid
/// bucket by the transferred amount, clamped at zero. Only ever called after
/// the external transfer confirmed; an unconfirmed or failed transfer is not
/// reported here, which leaves the owed amount exactly recoverable.
pub fn confirm_claim(s: &mut State, principal: PrincipalId, kind: ClaimKind, amount: u128)
    requires
        old(s)@.wf(),
    ensures
        final(s)@ == old(s)@.confirm(principal, kind, amount as nat),
        final(s)@.wf(),
{
    proof {
        lemma_confirm(s@, principal, kind, amount as nat);
    }
    let i = match s.find_user(principal) {
        Some(i) => i,
        None => {
            return ;
        },
    };
    proof {
        lemma_user_index_unique(s@.users, principal, i as int);
    }
    let u = s.users[i].info;
    let b = match kind {
        ClaimKind::Fee => u.fee_to_claim,
        ClaimKind::Rewards => u.rewards_to_claim,
        ClaimKind::Token => u.token_to_claim,
    };
    let b2: u128 = if amount >= b {
        0
    } else {
        b - amount
    };
    let new_info = match kind {
        ClaimKind::Fee => UserInfo { fee_to_claim: b2, ..u },
        ClaimKind::Rewards => UserInfo { rewards_to_claim: b2, ..u },
        ClaimKind::Token => UserInfo { token_to_claim: b2, ..u },
    };
    s.set_user_info(i, new_info);
    proof {
        assert(s@ =~~= old(s)@.confirm(principal, kind, amount as nat));
    }
}

} // verus!
