//! Laws of the accounting and settlement engine, proved over the model.
//!
//! The per-transition lemmas (`lemma_crystallize` through `lemma_confirm`)
//! state, for each model transition, that well-formedness is preserved and
//! give its exact accounting effect: which buckets move, by how much, and
//! that everything else — balances, other buckets, other users, the
//! accumulator — stays put. On top of them stand the global laws:
//!
//! - `lemma_conservation`: `total_shares` equals the sum of all staked
//!   amounts in every well-formed state, and every operation preserves
//!   well-formedness — so the equality holds along every operation sequence.
//! - `lemma_no_double_payment`: a settlement step replayed after its
//!   confirmation transfers nothing further.
//! - `lemma_no_lost_claim`: owed plus paid is invariant across a confirmed
//!   transfer, and a failed transfer is no transition at all.
//! - `lemma_guard_exclusive`: a held lease blocks a second acquisition for
//!   the same principal until it is released.
//! - `lemma_reward_fairness` and `lemma_equal_shares_equal_rewards`: each
//!   deposit is distributed in proportion to the shares, within the stated
//!   truncation tolerance.
//! - the liability lemmas (`lemma_crystallize_conserves_liability`,
//!   `lemma_deposit_liability`, `lemma_confirm_rewards_liability`,
//!   `lemma_stake_liability_drift`, `lemma_withdraw_liability_drift`):
//!   scaled by `precision`, the vault's outstanding reward debt rises by at
//!   most the deposited amount, moves not at all under crystallization,
//!   falls by exactly what a confirmed payout paid, and drifts by less than
//!   one token unit when a stake or withdrawal re-floors a baseline — which
//!   bounds, along every sequence of operations, the rewards ever paid out
//!   by the rewards ever deposited plus that drift.

use vstd::prelude::*;

use crate::model::{
    cumulative_dividends, has_user_in, lemma_sum_at_least, lemma_sum_push, lemma_user_index_unique,
    lemma_with_user, pending_of, sum_amounts, user_zero, ClaimKind, EntryModel,
    PrincipalId, StateModel, UserModel,
};
use vstd::arithmetic::div_mod::{lemma_div_by_multiple, lemma_div_is_ordered};

verus! {

/// `a * b <= a * c` whenever `b <= c`.
pub proof fn lemma_mul_mono_right(a: nat, b: nat, c: nat)
    requires
        b <= c,
    ensures
        a * b <= a * c,
{
    vstd::arithmetic::mul::lemma_mul_inequality(b as int, c as int, a as int);
    vstd::arithmetic::mul::lemma_mul_is_commutative(b as int, a as int);
    vstd::arithmetic::mul::lemma_mul_is_commutative(c as int, a as int);
}

/// The early-exit fee never exceeds the amount it is charged on, as long as
/// the fee numerator stays within its 100 denominator.
pub proof fn lemma_fee_le_amount(amount: nat, fee_bps: nat)
    requires
        fee_bps <= 100,
    ensures
        amount * fee_bps / 100 <= amount,
{
    lemma_mul_mono_right(amount, fee_bps, 100);
    lemma_div_is_ordered((amount * fee_bps) as int, (amount * 100) as int, 100);
    lemma_div_by_multiple(amount as int, 100);
}

/// The cumulative-dividend figure grows with the share and with the
/// accumulator.
pub proof fn lemma_cd_mono(a1: nat, a2: nat, d1: nat, d2: nat, precision: nat)
    requires
        a1 <= a2,
        d1 <= d2,
        precision >= 1,
    ensures
        cumulative_dividends(a1, d1, precision) <= cumulative_dividends(a2, d2, precision),
{
    lemma_mul_mono_right(a1, d1, d2);
    vstd::arithmetic::mul::lemma_mul_inequality(a1 as int, a2 as int, d2 as int);
    lemma_div_is_ordered((a1 * d1) as int, (a2 * d2) as int, precision as int);
}

/// Crystallization moves the accrued rewards of `p` — exactly them — into
/// `p`'s rewards bucket and leaves every other figure of the ledger alone:
/// afterwards nothing is accrued, the sum of rewards bucket and accrual is
/// conserved, and no balance, no other bucket and no other user changes.
pub proof fn lemma_crystallize(m: StateModel, p: PrincipalId)
    requires
        m.wf(),
    ensures
        m.crystallize(p).wf(),
        m.crystallize(p).pending(p) == 0,
        m.crystallize(p).bucket_of(p, ClaimKind::Rewards) == m.bucket_of(p, ClaimKind::Rewards)
            + m.pending(p),
        m.crystallize(p).bucket_of(p, ClaimKind::Fee) == m.bucket_of(p, ClaimKind::Fee),
        m.crystallize(p).bucket_of(p, ClaimKind::Token) == m.bucket_of(p, ClaimKind::Token),
        m.crystallize(p).total_shares == m.total_shares,
        m.crystallize(p).dividends_per_share == m.dividends_per_share,
        m.crystallize(p).precision == m.precision,
        m.crystallize(p).total_rewards == m.total_rewards,
        m.crystallize(p).guards == m.guards,
        m.crystallize(p).lock_time == m.lock_time,
        m.crystallize(p).leave_early_fee == m.leave_early_fee,
        forall|q: PrincipalId| #[trigger] m.crystallize(p).has_user(q) == m.has_user(q),
        forall|q: PrincipalId| #[trigger] m.crystallize(p).balance_of(q) == m.balance_of(q),
        forall|q: PrincipalId|
            q != p && m.has_user(q) ==> #[trigger] m.crystallize(p).user(q) == m.user(q),
        m.has_user(p) ==> m.crystallize(p).user(p).unlock_time == m.user(p).unlock_time,
        m.has_user(p) ==> m.crystallize(p).user(p).amount == m.user(p).amount,
{
    let c = m.crystallize(p);
    if m.has_user(p) {
        let i = crate::model::user_index(m.users, p);
        let k = choose|k: int| 0 <= k < m.users.len() && m.users[k].principal == p;
        lemma_user_index_unique(m.users, p, k);
        let u = m.users[i].info;
        let pend = pending_of(u, m.dividends_per_share, m.precision);
        if u.amount == 0 || pend == 0 {
            assert(c == m);
        } else {
            let u2 = UserModel {
                total_excluded: cumulative_dividends(
                    u.amount,
                    m.dividends_per_share,
                    m.precision,
                ),
                rewards_to_claim: u.rewards_to_claim + pend,
                ..u
            };
            lemma_with_user(m, i, u2);
            assert(c.user(p) == u2);
            assert forall|q: PrincipalId| #[trigger] c.balance_of(q) == m.balance_of(q) by {
                if q == p {
                    assert(c.user(p).amount == u.amount);
                } else if m.has_user(q) {
                    assert(c.user(q) == m.user(q));
                }
            }
        }
    }
}

/// Account creation: afterwards `p` has an account — its previous one, or a
/// zeroed fresh one — and nothing else changes: no balance moves, no bucket
/// moves, the sum of amounts is untouched.
pub proof fn lemma_with_account(m: StateModel, p: PrincipalId)
    requires
        m.wf(),
    ensures
        m.with_account(p).wf(),
        m.with_account(p).has_user(p),
        m.with_account(p).user(p) == if m.has_user(p) {
            m.user(p)
        } else {
            user_zero()
        },
        m.with_account(p).total_shares == m.total_shares,
        m.with_account(p).dividends_per_share == m.dividends_per_share,
        m.with_account(p).precision == m.precision,
        m.with_account(p).total_rewards == m.total_rewards,
        m.with_account(p).guards == m.guards,
        forall|q: PrincipalId| m.has_user(q) ==> #[trigger] m.with_account(p).has_user(q),
        forall|q: PrincipalId|
            m.has_user(q) ==> #[trigger] m.with_account(p).user(q) == m.user(q),
        forall|q: PrincipalId| #[trigger] m.with_account(p).balance_of(q) == m.balance_of(q),
        forall|q: PrincipalId, k: ClaimKind|
            #[trigger] m.with_account(p).bucket_of(q, k) == m.bucket_of(q, k),
        forall|q: PrincipalId| #[trigger] m.with_account(p).pending(q) == m.pending(q),
{
    let w = m.with_account(p);
    if m.has_user(p) {
        assert(w == m);
    } else {
        let e = EntryModel { principal: p, info: user_zero() };
        let n = m.users.len() as int;
        lemma_sum_push(m.users, e);
        assert(w.users[n] == e);
        assert forall|a: int, b: int| 0 <= a < b < w.users.len() implies w.users[a].principal
            != w.users[b].principal by {
            if b < n {
                assert(w.users[a] == m.users[a] && w.users[b] == m.users[b]);
            } else {
                assert(w.users[b].principal == p);
                assert(w.users[a] == m.users[a]);
                assert(!has_user_in(m.users, p));
            }
        }
        lemma_user_index_unique(w.users, p, n);
        assert(w.user(p) == user_zero());
        assert forall|q: PrincipalId| m.has_user(q) implies #[trigger] w.has_user(q) by {
            let k = choose|k: int| 0 <= k < m.users.len() && m.users[k].principal == q;
            assert(w.users[k].principal == q);
        }
        assert forall|q: PrincipalId| m.has_user(q) implies #[trigger] w.user(q) == m.user(q) by {
            let k = choose|k: int| 0 <= k < m.users.len() && m.users[k].principal == q;
            lemma_user_index_unique(m.users, q, k);
            assert(w.users[k].principal == q);
            lemma_user_index_unique(w.users, q, k);
        }
        assert forall|q: PrincipalId| #[trigger] w.has_user(q) implies q == p || m.has_user(
            q,
        ) by {
            let k = choose|k: int| 0 <= k < w.users.len() && w.users[k].principal == q;
            if k < n {
                assert(m.users[k].principal == q);
            }
        }
        assert forall|q: PrincipalId| #[trigger] w.balance_of(q) == m.balance_of(q) by {
            if q == p {
                assert(w.user(p).amount == 0);
            }
        }
        assert forall|q: PrincipalId, k: ClaimKind| #[trigger] w.bucket_of(q, k) == m.bucket_of(
            q,
            k,
        ) by {}
        assert forall|q: PrincipalId| #[trigger] w.pending(q) == m.pending(q) by {}
    }
}

/// A confirmed stake: `p`'s balance and the total shares rise by exactly the
/// staked amount, the lock restarts, nothing is accrued right after the
/// baseline resync, the buckets and every other user are untouched.
pub proof fn lemma_apply_stake(m: StateModel, p: PrincipalId, amount: nat, now: nat)
    requires
        m.wf(),
        m.has_user(p),
    ensures
        m.apply_stake(p, amount, now).wf(),
        m.apply_stake(p, amount, now).total_shares == m.total_shares + amount,
        m.apply_stake(p, amount, now).balance_of(p) == m.balance_of(p) + amount,
        m.apply_stake(p, amount, now).user(p).unlock_time == now + m.lock_time,
        m.apply_stake(p, amount, now).pending(p) == 0,
        m.apply_stake(p, amount, now).dividends_per_share == m.dividends_per_share,
        m.apply_stake(p, amount, now).total_rewards == m.total_rewards,
        m.apply_stake(p, amount, now).guards == m.guards,
        forall|q: PrincipalId| #[trigger] m.apply_stake(p, amount, now).has_user(q) == m.has_user(
            q,
        ),
        forall|q: PrincipalId|
            q != p ==> #[trigger] m.apply_stake(p, amount, now).balance_of(q) == m.balance_of(q),
        forall|q: PrincipalId|
            q != p && m.has_user(q) ==> #[trigger] m.apply_stake(p, amount, now).user(q) == m.user(
                q,
            ),
        forall|q: PrincipalId, k: ClaimKind|
            #[trigger] m.apply_stake(p, amount, now).bucket_of(q, k) == m.bucket_of(q, k),
{
    let st = m.apply_stake(p, amount, now);
    let i = crate::model::user_index(m.users, p);
    let k0 = choose|k: int| 0 <= k < m.users.len() && m.users[k].principal == p;
    lemma_user_index_unique(m.users, p, k0);
    let u = m.users[i].info;
    let a2 = u.amount + amount;
    let u2 = UserModel {
        amount: a2,
        unlock_time: now + m.lock_time,
        total_excluded: cumulative_dividends(a2, m.dividends_per_share, m.precision),
        ..u
    };
    lemma_with_user(m, i, u2);
    assert(st.users == m.with_user(i, u2).users);
    assert(st.user(p) == u2);
    assert forall|q: PrincipalId|
        q != p && m.has_user(q) implies #[trigger] st.user(q) == m.user(q) by {
        assert(m.with_user(i, u2).user(q) == m.user(q));
    }
    assert forall|q: PrincipalId, k: ClaimKind| #[trigger] st.bucket_of(q, k) == m.bucket_of(
        q,
        k,
    ) by {
        if q != p && m.has_user(q) {
            assert(st.user(q) == m.user(q));
        }
    }
}

/// A withdrawal after crystallization: the withdrawn amount leaves the
/// balance and the total shares and lands — split into its net part and the
/// early-exit fee — in the stake and fee buckets; no value is created or
/// destroyed, the rewards bucket and every other user are untouched.
pub proof fn lemma_apply_withdraw(m: StateModel, p: PrincipalId, amount: nat, now: nat)
    requires
        m.wf(),
        m.has_user(p),
        amount <= m.user(p).amount,
    ensures
        m.apply_withdraw(p, amount, now).wf(),
        m.apply_withdraw(p, amount, now).total_shares == m.total_shares - amount,
        m.apply_withdraw(p, amount, now).balance_of(p) == m.balance_of(p) - amount,
        m.apply_withdraw(p, amount, now).pending(p) == 0,
        m.apply_withdraw(p, amount, now).bucket_of(p, ClaimKind::Token) == m.bucket_of(
            p,
            ClaimKind::Token,
        ) + amount - m.withdraw_fee(p, amount, now),
        m.apply_withdraw(p, amount, now).bucket_of(p, ClaimKind::Fee) == m.bucket_of(
            p,
            ClaimKind::Fee,
        ) + m.withdraw_fee(p, amount, now),
        m.apply_withdraw(p, amount, now).bucket_of(p, ClaimKind::Rewards) == m.bucket_of(
            p,
            ClaimKind::Rewards,
        ),
        m.withdraw_fee(p, amount, now) <= amount,
        m.apply_withdraw(p, amount, now).dividends_per_share == m.dividends_per_share,
        m.apply_withdraw(p, amount, now).total_rewards == m.total_rewards,
        m.apply_withdraw(p, amount, now).guards == m.guards,
        forall|q: PrincipalId|
            #[trigger] m.apply_withdraw(p, amount, now).has_user(q) == m.has_user(q),
        forall|q: PrincipalId|
            q != p ==> #[trigger] m.apply_withdraw(p, amount, now).balance_of(q) == m.balance_of(
                q,
            ),
        forall|q: PrincipalId|
            q != p && m.has_user(q) ==> #[trigger] m.apply_withdraw(p, amount, now).user(q)
                == m.user(q),
{
    let i = crate::model::user_index(m.users, p);
    let k0 = choose|k: int| 0 <= k < m.users.len() && m.users[k].principal == p;
    lemma_user_index_unique(m.users, p, k0);
    let u = m.users[i].info;
    lemma_sum_at_least(m.users, i);
    lemma_fee_le_amount(amount, m.leave_early_fee);
    let fee = m.withdraw_fee(p, amount, now);
    assert(fee <= amount);
    let w = m.apply_withdraw(p, amount, now);
    let a2 = (u.amount - amount) as nat;
    let u2 = UserModel {
        amount: a2,
        total_excluded: cumulative_dividends(a2, m.dividends_per_share, m.precision),
        token_to_claim: u.token_to_claim + ((amount - fee) as nat),
        fee_to_claim: u.fee_to_claim + fee,
        ..u
    };
    lemma_with_user(m, i, u2);
    assert(w.users == m.with_user(i, u2).users);
    assert(w.user(p) == u2);
    assert forall|q: PrincipalId|
        q != p && m.has_user(q) implies #[trigger] w.user(q) == m.user(q) by {
        assert(m.with_user(i, u2).user(q) == m.user(q));
    }
}

/// A confirmed reward deposit: the accumulator rises by the deposit's
/// per-share value — truncation loses less than one unit per share — the
/// lifetime counter rises by the deposit, and no balance, bucket or account
/// field other than what accrues from the accumulator changes.
pub proof fn lemma_apply_deposit(m: StateModel, amount: nat)
    requires
        m.wf(),
        m.total_shares > 0,
    ensures
        m.apply_deposit(amount).wf(),
        m.apply_deposit(amount).total_rewards == m.total_rewards + amount,
        m.apply_deposit(amount).total_shares == m.total_shares,
        m.apply_deposit(amount).dividends_per_share == m.dividends_per_share + (amount
            * m.precision) / m.total_shares,
        m.total_shares * ((amount * m.precision) / m.total_shares) <= amount * m.precision,
        m.apply_deposit(amount).users == m.users,
        m.apply_deposit(amount).guards == m.guards,
        forall|q: PrincipalId| #[trigger] m.apply_deposit(amount).has_user(q) == m.has_user(q),
        forall|q: PrincipalId| #[trigger] m.apply_deposit(amount).balance_of(q) == m.balance_of(q),
        forall|q: PrincipalId, k: ClaimKind|
            #[trigger] m.apply_deposit(amount).bucket_of(q, k) == m.bucket_of(q, k),
        forall|q: PrincipalId| #[trigger] m.apply_deposit(amount).pending(q) >= m.pending(q),
{
    let d = m.apply_deposit(amount);
    let delta = (amount * m.precision) / m.total_shares;
    vstd::arithmetic::div_mod::lemma_fundamental_div_mod(
        (amount * m.precision) as int,
        m.total_shares as int,
    );
    vstd::arithmetic::div_mod::lemma_mod_bound(
        (amount * m.precision) as int,
        m.total_shares as int,
    );
    assert forall|i: int| 0 <= i < d.users.len() implies (#[trigger] d.users[i]).info
        .total_excluded <= cumulative_dividends(
        d.users[i].info.amount,
        d.dividends_per_share,
        d.precision,
    ) by {
        lemma_cd_mono(
            m.users[i].info.amount,
            m.users[i].info.amount,
            m.dividends_per_share,
            d.dividends_per_share,
            m.precision,
        );
    }
    assert forall|q: PrincipalId| #[trigger] d.pending(q) >= m.pending(q) by {
        if m.has_user(q) {
            let u = m.user(q);
            lemma_cd_mono(
                u.amount,
                u.amount,
                m.dividends_per_share,
                d.dividends_per_share,
                m.precision,
            );
        }
    }
}

/// A confirmed settlement transfer: exactly the transferred amount leaves
/// the bucket it was owed in — clamped at zero — and nothing else moves: not
/// the balances, not the other buckets, not the accruals, not any other
/// user.
pub proof fn lemma_confirm(m: StateModel, p: PrincipalId, kind: ClaimKind, amount: nat)
    requires
        m.wf(),
    ensures
        m.confirm(p, kind, amount).wf(),
        m.confirm(p, kind, amount).bucket_of(p, kind) == if amount >= m.bucket_of(p, kind) {
            0
        } else {
            (m.bucket_of(p, kind) - amount) as nat
        },
        amount <= m.bucket_of(p, kind) ==> m.confirm(p, kind, amount).bucket_of(p, kind) + amount
            == m.bucket_of(p, kind),
        forall|k2: ClaimKind|
            k2 != kind ==> #[trigger] m.confirm(p, kind, amount).bucket_of(p, k2) == m.bucket_of(
                p,
                k2,
            ),
        forall|q: PrincipalId, k2: ClaimKind|
            q != p ==> #[trigger] m.confirm(p, kind, amount).bucket_of(q, k2) == m.bucket_of(
                q,
                k2,
            ),
        forall|q: PrincipalId| #[trigger] m.confirm(p, kind, amount).has_user(q) == m.has_user(q),
        forall|q: PrincipalId|
            #[trigger] m.confirm(p, kind, amount).balance_of(q) == m.balance_of(q),
        forall|q: PrincipalId| #[trigger] m.confirm(p, kind, amount).pending(q) == m.pending(q),
        m.confirm(p, kind, amount).total_shares == m.total_shares,
        m.confirm(p, kind, amount).total_rewards == m.total_rewards,
        m.confirm(p, kind, amount).dividends_per_share == m.dividends_per_share,
        m.confirm(p, kind, amount).guards == m.guards,
{
    let c = m.confirm(p, kind, amount);
    if m.has_user(p) {
        let i = crate::model::user_index(m.users, p);
        let k0 = choose|k: int| 0 <= k < m.users.len() && m.users[k].principal == p;
        lemma_user_index_unique(m.users, p, k0);
        let u = m.users[i].info;
        let b = m.bucket_of(p, kind);
        let b2: nat = if amount >= b {
            0
        } else {
            (b - amount) as nat
        };
        let u2 = match kind {
            ClaimKind::Fee => UserModel { fee_to_claim: b2, ..u },
            ClaimKind::Rewards => UserModel { rewards_to_claim: b2, ..u },
            ClaimKind::Token => UserModel { token_to_claim: b2, ..u },
        };
        lemma_with_user(m, i, u2);
        assert(c.user(p) == u2);
        assert forall|q: PrincipalId| #[trigger] c.balance_of(q) == m.balance_of(q) by {
            if q != p && m.has_user(q) {
                assert(c.user(q) == m.user(q));
            }
        }
        assert forall|q: PrincipalId| #[trigger] c.pending(q) == m.pending(q) by {
            if q != p && m.has_user(q) {
                assert(c.user(q) == m.user(q));
            }
        }
    }
}

/// What the vault owes in reward tokens on account of one user, scaled by
/// `precision`: the crystallized rewards bucket plus the not-yet-crystallized
/// accrual `amount * dps - precision * total_excluded` (non-negative in every
/// well-formed state, where `total_excluded <= amount * dps / precision`).
pub open spec fn liability_term(u: UserModel, dps: nat, precision: nat) -> int {
    precision * u.rewards_to_claim + u.amount * dps - precision * u.total_excluded
}

/// Total reward liability of the vault, scaled by `precision`.
pub open spec fn sum_liability(users: Seq<EntryModel>, dps: nat, precision: nat) -> int
    decreases users.len(),
{
    if users.len() == 0 {
        0
    } else {
        sum_liability(users.drop_last(), dps, precision) + liability_term(
            users.last().info,
            dps,
            precision,
        )
    }
}

/// Updating one entry moves the total liability by the difference at that
/// entry.
pub proof fn lemma_sum_liability_update(
    users: Seq<EntryModel>,
    i: int,
    e: EntryModel,
    dps: nat,
    precision: nat,
)
    requires
        0 <= i < users.len(),
    ensures
        sum_liability(users.update(i, e), dps, precision) == sum_liability(users, dps, precision)
            - liability_term(users[i].info, dps, precision) + liability_term(
            e.info,
            dps,
            precision,
        ),
    decreases users.len(),
{
    let upd = users.update(i, e);
    if i == users.len() - 1 {
        assert(upd.drop_last() =~= users.drop_last());
    } else {
        assert(upd.drop_last() =~= users.drop_last().update(i, e));
        lemma_sum_liability_update(users.drop_last(), i, e, dps, precision);
    }
}

/// Growing the accumulator by `delta` grows the total liability by exactly
/// `delta` per unit share.
pub proof fn lemma_sum_liability_grows(
    users: Seq<EntryModel>,
    dps: nat,
    delta: nat,
    precision: nat,
)
    ensures
        sum_liability(users, dps + delta, precision) == sum_liability(users, dps, precision)
            + delta * sum_amounts(users),
    decreases users.len(),
{
    if users.len() > 0 {
        lemma_sum_liability_grows(users.drop_last(), dps, delta, precision);
        let a = users.last().info.amount;
        let u = users.last().info;
        assert(a * (dps + delta) == a * dps + a * delta) by (nonlinear_arith);
        assert(a * delta == delta * a) by (nonlinear_arith);
        assert(liability_term(u, dps + delta, precision) == liability_term(u, dps, precision)
            + delta * a);
        vstd::arithmetic::mul::lemma_mul_is_distributive_add(
            delta as int,
            sum_amounts(users.drop_last()) as int,
            a as int,
        );
        assert(sum_amounts(users) == sum_amounts(users.drop_last()) + a);
        assert(delta * sum_amounts(users) == delta * sum_amounts(users.drop_last()) + delta * a);
    } else {
        assert(delta * sum_amounts(users) == 0) by (nonlinear_arith)
            requires
                sum_amounts(users) == 0,
        ;
    }
}

/// Crystallization converts accrual into the rewards bucket one for one: the
/// total reward liability does not move.
pub proof fn lemma_crystallize_conserves_liability(m: StateModel, p: PrincipalId)
    requires
        m.wf(),
    ensures
        sum_liability(m.crystallize(p).users, m.dividends_per_share, m.precision) == sum_liability(
            m.users,
            m.dividends_per_share,
            m.precision,
        ),
{
    let dps = m.dividends_per_share;
    let pr = m.precision;
    if m.has_user(p) {
        let i = crate::model::user_index(m.users, p);
        let k0 = choose|k: int| 0 <= k < m.users.len() && m.users[k].principal == p;
        lemma_user_index_unique(m.users, p, k0);
        let u = m.users[i].info;
        let pend = pending_of(u, dps, pr);
        if u.amount == 0 || pend == 0 {
        } else {
            let cd = cumulative_dividends(u.amount, dps, pr);
            let u2 = UserModel {
                total_excluded: cd,
                rewards_to_claim: u.rewards_to_claim + pend,
                ..u
            };
            lemma_sum_liability_update(
                m.users,
                i,
                EntryModel { principal: p, info: u2 },
                dps,
                pr,
            );
            assert(pend == cd - u.total_excluded);
            vstd::arithmetic::mul::lemma_mul_is_distributive_add(
                pr as int,
                u.rewards_to_claim as int,
                pend as int,
            );
            assert(liability_term(u2, dps, pr) == liability_term(u, dps, pr)) by {
                vstd::arithmetic::mul::lemma_mul_is_distributive_sub(
                    pr as int,
                    cd as int,
                    u.total_excluded as int,
                );
            }
        }
    }
}

/// A deposit of `r` raises the scaled liability by at most `precision * r`:
/// together with `lemma_crystallize_conserves_liability` and
/// `lemma_confirm_rewards_liability` this bounds, along every sequence of
/// deposits, crystallizations and confirmed reward payouts, the rewards paid
/// out by the rewards deposited.
pub proof fn lemma_deposit_liability(m: StateModel, r: nat)
    requires
        m.wf(),
        m.total_shares > 0,
    ensures
        sum_liability(
            m.apply_deposit(r).users,
            m.apply_deposit(r).dividends_per_share,
            m.precision,
        ) <= sum_liability(m.users, m.dividends_per_share, m.precision) + m.precision * r,
        m.apply_deposit(r).total_rewards == m.total_rewards + r,
{
    let t = m.total_shares;
    let pr = m.precision;
    let delta = (r * pr) / t;
    lemma_sum_liability_grows(m.users, m.dividends_per_share, delta, pr);
    vstd::arithmetic::div_mod::lemma_fundamental_div_mod((r * pr) as int, t as int);
    vstd::arithmetic::div_mod::lemma_mod_bound((r * pr) as int, t as int);
    assert(delta * t <= r * pr) by (nonlinear_arith)
        requires
            t * delta <= r * pr,
    ;
    assert(delta * sum_amounts(m.users) == delta * t);
    assert(r * pr == pr * r) by (nonlinear_arith);
}

/// A confirmed reward payout of at most the owed bucket lowers the scaled
/// liability by exactly `precision` times the paid amount: what was paid is
/// no longer owed, and nothing else becomes owed.
pub proof fn lemma_confirm_rewards_liability(m: StateModel, p: PrincipalId, amount: nat)
    requires
        m.wf(),
        amount <= m.bucket_of(p, ClaimKind::Rewards),
    ensures
        sum_liability(
            m.confirm(p, ClaimKind::Rewards, amount).users,
            m.dividends_per_share,
            m.precision,
        ) == sum_liability(m.users, m.dividends_per_share, m.precision) - m.precision * amount,
{
    let dps = m.dividends_per_share;
    let pr = m.precision;
    if m.has_user(p) {
        let i = crate::model::user_index(m.users, p);
        let k0 = choose|k: int| 0 <= k < m.users.len() && m.users[k].principal == p;
        lemma_user_index_unique(m.users, p, k0);
        let u = m.users[i].info;
        let b = m.bucket_of(p, ClaimKind::Rewards);
        let b2: nat = if amount >= b {
            0
        } else {
            (b - amount) as nat
        };
        let u2 = UserModel { rewards_to_claim: b2, ..u };
        lemma_sum_liability_update(m.users, i, EntryModel { principal: p, info: u2 }, dps, pr);
        assert(b2 == b - amount);
        vstd::arithmetic::mul::lemma_mul_is_distributive_sub(pr as int, b as int, amount as int);
    } else {
        assert(amount == 0);
        assert(m.confirm(p, ClaimKind::Rewards, amount) == m);
        assert(pr * amount == 0) by (nonlinear_arith)
            requires
                amount == 0,
        ;
    }
}

/// Re-flooring the baseline at a new amount leaves less than one token unit
/// (`precision`, scaled) of accrual behind: the account's liability term
/// rises by less than `precision` across any baseline resync.
proof fn lemma_term_resync_bound(u_old: UserModel, u_new: UserModel, dps: nat, precision: nat)
    requires
        precision >= 1,
        u_new.rewards_to_claim == u_old.rewards_to_claim,
        u_new.total_excluded == cumulative_dividends(u_new.amount, dps, precision),
        precision * u_old.total_excluded <= u_old.amount * dps,
    ensures
        liability_term(u_new, dps, precision) < liability_term(u_old, dps, precision) + precision,
{
    let x = u_new.amount * dps;
    vstd::arithmetic::div_mod::lemma_fundamental_div_mod(x as int, precision as int);
    vstd::arithmetic::div_mod::lemma_mod_bound(x as int, precision as int);
    assert(x - precision * (x / precision) < precision);
}

/// A stake changes the total reward liability by less than one token unit:
/// the only movement is the baseline re-floored at the grown amount.
pub proof fn lemma_stake_liability_drift(m: StateModel, p: PrincipalId, amount: nat, now: nat)
    requires
        m.wf(),
        m.has_user(p),
    ensures
        sum_liability(m.apply_stake(p, amount, now).users, m.dividends_per_share, m.precision)
            < sum_liability(m.users, m.dividends_per_share, m.precision) + m.precision,
{
    let dps = m.dividends_per_share;
    let pr = m.precision;
    let i = crate::model::user_index(m.users, p);
    let k0 = choose|k: int| 0 <= k < m.users.len() && m.users[k].principal == p;
    lemma_user_index_unique(m.users, p, k0);
    let u = m.users[i].info;
    let a2 = u.amount + amount;
    let u2 = UserModel {
        amount: a2,
        unlock_time: now + m.lock_time,
        total_excluded: cumulative_dividends(a2, dps, pr),
        ..u
    };
    lemma_baseline_within(m, i);
    lemma_term_resync_bound(u, u2, dps, pr);
    lemma_sum_liability_update(m.users, i, EntryModel { principal: p, info: u2 }, dps, pr);
}

/// A withdrawal changes the total reward liability by less than one token
/// unit: the rewards bucket is untouched and only the baseline is
/// re-floored at the shrunk amount.
pub proof fn lemma_withdraw_liability_drift(m: StateModel, p: PrincipalId, amount: nat, now: nat)
    requires
        m.wf(),
        m.has_user(p),
        amount <= m.user(p).amount,
    ensures
        sum_liability(m.apply_withdraw(p, amount, now).users, m.dividends_per_share, m.precision)
            < sum_liability(m.users, m.dividends_per_share, m.precision) + m.precision,
{
    let dps = m.dividends_per_share;
    let pr = m.precision;
    let i = crate::model::user_index(m.users, p);
    let k0 = choose|k: int| 0 <= k < m.users.len() && m.users[k].principal == p;
    lemma_user_index_unique(m.users, p, k0);
    let u = m.users[i].info;
    lemma_sum_at_least(m.users, i);
    lemma_fee_le_amount(amount, m.leave_early_fee);
    let fee = m.withdraw_fee(p, amount, now);
    if fee > amount {
    } else {
        let a2 = (u.amount - amount) as nat;
        let u2 = UserModel {
            amount: a2,
            total_excluded: cumulative_dividends(a2, dps, pr),
            token_to_claim: u.token_to_claim + ((amount - fee) as nat),
            fee_to_claim: u.fee_to_claim + fee,
            ..u
        };
        lemma_baseline_within(m, i);
        lemma_term_resync_bound(u, u2, dps, pr);
        lemma_sum_liability_update(m.users, i, EntryModel { principal: p, info: u2 }, dps, pr);
    }
}

/// In a well-formed state the scaled baseline stays within the accumulator
/// product: no account's liability term is negative.
proof fn lemma_baseline_within(m: StateModel, i: int)
    requires
        m.wf(),
        0 <= i < m.users.len(),
    ensures
        m.precision * m.users[i].info.total_excluded <= m.users[i].info.amount
            * m.dividends_per_share,
{
    let u = m.users[i].info;
    let x = u.amount * m.dividends_per_share;
    let pr = m.precision;
    assert(u.total_excluded <= x / pr);
    lemma_mul_mono_right(pr, u.total_excluded, x / pr);
    vstd::arithmetic::div_mod::lemma_fundamental_div_mod(x as int, pr as int);
    vstd::arithmetic::div_mod::lemma_mod_bound(x as int, pr as int);
}

/// Truncating division splits a sum into at most its two truncated parts
/// plus one, and at least their sum.
pub proof fn lemma_div_add_le(x: nat, y: nat, d: nat)
    requires
        d >= 1,
    ensures
        (x + y) / d <= x / d + y / d + 1,
        x / d + y / d <= (x + y) / d,
{
    let qx = x / d;
    let rx = x % d;
    let qy = y / d;
    let ry = y % d;
    vstd::arithmetic::div_mod::lemma_fundamental_div_mod(x as int, d as int);
    vstd::arithmetic::div_mod::lemma_fundamental_div_mod(y as int, d as int);
    vstd::arithmetic::div_mod::lemma_mod_bound(x as int, d as int);
    vstd::arithmetic::div_mod::lemma_mod_bound(y as int, d as int);
    assert(x + y == (qx + qy) * d + (rx + ry)) by (nonlinear_arith)
        requires
            x == d * qx + rx,
            y == d * qy + ry,
    ;
    if rx + ry < d {
        vstd::arithmetic::div_mod::lemma_fundamental_div_mod_converse(
            (x + y) as int,
            d as int,
            (qx + qy) as int,
            (rx + ry) as int,
        );
    } else {
        assert(x + y == (qx + qy + 1) * d + (rx + ry - d)) by (nonlinear_arith)
            requires
                x + y == (qx + qy) * d + (rx + ry),
                d >= 1,
        ;
        vstd::arithmetic::div_mod::lemma_fundamental_div_mod_converse(
            (x + y) as int,
            d as int,
            (qx + qy + 1) as int,
            (rx + ry - d) as int,
        );
    }
}

/// `(z * t) / (t * p) == z / p`: a common factor of dividend and divisor
/// cancels.
pub proof fn lemma_div_cancel_factor(z: nat, t: nat, p: nat)
    requires
        t >= 1,
        p >= 1,
    ensures
        (z * t) / (t * p) == z / p,
{
    vstd::arithmetic::div_mod::lemma_div_denominator((z * t) as int, t as int, p as int);
    assert((z * t) / (t * p) == ((z * t) / t) / p);
    vstd::arithmetic::mul::lemma_mul_is_commutative(z as int, t as int);
    vstd::arithmetic::div_mod::lemma_div_by_multiple(z as int, t as int);
    assert((z * t) / t == z);
}

/// Reward fairness: a user whose baseline is synchronized receives, from a
/// deposit of `r`, rewards bounded by the exact proportional share
/// `amount * r / total_shares` — at most one unit above it by truncation,
/// and below it by no more than one unit per share of the precision scale.
pub proof fn lemma_reward_fairness(m: StateModel, r: nat, p: PrincipalId)
    requires
        m.wf(),
        m.total_shares > 0,
        m.has_user(p),
        m.pending(p) == 0,
    ensures
        m.apply_deposit(r).pending(p) <= (m.user(p).amount * r) / m.total_shares + 1,
        (m.user(p).amount * r) / m.total_shares <= m.apply_deposit(r).pending(p) + m.user(
            p,
        ).amount / m.precision + 1,
{
    let a = m.user(p).amount;
    let t = m.total_shares;
    let pr = m.precision;
    let dps = m.dividends_per_share;
    let delta = (r * pr) / t;
    let d = m.apply_deposit(r);
    lemma_apply_deposit(m, r);
    assert(d.user(p) == m.user(p));
    if a == 0 {
        assert(pending_of(d.user(p), d.dividends_per_share, d.precision) == 0);
        assert((a * r) == 0) by (nonlinear_arith)
            requires
                a == 0,
        ;
        assert((a * r) / t == 0) by {
            vstd::arithmetic::div_mod::lemma_basic_div_specific_divisor(t as int);
        }
    } else {
        let i = crate::model::user_index(m.users, p);
        let k0 = choose|k: int| 0 <= k < m.users.len() && m.users[k].principal == p;
        lemma_user_index_unique(m.users, p, k0);
        let u = m.users[i].info;
        assert(u == m.user(p));
        // A synchronized baseline: accrual zero and the invariant bound meet.
        let cd0 = cumulative_dividends(a, dps, pr);
        assert(u.total_excluded == cd0);
        let cd1 = cumulative_dividends(a, dps + delta, pr);
        lemma_cd_mono(a, a, dps, dps + delta, pr);
        assert(d.pending(p) == cd1 - cd0);
        // Split the grown accumulator product into its two parts.
        vstd::arithmetic::mul::lemma_mul_is_distributive_add(a as int, dps as int, delta as int);
        assert(a * (dps + delta) == a * dps + a * delta);
        lemma_div_add_le(a * dps, a * delta, pr);
        assert(cd1 <= cd0 + (a * delta) / pr + 1);
        assert(cd0 + (a * delta) / pr <= cd1);
        // The accumulator increment underestimates the deposit's per-share
        // value, and overestimates it by less than one unit per share.
        vstd::arithmetic::div_mod::lemma_fundamental_div_mod((r * pr) as int, t as int);
        vstd::arithmetic::div_mod::lemma_mod_bound((r * pr) as int, t as int);
        assert(t * delta <= r * pr < t * delta + t);
        // Upper bound: a * delta / pr <= a * r / t.
        assert(a * delta * t <= a * (r * pr)) by (nonlinear_arith)
            requires
                t * delta <= r * pr,
        ;
        assert(a * (r * pr) == a * r * pr) by (nonlinear_arith);
        assert(t * pr >= 1 && pr * t >= 1) by (nonlinear_arith)
            requires
                t >= 1,
                pr >= 1,
        ;
        lemma_div_cancel_factor(a * delta, t, pr);
        assert(t * pr == pr * t) by (nonlinear_arith);
        lemma_div_cancel_factor(a * r, pr, t);
        lemma_div_is_ordered((a * delta * t) as int, (a * r * pr) as int, (t * pr) as int);
        assert((a * delta) / pr == (a * delta * t) / (t * pr));
        assert((a * r) / t == (a * r * pr) / (pr * t));
        assert((a * delta) / pr <= (a * r) / t);
        assert(d.pending(p) <= (a * r) / t + 1);
        // Lower bound: a * r / t <= a * delta / pr + a / pr + 1.
        assert(a * r * pr <= a * (delta + 1) * t) by (nonlinear_arith)
            requires
                r * pr < t * delta + t,
        ;
        lemma_div_cancel_factor(a * (delta + 1), t, pr);
        lemma_div_is_ordered((a * r * pr) as int, (a * (delta + 1) * t) as int, (pr * t) as int);
        assert((a * (delta + 1) * t) / (t * pr) == (a * (delta + 1)) / pr);
        assert(a * (delta + 1) == a * delta + a) by (nonlinear_arith);
        lemma_div_add_le(a * delta, a, pr);
        assert((a * r) / t <= (a * delta) / pr + a / pr + 1);
    }
}

/// Two users with equal shares and synchronized baselines receive exactly
/// the same reward from any deposit.
pub proof fn lemma_equal_shares_equal_rewards(m: StateModel, r: nat, p1: PrincipalId, p2: PrincipalId)
    requires
        m.wf(),
        m.total_shares > 0,
        m.has_user(p1),
        m.has_user(p2),
        m.pending(p1) == 0,
        m.pending(p2) == 0,
        m.user(p1).amount == m.user(p2).amount,
    ensures
        m.apply_deposit(r).pending(p1) == m.apply_deposit(r).pending(p2),
{
    let d = m.apply_deposit(r);
    lemma_apply_deposit(m, r);
    assert(d.user(p1) == m.user(p1) && d.user(p2) == m.user(p2));
    let a = m.user(p1).amount;
    if a != 0 {
        let i1 = crate::model::user_index(m.users, p1);
        let k1 = choose|k: int| 0 <= k < m.users.len() && m.users[k].principal == p1;
        lemma_user_index_unique(m.users, p1, k1);
        let i2 = crate::model::user_index(m.users, p2);
        let k2 = choose|k: int| 0 <= k < m.users.len() && m.users[k].principal == p2;
        lemma_user_index_unique(m.users, p2, k2);
        assert(m.user(p1).total_excluded == cumulative_dividends(
            a,
            m.dividends_per_share,
            m.precision,
        ));
        assert(m.user(p2).total_excluded == m.user(p1).total_excluded);
    }
}

/// No double payment: paying a bucket in full empties it, and replaying the
/// same settlement step afterwards transfers zero and changes nothing.
pub proof fn lemma_no_double_payment(m: StateModel, p: PrincipalId, kind: ClaimKind)
    requires
        m.wf(),
    ensures
        m.confirm(p, kind, m.bucket_of(p, kind)).bucket_of(p, kind) == 0,
        m.confirm(p, kind, m.bucket_of(p, kind)).confirm(p, kind, 0) == m.confirm(
            p,
            kind,
            m.bucket_of(p, kind),
        ),
{
    lemma_confirm(m, p, kind, m.bucket_of(p, kind));
    let m1 = m.confirm(p, kind, m.bucket_of(p, kind));
    lemma_confirm(m1, p, kind, 0);
    if m1.has_user(p) {
        let i = crate::model::user_index(m1.users, p);
        let k0 = choose|k: int| 0 <= k < m1.users.len() && m1.users[k].principal == p;
        lemma_user_index_unique(m1.users, p, k0);
        assert(m1.confirm(p, kind, 0).users =~= m1.users);
        assert(m1.confirm(p, kind, 0) =~~= m1);
    }
}

/// No lost claim: a confirmed transfer of at most the owed amount leaves
/// owed-plus-paid invariant, and a failed transfer performs no transition
/// at all, so the owed amount stays exactly recoverable by a later pass.
pub proof fn lemma_no_lost_claim(m: StateModel, p: PrincipalId, kind: ClaimKind, amount: nat)
    requires
        m.wf(),
        amount <= m.bucket_of(p, kind),
    ensures
        m.confirm(p, kind, amount).bucket_of(p, kind) + amount == m.bucket_of(p, kind),
{
    lemma_confirm(m, p, kind, amount);
}

/// Guard exclusivity: once a lease for a principal is acquired, a second
/// acquisition for the same principal cannot succeed until the first lease
/// is released — and releasing it restores the ledger exactly.
pub proof fn lemma_guard_exclusive(m: StateModel, p: PrincipalId)
    requires
        m.wf(),
        m.can_acquire(p),
    ensures
        m.acquire(p).guard_held(p),
        !m.acquire(p).can_acquire(p),
        m.acquire(p).release(p) == m,
{
    crate::guard::lemma_acquire(m, p);
    lemma_acquire_release(m, p);
}

/// Conservation: in every well-formed ledger the total shares equal the sum
/// of all users' staked amounts, and every operation of the vault — guard,
/// crystallization, account creation, stake, withdrawal, deposit and
/// settlement — preserves well-formedness, so the equality holds along
/// every sequence of operations.
pub proof fn lemma_conservation(
    m: StateModel,
    p: PrincipalId,
    amount: nat,
    now: nat,
    kind: ClaimKind,
)
    requires
        m.wf(),
    ensures
        m.total_shares == sum_amounts(m.users),
        m.crystallize(p).wf(),
        m.with_account(p).wf(),
        m.has_user(p) ==> m.apply_stake(p, amount, now).wf(),
        m.has_user(p) && amount <= m.user(p).amount ==> m.apply_withdraw(p, amount, now).wf(),
        m.total_shares > 0 ==> m.apply_deposit(amount).wf(),
        m.confirm(p, kind, amount).wf(),
        m.can_acquire(p) ==> m.acquire(p).wf(),
        m.release(p).wf(),
{
    lemma_crystallize(m, p);
    lemma_with_account(m, p);
    if m.has_user(p) {
        lemma_apply_stake(m, p, amount, now);
        if amount <= m.user(p).amount {
            lemma_apply_withdraw(m, p, amount, now);
        }
    }
    if m.total_shares > 0 {
        lemma_apply_deposit(m, amount);
    }
    lemma_confirm(m, p, kind, amount);
    if m.can_acquire(p) {
        crate::guard::lemma_acquire(m, p);
    }
    crate::guard::lemma_release(m, p);
}

/// Releasing a lease right after acquiring it restores the ledger exactly;
/// nothing of an aborted operation remains.
pub proof fn lemma_acquire_release(m: StateModel, p: PrincipalId)
    requires
        m.wf(),
        !m.guard_held(p),
    ensures
        m.acquire(p).release(p) == m,
{
    let g = m.guards;
    let g2 = g.push(p);
    assert(g2[g.len() as int] == p);
    assert(g2.contains(p));
    g2.index_of_first_ensures(p);
    let i = g2.index_of_first(p)->Some_0;
    assert(forall|k: int| 0 <= k < g.len() ==> g[k] != p);
    assert(i == g.len() as int);
    assert(g2.remove(i) =~= g);
    assert(m.acquire(p).release(p) =~~= m);
}

} // verus!
