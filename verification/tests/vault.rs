use staking_vault::guard::{GuardError, GuardPrincipal};
use staking_vault::model::ClaimKind;
use staking_vault::state::{GuardState, State, UserInfo, PRECISION};
use staking_vault::{
    claim_rewards_begin, confirm_claim, deposit_rewards_begin, deposit_rewards_commit, init_claim_rewards,
    next_claim, stake_begin, stake_commit, try_init_account, withdraw_begin, StakingError,
};

const TOKEN: u64 = 1;
const REWARD: u64 = 2;
const FEE_RECIPIENT: u64 = 3;
const ALICE: u64 = 10;
const BOB: u64 = 11;

fn fresh_vault(leave_early_fee: u128, lock_time: u64) -> State {
    State::init(TOKEN, REWARD, FEE_RECIPIENT, leave_early_fee, lock_time)
}

fn stake(s: &mut State, who: u64, amount: u128, now: u64) {
    let g = stake_begin(s, who, amount).expect("stake_begin");
    stake_commit(s, g, amount, now);
}

#[test]
fn init_fixes_configuration() {
    let s = fresh_vault(10, 1000);
    let m = s.get_metadata();
    assert_eq!(m.lock_time, 1000);
    assert_eq!(m.leave_early_fee, 10);
    assert_eq!(m.fee_recipient, FEE_RECIPIENT);
    assert_eq!(m.token, TOKEN);
    assert_eq!(m.reward, REWARD);
    assert_eq!(s.total_supply(), 0);
    assert_eq!(s.total_rewards(), 0);
    assert_eq!(s.balance_of(ALICE), 0);
    assert_eq!(s.pending_rewards(ALICE), 0);
}

#[test]
fn default_account_is_zeroed() {
    let u = UserInfo::default();
    assert_eq!(u.amount, 0);
    assert_eq!(u.unlock_time, 0);
    assert_eq!(u.total_excluded, 0);
    assert_eq!(u.token_to_claim, 0);
    assert_eq!(u.rewards_to_claim, 0);
    assert_eq!(u.fee_to_claim, 0);
}

#[test]
fn time_until_unlock_counts_down_to_zero() {
    let mut u = UserInfo::default();
    u.unlock_time = 1000;
    assert_eq!(u.time_until_unlock(0), 1000);
    assert_eq!(u.time_until_unlock(400), 600);
    assert_eq!(u.time_until_unlock(1000), 0);
    assert_eq!(u.time_until_unlock(2000), 0);
}

#[test]
fn stake_updates_balance_shares_and_lock() {
    let mut s = fresh_vault(10, 1000);
    stake(&mut s, ALICE, 100, 7);
    assert_eq!(s.balance_of(ALICE), 100);
    assert_eq!(s.total_supply(), 100);
    let u = s.get_user(ALICE).expect("account exists");
    assert_eq!(u.unlock_time, 1007);
    // The lease is given back by the commit.
    assert_eq!(s.guard_state(ALICE), GuardState::GuardUnlocked);
}

#[test]
fn stake_rejects_zero_amount() {
    let mut s = fresh_vault(10, 1000);
    assert_eq!(stake_begin(&mut s, ALICE, 0).unwrap_err(), StakingError::ZeroAmount);
}

#[test]
fn stake_abort_on_failed_transfer_changes_nothing() {
    let mut s = fresh_vault(10, 1000);
    let g = stake_begin(&mut s, ALICE, 100).expect("stake_begin");
    // The external transfer-in failed: the application releases the lease
    // without committing.
    g.release(&mut s);
    assert_eq!(s.balance_of(ALICE), 0);
    assert_eq!(s.total_supply(), 0);
    assert_eq!(s.guard_state(ALICE), GuardState::GuardUnlocked);
}

#[test]
fn guard_is_exclusive_per_principal() {
    let mut s = fresh_vault(10, 1000);
    let g = GuardPrincipal::new(&mut s, ALICE).expect("first lease");
    assert_eq!(s.guard_state(ALICE), GuardState::GuardLocked);
    // A second operation for the same principal observes Busy...
    assert_eq!(
        GuardPrincipal::new(&mut s, ALICE).unwrap_err(),
        GuardError::AlreadyProcessing
    );
    assert_eq!(stake_begin(&mut s, ALICE, 5).unwrap_err(), StakingError::Busy);
    // ...while another principal is not affected...
    let gb = GuardPrincipal::new(&mut s, BOB).expect("other principal");
    gb.release(&mut s);
    // ...until the first lease is released.
    g.release(&mut s);
    assert_eq!(s.guard_state(ALICE), GuardState::GuardUnlocked);
    let g2 = GuardPrincipal::new(&mut s, ALICE).expect("after release");
    g2.release(&mut s);
}

#[test]
fn guard_enforces_concurrency_ceiling() {
    let mut s = fresh_vault(10, 1000);
    let mut leases = Vec::new();
    for p in 0..100u64 {
        leases.push(GuardPrincipal::new(&mut s, 1000 + p).expect("below ceiling"));
    }
    assert_eq!(
        GuardPrincipal::new(&mut s, 5000).unwrap_err(),
        GuardError::TooManyConcurrentRequests
    );
    for g in leases {
        g.release(&mut s);
    }
    let g = GuardPrincipal::new(&mut s, 5000).expect("after releases");
    g.release(&mut s);
}

#[test]
fn deposit_requires_shares() {
    let mut s = fresh_vault(10, 1000);
    assert_eq!(deposit_rewards_begin(&s, 10).unwrap_err(), StakingError::NoShare);
    assert_eq!(
        deposit_rewards_commit(&mut s, 10).unwrap_err(),
        StakingError::NoShare
    );
    assert_eq!(s.total_rewards(), 0);
}

#[test]
fn equal_shares_earn_equal_rewards() {
    // Two stakers of 100 each; a deposit of 10 raises the accumulator by
    // 10 * PRECISION / 200 and each staker accrues exactly 5.
    let mut s = fresh_vault(10, 1000);
    stake(&mut s, ALICE, 100, 0);
    stake(&mut s, BOB, 100, 0);
    assert_eq!(s.total_supply(), 200);
    deposit_rewards_begin(&s, 10).expect("shares exist");
    deposit_rewards_commit(&mut s, 10).expect("deposit");
    assert_eq!(s.dividends_per_share, 10 * PRECISION / 200);
    assert_eq!(s.total_rewards(), 10);
    assert_eq!(s.pending_rewards(ALICE), 5);
    assert_eq!(s.pending_rewards(BOB), 5);
}

#[test]
fn rewards_truncate_toward_the_vault() {
    // 3 and 6 staked; deposit of 2: the accumulator adds
    // 2 * PRECISION / 9 and each pending reward rounds down.
    let mut s = fresh_vault(0, 0);
    stake(&mut s, ALICE, 3, 0);
    stake(&mut s, BOB, 6, 0);
    deposit_rewards_commit(&mut s, 2).expect("deposit");
    let dps = 2 * PRECISION / 9;
    assert_eq!(s.dividends_per_share, dps);
    assert_eq!(s.pending_rewards(ALICE), 3 * dps / PRECISION);
    assert_eq!(s.pending_rewards(BOB), 6 * dps / PRECISION);
    // Truncated below the exact proportional shares 2/3 and 4/3.
    assert_eq!(s.pending_rewards(ALICE), 0);
    assert_eq!(s.pending_rewards(BOB), 1);
}

#[test]
fn early_withdraw_charges_fee_into_buckets() {
    // Stake 100 with a 1000-lock and a fee numerator of 10; withdrawing 50
    // at time 500 (before unlock) charges 50 * 10 / 100 = 5: the user is
    // owed 45, the fee bucket 5.
    let mut s = fresh_vault(10, 1000);
    stake(&mut s, ALICE, 100, 0);
    let g = withdraw_begin(&mut s, ALICE, 50, 500).expect("withdraw_begin");
    assert_eq!(s.balance_of(ALICE), 50);
    assert_eq!(s.total_supply(), 50);
    let u = s.get_user(ALICE).expect("account");
    assert_eq!(u.token_to_claim, 45);
    assert_eq!(u.fee_to_claim, 5);
    g.release(&mut s);
}

#[test]
fn late_withdraw_charges_no_fee() {
    let mut s = fresh_vault(10, 1000);
    stake(&mut s, ALICE, 100, 0);
    let g = withdraw_begin(&mut s, ALICE, 50, 1000).expect("withdraw_begin");
    let u = s.get_user(ALICE).expect("account");
    assert_eq!(u.token_to_claim, 50);
    assert_eq!(u.fee_to_claim, 0);
    g.release(&mut s);
}

#[test]
fn withdraw_rejects_zero_and_overdraft() {
    let mut s = fresh_vault(10, 1000);
    stake(&mut s, ALICE, 100, 0);
    assert_eq!(
        withdraw_begin(&mut s, ALICE, 0, 0).unwrap_err(),
        StakingError::ZeroAmount
    );
    assert_eq!(
        withdraw_begin(&mut s, ALICE, 101, 0).unwrap_err(),
        StakingError::InsufficientBalance
    );
    assert_eq!(
        withdraw_begin(&mut s, BOB, 1, 0).unwrap_err(),
        StakingError::InsufficientBalance
    );
    assert_eq!(s.balance_of(ALICE), 100);
    assert_eq!(s.guard_state(ALICE), GuardState::GuardUnlocked);
}

#[test]
fn settlement_pays_fee_then_rewards_then_stake() {
    let mut s = fresh_vault(10, 1000);
    stake(&mut s, ALICE, 100, 0);
    deposit_rewards_commit(&mut s, 7).expect("deposit");
    let g = withdraw_begin(&mut s, ALICE, 50, 500).expect("withdraw_begin");

    let t1 = next_claim(&s, ALICE).expect("fee first");
    assert_eq!(t1.kind, ClaimKind::Fee);
    assert_eq!(t1.amount, 5);
    assert_eq!(t1.ledger, TOKEN);
    assert_eq!(t1.to, FEE_RECIPIENT);
    confirm_claim(&mut s, ALICE, t1.kind, t1.amount);

    let t2 = next_claim(&s, ALICE).expect("rewards second");
    assert_eq!(t2.kind, ClaimKind::Rewards);
    assert_eq!(t2.amount, 7);
    assert_eq!(t2.ledger, REWARD);
    assert_eq!(t2.to, ALICE);
    confirm_claim(&mut s, ALICE, t2.kind, t2.amount);

    let t3 = next_claim(&s, ALICE).expect("stake last");
    assert_eq!(t3.kind, ClaimKind::Token);
    assert_eq!(t3.amount, 45);
    assert_eq!(t3.ledger, TOKEN);
    assert_eq!(t3.to, ALICE);
    confirm_claim(&mut s, ALICE, t3.kind, t3.amount);

    assert!(next_claim(&s, ALICE).is_none());
    g.release(&mut s);
}

#[test]
fn failed_transfer_leaves_claim_recoverable() {
    let mut s = fresh_vault(10, 1000);
    stake(&mut s, ALICE, 100, 0);
    let g = withdraw_begin(&mut s, ALICE, 50, 500).expect("withdraw_begin");
    let t = next_claim(&s, ALICE).expect("fee owed");
    assert_eq!((t.kind, t.amount), (ClaimKind::Fee, 5));
    // The external transfer failed: nothing is confirmed, the pass stops.
    g.release(&mut s);
    // A later pass finds the same obligation, untouched.
    let t2 = next_claim(&s, ALICE).expect("fee still owed");
    assert_eq!((t2.kind, t2.amount), (ClaimKind::Fee, 5));
    let u = s.get_user(ALICE).expect("account");
    assert_eq!(u.fee_to_claim, 5);
    assert_eq!(u.token_to_claim, 45);
}

#[test]
fn replaying_a_confirmed_settlement_pays_nothing() {
    let mut s = fresh_vault(0, 0);
    stake(&mut s, ALICE, 100, 0);
    deposit_rewards_commit(&mut s, 9).expect("deposit");
    let g = claim_rewards_begin(&mut s, ALICE).expect("claim");
    let t = next_claim(&s, ALICE).expect("rewards owed");
    assert_eq!((t.kind, t.amount), (ClaimKind::Rewards, 9));
    confirm_claim(&mut s, ALICE, t.kind, t.amount);
    // The bucket is empty: replaying the pass requests no further transfer,
    // and a duplicate confirmation moves nothing below zero.
    assert!(next_claim(&s, ALICE).is_none());
    confirm_claim(&mut s, ALICE, ClaimKind::Rewards, t.amount);
    assert_eq!(s.get_user(ALICE).expect("account").rewards_to_claim, 0);
    g.release(&mut s);
}

#[test]
fn claim_rewards_crystallizes_and_rejects_empty_claims() {
    let mut s = fresh_vault(0, 0);
    assert_eq!(
        claim_rewards_begin(&mut s, ALICE).unwrap_err(),
        StakingError::NothingToClaim
    );
    stake(&mut s, ALICE, 100, 0);
    assert_eq!(
        claim_rewards_begin(&mut s, ALICE).unwrap_err(),
        StakingError::NothingToClaim
    );
    deposit_rewards_commit(&mut s, 4).expect("deposit");
    let g = claim_rewards_begin(&mut s, ALICE).expect("claim");
    let u = s.get_user(ALICE).expect("account");
    assert_eq!(u.rewards_to_claim, 4);
    // Crystallized rewards no longer count as accrued.
    assert_eq!(s.pending_rewards(ALICE), 0);
    g.release(&mut s);
}

#[test]
fn crystallization_preserves_owed_rewards() {
    let mut s = fresh_vault(0, 0);
    stake(&mut s, ALICE, 100, 0);
    deposit_rewards_commit(&mut s, 6).expect("deposit");
    let before = s.pending_rewards(ALICE);
    init_claim_rewards(&mut s, ALICE);
    let u = s.get_user(ALICE).expect("account");
    assert_eq!(u.rewards_to_claim, before);
    assert_eq!(s.pending_rewards(ALICE), 0);
}

#[test]
fn new_stake_does_not_dilute_earned_rewards() {
    let mut s = fresh_vault(0, 0);
    stake(&mut s, ALICE, 100, 0);
    deposit_rewards_commit(&mut s, 8).expect("deposit");
    // Staking again first crystallizes the 8 already earned.
    stake(&mut s, ALICE, 100, 0);
    let u = s.get_user(ALICE).expect("account");
    assert_eq!(u.rewards_to_claim, 8);
    assert_eq!(s.pending_rewards(ALICE), 0);
    assert_eq!(s.balance_of(ALICE), 200);
}

#[test]
fn try_init_account_is_idempotent() {
    let mut s = fresh_vault(0, 0);
    try_init_account(&mut s, ALICE);
    assert!(s.get_user(ALICE).is_some());
    stake(&mut s, ALICE, 42, 0);
    try_init_account(&mut s, ALICE);
    assert_eq!(s.balance_of(ALICE), 42);
}

#[test]
fn total_shares_track_the_sum_of_balances() {
    // Conservation along a mixed sequence of operations.
    let mut s = fresh_vault(10, 1000);
    stake(&mut s, ALICE, 100, 0);
    stake(&mut s, BOB, 300, 0);
    deposit_rewards_commit(&mut s, 11).expect("deposit");
    let g = withdraw_begin(&mut s, ALICE, 60, 2000).expect("withdraw");
    g.release(&mut s);
    stake(&mut s, ALICE, 25, 0);
    assert_eq!(
        s.total_supply(),
        s.balance_of(ALICE) + s.balance_of(BOB)
    );
    assert_eq!(s.total_supply(), 365);
}

#[test]
fn maximal_fee_numerator_consumes_the_whole_withdrawal() {
    // With the fee numerator at its 100 denominator, an early withdrawal
    // nets nothing: the whole amount becomes fee.
    let mut s = fresh_vault(100, 1000);
    stake(&mut s, ALICE, 40, 0);
    let g = withdraw_begin(&mut s, ALICE, 40, 0).expect("withdraw_begin");
    let u = s.get_user(ALICE).expect("account");
    assert_eq!(u.token_to_claim, 0);
    assert_eq!(u.fee_to_claim, 40);
    assert_eq!(s.balance_of(ALICE), 0);
    g.release(&mut s);
}

#[test]
fn claim_rewards_considers_only_reward_buckets() {
    // A stranded stake bucket does not make claimRewards succeed: the
    // claim concerns rewards alone, and the stake stays recoverable.
    let mut s = fresh_vault(0, 0);
    stake(&mut s, ALICE, 100, 0);
    let g = withdraw_begin(&mut s, ALICE, 30, 0).expect("withdraw_begin");
    g.release(&mut s); // the stake transfer out failed; 30 stays owed
    assert_eq!(
        claim_rewards_begin(&mut s, ALICE).unwrap_err(),
        StakingError::NothingToClaim
    );
    let t = next_claim(&s, ALICE).expect("stake still owed");
    assert_eq!((t.kind, t.amount), (ClaimKind::Token, 30));
}
