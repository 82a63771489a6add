use soondex::admin::initialize_pool;
use soondex::errors::ErrorCode;
use soondex::pool::{LiquidityPool, Pubkey, UserState};
use soondex::staking::{calculate_rewards, claim_rewards, stake, unstake, SECONDS_PER_YEAR};

fn key(id: u64) -> Pubkey {
    Pubkey { id }
}

fn pool_with_rate(reward_rate: u64) -> LiquidityPool {
    let (pool, _) = initialize_pool(key(1), key(10), key(20), 30, reward_rate, true, 0).unwrap();
    pool
}

#[test]
fn one_year_stake_earns_full_base_reward() {
    // 1000 staked at 500 bps for exactly one year: the boundary is strict,
    // so no diminishing returns apply.
    let expected = 1000u64 * 500 * 31_536_000 / 10_000;
    assert_eq!(expected, 1_576_800_000);
    assert_eq!(calculate_rewards(1000, 500, SECONDS_PER_YEAR).unwrap(), expected);
}

#[test]
fn stake_beyond_one_year_earns_ninety_percent() {
    let base = 1000u128 * 500 * 31_536_001 / 10_000;
    let expected = (base * 9 / 10) as u64;
    assert_eq!(calculate_rewards(1000, 500, SECONDS_PER_YEAR + 1).unwrap(), expected);
    assert_eq!(expected, 1_419_120_045);
}

#[test]
fn non_positive_duration_earns_nothing() {
    assert_eq!(calculate_rewards(1000, 500, 0).unwrap(), 0);
    assert_eq!(calculate_rewards(1000, 500, -5).unwrap(), 0);
}

#[test]
fn reward_computation_overflows_loudly() {
    assert_eq!(
        calculate_rewards(u64::MAX, u64::MAX, i64::MAX).unwrap_err(),
        ErrorCode::MathOverflow
    );
}

#[test]
fn stake_records_amount_and_timestamp() {
    let mut pool = pool_with_rate(500);
    let mut us = UserState::new(key(10), key(2));
    let ev = stake(&mut pool, &mut us, 1000, 50).unwrap();
    assert_eq!(ev.amount, 1000);
    assert_eq!(ev.timestamp, 50);
    assert_eq!(us.amount_staked, 1000);
    assert_eq!(us.last_stake_timestamp, 50);
    assert_eq!(us.rewards_earned, 0);
    assert_eq!(pool.total_staked, 1000);
}

#[test]
fn restake_banks_pending_reward_first() {
    let mut pool = pool_with_rate(500);
    let mut us = UserState::new(key(10), key(2));
    stake(&mut pool, &mut us, 1000, 0).unwrap();
    // 1000 seconds later: pending = 1000 * 500 * 1000 / 10000 = 50000.
    stake(&mut pool, &mut us, 500, 1000).unwrap();
    assert_eq!(us.amount_staked, 1500);
    assert_eq!(us.rewards_earned, 50_000);
    assert_eq!(us.last_stake_timestamp, 1000);
    assert_eq!(pool.total_staked, 1500);
}

#[test]
fn zero_stake_is_rejected() {
    let mut pool = pool_with_rate(500);
    let mut us = UserState::new(key(10), key(2));
    assert_eq!(stake(&mut pool, &mut us, 0, 0).unwrap_err(), ErrorCode::InvalidStakeAmount);
}

#[test]
fn unstake_pays_principal_plus_held_reward() {
    let mut pool = pool_with_rate(500);
    let mut us = UserState::new(key(10), key(2));
    stake(&mut pool, &mut us, 1000, 0).unwrap();
    let ev = unstake(&mut pool, &mut us, 400, 1000).unwrap();
    // reward on the withdrawn portion: 400 * 500 * 1000 / 10000 = 20000.
    assert_eq!(ev.amount, 400);
    assert_eq!(ev.rewards, 20_000);
    assert_eq!(us.amount_staked, 600);
    assert_eq!(pool.total_staked, 600);
    assert_eq!(us.last_stake_timestamp, 1000);
}

#[test]
fn unstake_more_than_staked_fails() {
    let mut pool = pool_with_rate(500);
    let mut us = UserState::new(key(10), key(2));
    stake(&mut pool, &mut us, 1000, 0).unwrap();
    assert_eq!(unstake(&mut pool, &mut us, 1001, 10).unwrap_err(), ErrorCode::InsufficientStake);
    assert_eq!(unstake(&mut pool, &mut us, 0, 10).unwrap_err(), ErrorCode::InvalidStakeAmount);
}

#[test]
fn claim_pays_accumulator_and_pending_and_resets() {
    let mut pool = pool_with_rate(500);
    let mut us = UserState::new(key(10), key(2));
    stake(&mut pool, &mut us, 1000, 0).unwrap();
    stake(&mut pool, &mut us, 500, 1000).unwrap();
    // banked 50000; pending on 1500 over 1000 s: 1500*500*1000/10000 = 75000.
    let ev = claim_rewards(&pool, &mut us, 2000).unwrap();
    assert_eq!(ev.amount, 125_000);
    assert_eq!(us.rewards_earned, 0);
    assert_eq!(us.last_stake_timestamp, 2000);
    assert_eq!(us.amount_staked, 1500);
}

#[test]
fn claim_twice_at_one_instant_finds_nothing_second_time() {
    let mut pool = pool_with_rate(500);
    let mut us = UserState::new(key(10), key(2));
    stake(&mut pool, &mut us, 1000, 0).unwrap();
    let ev = claim_rewards(&pool, &mut us, 1000).unwrap();
    assert_eq!(ev.amount, 50_000);
    // Immediately again: zero elapsed duration, nothing banked.
    assert_eq!(claim_rewards(&pool, &mut us, 1000).unwrap_err(), ErrorCode::NoRewardsAvailable);
    // The principal stays staked either way.
    assert_eq!(us.amount_staked, 1000);
}

#[test]
fn claim_with_no_stake_finds_nothing() {
    let pool = pool_with_rate(500);
    let mut us = UserState::new(key(10), key(2));
    assert_eq!(claim_rewards(&pool, &mut us, 1000).unwrap_err(), ErrorCode::NoRewardsAvailable);
}
