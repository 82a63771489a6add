//! The staking reward engine: linear accrual in basis points over elapsed
//! seconds, diminished to 90% for stakes held strictly longer than one year,
//! with checkpoint-on-mutation so a reward is never lost when the stake
//! changes size.

use vstd::prelude::*;
use crate::BPS_DENOM;
use crate::errors::ErrorCode;
use crate::events::{RewardsClaimed, TokensStaked, TokensUnstaked};
use crate::pool::{LiquidityPool, UserState};

verus! {

/// One year of seconds; a stake held strictly longer earns at 90%.
pub const SECONDS_PER_YEAR: i64 = 31536000;

/// Reward before diminishing returns: staked * rate * seconds / 10000.
pub open spec fn base_reward(amount_staked: u64, reward_rate: u64, duration: int) -> int {
    (amount_staked * reward_rate * duration) / (BPS_DENOM as int)
}

/// The reward owed for holding `amount_staked` at `reward_rate` basis points
/// for `duration` seconds: zero for a non-positive duration (a clamp against
/// clock anomalies, not an error), the base reward up to and including one
/// year, and 90% of it strictly beyond.
pub open spec fn reward_amount(amount_staked: u64, reward_rate: u64, duration: int) -> int {
    if duration <= 0 {
        0
    } else if duration > SECONDS_PER_YEAR as int {
        (base_reward(amount_staked, reward_rate, duration) * 9) / 10
    } else {
        base_reward(amount_staked, reward_rate, duration)
    }
}

/// When the reward computation must fail with `MathOverflow`: the wide
/// product exceeds 128 bits, or the final reward exceeds 64 bits.
pub open spec fn reward_overflows(amount_staked: u64, reward_rate: u64, duration: int) -> bool {
    duration > 0 && (amount_staked * reward_rate * duration > u128::MAX || reward_amount(
        amount_staked,
        reward_rate,
        duration,
    ) > u64::MAX)
}

/// The reward pending for a stake record at time `now`, not counting the
/// already-banked accumulator.
pub open spec fn pending_reward(us: UserState, reward_rate: u64, now: i64) -> int {
    reward_amount(us.amount_staked, reward_rate, now - us.last_stake_timestamp)
}

/// Everything a claim at time `now` would pay out: the banked accumulator
/// plus the reward pending since the last checkpoint.
pub open spec fn claim_total(us: UserState, reward_rate: u64, now: i64) -> int {
    us.rewards_earned + pending_reward(us, reward_rate, now)
}

/// Compute the reward for a stake held over a duration.
pub fn calculate_rewards(amount_staked: u64, reward_rate: u64, duration: i64) -> (r: Result<
    u64,
    ErrorCode,
>)
    ensures
        match r {
            Ok(v) => !reward_overflows(amount_staked, reward_rate, duration as int)
                && v == reward_amount(amount_staked, reward_rate, duration as int),
            Err(e) => e == ErrorCode::MathOverflow && reward_overflows(
                amount_staked,
                reward_rate,
                duration as int,
            ),
        },
{
    if duration <= 0 {
        return Ok(0);
    }
    let a = amount_staked as u128;
    let rt = reward_rate as u128;
    assert((a as int) * (rt as int) <= (u64::MAX as int) * (u64::MAX as int))
        by (nonlinear_arith)
        requires
            0 <= a as int <= u64::MAX as int,
            0 <= rt as int <= u64::MAX as int,
    ;
    let prod1: u128 = a * rt;
    let d = duration as u128;
    match prod1.checked_mul(d) {
        None => Err(ErrorCode::MathOverflow),
        Some(prod2) => {
            let base: u128 = prod2 / (BPS_DENOM as u128);
            let reward: u128 = if duration > SECONDS_PER_YEAR {
                proof {
                    vstd::arithmetic::div_mod::lemma_fundamental_div_mod(prod2 as int, 10000);
                    vstd::arithmetic::div_mod::lemma_mod_bound(prod2 as int, 10000);
                    assert((base as int) * 9 <= (base as int) * 10000) by (nonlinear_arith)
                        requires
                            base as int >= 0,
                    ;
                }
                (base * 9) / 10
            } else {
                base
            };
            if reward > u64::MAX as u128 {
                Err(ErrorCode::MathOverflow)
            } else {
                Ok(reward as u64)
            }
        },
    }
}

/// Deposit `amount` into the caller's stake at time `now`. A nonzero
/// existing stake first banks its pending reward, so the checkpoint move
/// never loses accrual; then the stake and the pool total grow by `amount`.
pub fn stake(pool: &mut LiquidityPool, user_state: &mut UserState, amount: u64, now: i64) -> (r:
    Result<TokensStaked, ErrorCode>)
    requires
        old(pool).wf(),
        old(user_state).wf(),
        now >= 0,
    ensures
        final(pool).wf(),
        final(user_state).wf(),
        match r {
            Ok(ev) => {
                &&& amount > 0
                &&& old(user_state).amount_staked > 0 ==> !reward_overflows(
                    old(user_state).amount_staked,
                    old(pool).reward_rate,
                    now - old(user_state).last_stake_timestamp,
                ) && old(user_state).rewards_earned + pending_reward(
                    *old(user_state),
                    old(pool).reward_rate,
                    now,
                ) <= u64::MAX
                &&& old(user_state).amount_staked + amount <= u64::MAX
                &&& old(pool).total_staked + amount <= u64::MAX
                &&& *final(user_state) == (UserState {
                    amount_staked: (old(user_state).amount_staked + amount) as u64,
                    last_stake_timestamp: now,
                    rewards_earned: if old(user_state).amount_staked > 0 {
                        (old(user_state).rewards_earned + pending_reward(
                            *old(user_state),
                            old(pool).reward_rate,
                            now,
                        )) as u64
                    } else {
                        old(user_state).rewards_earned
                    },
                    ..*old(user_state)
                })
                &&& *final(pool) == (LiquidityPool {
                    total_staked: (old(pool).total_staked + amount) as u64,
                    ..*old(pool)
                })
                &&& ev == (TokensStaked { user: old(user_state).owner, amount, timestamp: now })
            },
            Err(e) => {
                &&& *final(pool) == *old(pool)
                &&& *final(user_state) == *old(user_state)
                &&& if amount == 0 {
                    e == ErrorCode::InvalidStakeAmount
                } else {
                    e == ErrorCode::MathOverflow && ((old(user_state).amount_staked > 0 && (
                    reward_overflows(
                        old(user_state).amount_staked,
                        old(pool).reward_rate,
                        now - old(user_state).last_stake_timestamp,
                    ) || old(user_state).rewards_earned + pending_reward(
                        *old(user_state),
                        old(pool).reward_rate,
                        now,
                    ) > u64::MAX)) || old(user_state).amount_staked + amount > u64::MAX || old(
                        pool,
                    ).total_staked + amount > u64::MAX)
                }
            },
        },
{
    if amount == 0 {
        return Err(ErrorCode::InvalidStakeAmount);
    }
    let mut new_rewards = user_state.rewards_earned;
    if user_state.amount_staked > 0 {
        let pending = match calculate_rewards(
            user_state.amount_staked,
            pool.reward_rate,
            now - user_state.last_stake_timestamp,
        ) {
            Ok(p) => p,
            Err(e) => {
                return Err(e);
            },
        };
        new_rewards = match user_state.rewards_earned.checked_add(pending) {
            Some(v) => v,
            None => {
                return Err(ErrorCode::MathOverflow);
            },
        };
    }
    let new_staked = match user_state.amount_staked.checked_add(amount) {
        Some(v) => v,
        None => {
            return Err(ErrorCode::MathOverflow);
        },
    };
    let new_total = match pool.total_staked.checked_add(amount) {
        Some(v) => v,
        None => {
            return Err(ErrorCode::MathOverflow);
        },
    };
    user_state.amount_staked = new_staked;
    user_state.last_stake_timestamp = now;
    user_state.rewards_earned = new_rewards;
    pool.total_staked = new_total;
    Ok(TokensStaked { user: user_state.owner, amount, timestamp: now })
}

/// Withdraw `amount` of the caller's stake at time `now`, together with the
/// reward the withdrawn portion earned over its held duration. The host
/// transfers `amount + rewards` back to the user.
pub fn unstake(pool: &mut LiquidityPool, user_state: &mut UserState, amount: u64, now: i64) -> (r:
    Result<TokensUnstaked, ErrorCode>)
    requires
        old(pool).wf(),
        old(user_state).wf(),
        now >= 0,
    ensures
        final(pool).wf(),
        final(user_state).wf(),
        match r {
            Ok(ev) => {
                &&& amount > 0
                &&& amount <= old(user_state).amount_staked
                &&& !reward_overflows(
                    amount,
                    old(pool).reward_rate,
                    now - old(user_state).last_stake_timestamp,
                )
                &&& amount + reward_amount(
                    amount,
                    old(pool).reward_rate,
                    now - old(user_state).last_stake_timestamp,
                ) <= u64::MAX
                &&& amount <= old(pool).total_staked
                &&& *final(user_state) == (UserState {
                    amount_staked: (old(user_state).amount_staked - amount) as u64,
                    last_stake_timestamp: now,
                    ..*old(user_state)
                })
                &&& *final(pool) == (LiquidityPool {
                    total_staked: (old(pool).total_staked - amount) as u64,
                    ..*old(pool)
                })
                &&& ev == (TokensUnstaked {
                    user: old(user_state).owner,
                    amount,
                    rewards: reward_amount(
                        amount,
                        old(pool).reward_rate,
                        now - old(user_state).last_stake_timestamp,
                    ) as u64,
                    timestamp: now,
                })
            },
            Err(e) => {
                &&& *final(pool) == *old(pool)
                &&& *final(user_state) == *old(user_state)
                &&& if amount == 0 {
                    e == ErrorCode::InvalidStakeAmount
                } else if amount > old(user_state).amount_staked {
                    e == ErrorCode::InsufficientStake
                } else {
                    e == ErrorCode::MathOverflow && (reward_overflows(
                        amount,
                        old(pool).reward_rate,
                        now - old(user_state).last_stake_timestamp,
                    ) || amount + reward_amount(
                        amount,
                        old(pool).reward_rate,
                        now - old(user_state).last_stake_timestamp,
                    ) > u64::MAX || amount > old(pool).total_staked)
                }
            },
        },
{
    if amount == 0 {
        return Err(ErrorCode::InvalidStakeAmount);
    }
    if amount > user_state.amount_staked {
        return Err(ErrorCode::InsufficientStake);
    }
    let rewards = match calculate_rewards(
        amount,
        pool.reward_rate,
        now - user_state.last_stake_timestamp,
    ) {
        Ok(p) => p,
        Err(e) => {
            return Err(e);
        },
    };
    if amount.checked_add(rewards).is_none() {
        return Err(ErrorCode::MathOverflow);
    }
    let new_total = match pool.total_staked.checked_sub(amount) {
        Some(v) => v,
        None => {
            return Err(ErrorCode::MathOverflow);
        },
    };
    user_state.amount_staked = user_state.amount_staked - amount;
    user_state.last_stake_timestamp = now;
    pool.total_staked = new_total;
    Ok(TokensUnstaked { user: user_state.owner, amount, rewards, timestamp: now })
}

/// Pay out all pending reward at time `now` and reset the checkpoint,
/// leaving the principal staked. A claim with nothing pending fails with
/// `NoRewardsAvailable`.
pub fn claim_rewards(pool: &LiquidityPool, user_state: &mut UserState, now: i64) -> (r: Result<
    RewardsClaimed,
    ErrorCode,
>)
    requires
        pool.wf(),
        old(user_state).wf(),
        now >= 0,
    ensures
        final(user_state).wf(),
        match r {
            Ok(ev) => {
                &&& !reward_overflows(
                    old(user_state).amount_staked,
                    pool.reward_rate,
                    now - old(user_state).last_stake_timestamp,
                )
                &&& claim_total(*old(user_state), pool.reward_rate, now) <= u64::MAX
                &&& claim_total(*old(user_state), pool.reward_rate, now) > 0
                &&& *final(user_state) == (UserState {
                    last_stake_timestamp: now,
                    rewards_earned: 0u64,
                    ..*old(user_state)
                })
                &&& ev == (RewardsClaimed {
                    user: old(user_state).owner,
                    amount: claim_total(*old(user_state), pool.reward_rate, now) as u64,
                    timestamp: now,
                })
            },
            Err(e) => {
                &&& *final(user_state) == *old(user_state)
                &&& if reward_overflows(
                    old(user_state).amount_staked,
                    pool.reward_rate,
                    now - old(user_state).last_stake_timestamp,
                ) || claim_total(*old(user_state), pool.reward_rate, now) > u64::MAX {
                    e == ErrorCode::MathOverflow
                } else {
                    e == ErrorCode::NoRewardsAvailable && claim_total(
                        *old(user_state),
                        pool.reward_rate,
                        now,
                    ) == 0
                }
            },
        },
{
    let pending = match calculate_rewards(
        user_state.amount_staked,
        pool.reward_rate,
        now - user_state.last_stake_timestamp,
    ) {
        Ok(p) => p,
        Err(e) => {
            return Err(e);
        },
    };
    let total = match user_state.rewards_earned.checked_add(pending) {
        Some(v) => v,
        None => {
            return Err(ErrorCode::MathOverflow);
        },
    };
    if total == 0 {
        return Err(ErrorCode::NoRewardsAvailable);
    }
    user_state.last_stake_timestamp = now;
    user_state.rewards_earned = 0;
    Ok(RewardsClaimed { user: user_state.owner, amount: total, timestamp: now })
}

/// Claims are idempotent at an instant: the state a successful claim at
/// time `now` leaves behind has nothing further to claim at that same
/// `now`, so by the contract of `claim_rewards` an immediate second claim
/// fails with `NoRewardsAvailable` and pays nothing.
pub proof fn lemma_claim_rewards_idempotent(us: UserState, reward_rate: u64, now: i64)
    ensures
        claim_total(
            (UserState { last_stake_timestamp: now, rewards_earned: 0u64, ..us }),
            reward_rate,
            now,
        ) == 0,
{
}

} // verus!
