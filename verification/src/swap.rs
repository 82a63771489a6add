//! The constant-product swap engine: fee-inclusive quoting, the swap
//! instruction itself, the rolling 24-hour volume window, and the bound on
//! how far rounding can move the constant product.

use vstd::prelude::*;
use vstd::arithmetic::div_mod::{
    lemma_div_is_ordered, lemma_div_by_multiple, lemma_div_pos_is_pos, lemma_fundamental_div_mod,
    lemma_mod_bound, lemma_remainder_lower,
};
use crate::{BPS_DENOM, TOTAL_FEE_RATE};
use crate::errors::ErrorCode;
use crate::events::TokensSwapped;
use crate::pool::{LiquidityPool, Pubkey};

verus! {

/// Length of the rolling volume window.
pub const SECONDS_PER_DAY: i64 = 86400;

/// Share of the swap fee routed to stakers; the other 22 parts in 25 stay
/// in the reserve for liquidity providers. A policy constant, not an input.
pub const STAKER_FEE_SHARE: u64 = 3;

/// Share of the swap fee retained in reserve for liquidity providers.
pub const LP_FEE_SHARE: u64 = 22;

/// Denominator of the fee split.
pub const FEE_SHARE_DENOM: u64 = 25;

/// Total fee charged on a swap input.
pub open spec fn swap_fee_total(amount_in: u64) -> int {
    (amount_in * TOTAL_FEE_RATE) / (BPS_DENOM as int)
}

/// The staker part of a total fee.
pub open spec fn staker_fee(fee_total: int) -> int {
    (fee_total * STAKER_FEE_SHARE) / (FEE_SHARE_DENOM as int)
}

/// What remains of the input after the fee and actually trades.
pub open spec fn swap_net_in(amount_in: u64) -> int {
    amount_in - swap_fee_total(amount_in)
}

/// The constant-product output: with k the pre-trade product of the
/// reserves, the output reserve is brought to floor(k / (reserve_in +
/// net input)) and the difference is paid out.
pub open spec fn swap_output(amount_in_net: int, reserve_in: u64, reserve_out: u64) -> int {
    reserve_out - (reserve_in * reserve_out) / (reserve_in + amount_in_net)
}

/// A 24-hour counter as an instruction at time `now` observes it: zero if
/// the window has lapsed since the last reset, else its current value.
pub open spec fn rolled_counter(cur: u64, last_reset: i64, now: i64) -> int {
    if now - last_reset >= SECONDS_PER_DAY as int {
        0
    } else {
        cur as int
    }
}

/// The fee is a strict part of the input: what trades is still positive.
pub proof fn lemma_fee_bounds(amount_in: u64)
    requires
        amount_in > 0,
    ensures
        0 <= swap_fee_total(amount_in) < amount_in,
        0 <= staker_fee(swap_fee_total(amount_in)) <= swap_fee_total(amount_in),
        1 <= swap_net_in(amount_in) <= amount_in,
{
    let a = amount_in as int;
    let ft = swap_fee_total(amount_in);
    lemma_div_pos_is_pos(a * (TOTAL_FEE_RATE as int), BPS_DENOM as int);
    lemma_remainder_lower(a * (TOTAL_FEE_RATE as int), BPS_DENOM as int);
    if ft >= a {
        assert(ft * (BPS_DENOM as int) >= a * (BPS_DENOM as int)) by (nonlinear_arith)
            requires
                ft >= a,
                BPS_DENOM as int > 0,
        ;
        assert(a * (TOTAL_FEE_RATE as int) < a * (BPS_DENOM as int)) by (nonlinear_arith)
            requires
                a > 0,
                0 < (TOTAL_FEE_RATE as int),
                (TOTAL_FEE_RATE as int) < (BPS_DENOM as int),
        ;
    }
    let fs = staker_fee(ft);
    lemma_div_pos_is_pos(ft * (STAKER_FEE_SHARE as int), FEE_SHARE_DENOM as int);
    lemma_remainder_lower(ft * (STAKER_FEE_SHARE as int), FEE_SHARE_DENOM as int);
    if fs > ft {
        assert(fs * (FEE_SHARE_DENOM as int) > ft * (FEE_SHARE_DENOM as int)) by (nonlinear_arith)
            requires
                fs > ft,
                FEE_SHARE_DENOM as int > 0,
        ;
        assert(ft * (STAKER_FEE_SHARE as int) <= ft * (FEE_SHARE_DENOM as int))
            by (nonlinear_arith)
            requires
                ft >= 0,
                0 < (STAKER_FEE_SHARE as int),
                (STAKER_FEE_SHARE as int) <= (FEE_SHARE_DENOM as int),
        ;
    }
}

/// Quote the post-fee output against the current reserves.
pub fn calculate_swap_output(amount_in: u64, reserve_in: u64, reserve_out: u64) -> (r: Result<
    u64,
    ErrorCode,
>)
    ensures
        match r {
            Ok(v) => amount_in > 0 && reserve_in > 0 && reserve_out > 0 && v == swap_output(
                amount_in as int,
                reserve_in,
                reserve_out,
            ) && 0 < v <= reserve_out,
            Err(e) => e == ErrorCode::InvalidSwapInput && (amount_in == 0 || reserve_in == 0
                || reserve_out == 0 || swap_output(amount_in as int, reserve_in, reserve_out)
                == 0),
        },
{
    if amount_in == 0 {
        return Err(ErrorCode::InvalidSwapInput);
    }
    if reserve_in == 0 || reserve_out == 0 {
        return Err(ErrorCode::InvalidSwapInput);
    }
    let a = amount_in as u128;
    let rin = reserve_in as u128;
    let rout = reserve_out as u128;
    assert((rin as int) * (rout as int) <= (u64::MAX as int) * (u64::MAX as int))
        by (nonlinear_arith)
        requires
            0 <= rin as int <= u64::MAX as int,
            0 <= rout as int <= u64::MAX as int,
    ;
    let k: u128 = rin * rout;
    let new_reserve_in: u128 = rin + a;
    let new_reserve_out: u128 = k / new_reserve_in;
    proof {
        let d = new_reserve_in as int;
        assert(k as int <= (rout as int) * d) by (nonlinear_arith)
            requires
                k as int == (rin as int) * (rout as int),
                d >= rin as int,
                rout as int >= 0,
        ;
        lemma_div_is_ordered(k as int, (rout as int) * d, d);
        lemma_div_by_multiple(rout as int, d);
    }
    let amount_out: u128 = rout - new_reserve_out;
    if amount_out == 0 {
        return Err(ErrorCode::InvalidSwapInput);
    }
    Ok(amount_out as u64)
}

/// Quote a swap against the given reserves without executing it: the
/// output, the total fee, and its split into the provider part (retained in
/// reserve) and the staker part (routed to the staking counter).
pub fn quote(amount_in: u64, reserve_in: u64, reserve_out: u64) -> (r: Result<
    (u64, u64, u64, u64),
    ErrorCode,
>)
    ensures
        match r {
            Ok((amount_out, fee_total, fee_lp, fee_staker)) => {
                &&& amount_in > 0 && reserve_in > 0 && reserve_out > 0
                &&& fee_total == swap_fee_total(amount_in)
                &&& fee_staker == staker_fee(fee_total as int)
                &&& fee_lp == fee_total - fee_staker
                &&& amount_out == swap_output(swap_net_in(amount_in), reserve_in, reserve_out)
                &&& 0 < amount_out <= reserve_out
            },
            Err(e) => e == ErrorCode::InvalidSwapInput && (amount_in == 0 || reserve_in == 0
                || reserve_out == 0 || swap_output(swap_net_in(amount_in), reserve_in, reserve_out)
                == 0),
        },
{
    if amount_in == 0 {
        return Err(ErrorCode::InvalidSwapInput);
    }
    proof {
        lemma_fee_bounds(amount_in);
    }
    let fee_total: u64 = ((amount_in as u128) * (TOTAL_FEE_RATE as u128) / (BPS_DENOM as u128))
        as u64;
    let fee_staker: u64 = ((fee_total as u128) * (STAKER_FEE_SHARE as u128) / (FEE_SHARE_DENOM
        as u128)) as u64;
    let fee_lp = fee_total - fee_staker;
    let amount_in_net = amount_in - fee_total;
    let amount_out = match calculate_swap_output(amount_in_net, reserve_in, reserve_out) {
        Ok(v) => v,
        Err(e) => {
            return Err(e);
        },
    };
    Ok((amount_out, fee_total, fee_lp, fee_staker))
}

/// Where each side of a swap draws from: (input reserve, output reserve).
pub open spec fn reserves_in_out(p: LiquidityPool, input_is_x: bool) -> (u64, u64) {
    if input_is_x {
        (p.token_x_reserve, p.token_y_reserve)
    } else {
        (p.token_y_reserve, p.token_x_reserve)
    }
}

/// The output a swap of `amount_in` pays, after the fee, on this pool.
pub open spec fn swap_amount_out(p: LiquidityPool, input_is_x: bool, amount_in: u64) -> int {
    swap_output(
        swap_net_in(amount_in),
        reserves_in_out(p, input_is_x).0,
        reserves_in_out(p, input_is_x).1,
    )
}

/// The counter updates a swap commits would not fit in 64 bits.
pub open spec fn swap_overflows(
    p: LiquidityPool,
    input_is_x: bool,
    amount_in: u64,
    now: i64,
) -> bool {
    let ft = swap_fee_total(amount_in);
    ||| reserves_in_out(p, input_is_x).0 + amount_in > u64::MAX
    ||| p.staking_rewards_accrued + staker_fee(ft) > u64::MAX
    ||| rolled_counter(p.volume_24h, p.last_volume_reset, now) + amount_in > u64::MAX
    ||| rolled_counter(p.fees_24h, p.last_volume_reset, now) + ft > u64::MAX
}

/// The pool after a completed swap: the gross input (fee included) joins the
/// input reserve, the output leaves the other reserve, the staker part of
/// the fee accrues to the aggregate counter, and the 24-hour counters grow
/// after a lazy window reset.
pub open spec fn swap_result_state(
    p: LiquidityPool,
    input_is_x: bool,
    amount_in: u64,
    now: i64,
) -> LiquidityPool {
    let out = swap_amount_out(p, input_is_x, amount_in);
    let ft = swap_fee_total(amount_in);
    LiquidityPool {
        token_x_reserve: if input_is_x {
            (p.token_x_reserve + amount_in) as u64
        } else {
            (p.token_x_reserve - out) as u64
        },
        token_y_reserve: if input_is_x {
            (p.token_y_reserve - out) as u64
        } else {
            (p.token_y_reserve + amount_in) as u64
        },
        staking_rewards_accrued: (p.staking_rewards_accrued + staker_fee(ft)) as u64,
        volume_24h: (rolled_counter(p.volume_24h, p.last_volume_reset, now) + amount_in) as u64,
        fees_24h: (rolled_counter(p.fees_24h, p.last_volume_reset, now) + ft) as u64,
        last_volume_reset: if now - p.last_volume_reset >= SECONDS_PER_DAY as int {
            now
        } else {
            p.last_volume_reset
        },
        ..p
    }
}

/// Swap `amount_in` of the input token for the output token at time `now`,
/// failing with `ExcessiveSlippage` when the output falls below the
/// caller's minimum. The fee stays in the pool: 22/25 of it in the reserve
/// for providers, 3/25 accrued to the staking counter.
pub fn swap_tokens(
    pool: &mut LiquidityPool,
    input_token: Pubkey,
    output_token: Pubkey,
    amount_in: u64,
    minimum_amount_out: u64,
    now: i64,
) -> (r: Result<TokensSwapped, ErrorCode>)
    requires
        old(pool).wf(),
        now >= 0,
    ensures
        final(pool).wf(),
        match r {
            Ok(ev) => {
                &&& amount_in > 0 && minimum_amount_out > 0
                &&& input_token != output_token
                &&& (input_token == old(pool).token_x_mint || input_token == old(
                    pool,
                ).token_y_mint)
                &&& (output_token == old(pool).token_x_mint || output_token == old(
                    pool,
                ).token_y_mint)
                &&& ({
                    let is_x = input_token == old(pool).token_x_mint;
                    let out = swap_amount_out(*old(pool), is_x, amount_in);
                    &&& reserves_in_out(*old(pool), is_x).0 > 0
                    &&& reserves_in_out(*old(pool), is_x).1 > 0
                    &&& out >= minimum_amount_out
                    &&& out > 0
                    &&& !swap_overflows(*old(pool), is_x, amount_in, now)
                    &&& *final(pool) == swap_result_state(*old(pool), is_x, amount_in, now)
                    &&& ev == (TokensSwapped {
                        input_token,
                        input_amount: amount_in,
                        output_amount: out as u64,
                    })
                })
            },
            Err(e) => {
                &&& *final(pool) == *old(pool)
                &&& if amount_in == 0 || minimum_amount_out == 0 {
                    e == ErrorCode::InvalidSwapInput
                } else if input_token == output_token {
                    e == ErrorCode::InvalidTokenPair
                } else if !(input_token == old(pool).token_x_mint || input_token == old(
                    pool,
                ).token_y_mint) || !(output_token == old(pool).token_x_mint || output_token == old(
                    pool,
                ).token_y_mint) {
                    e == ErrorCode::InvalidToken
                } else {
                    let is_x = input_token == old(pool).token_x_mint;
                    let out = swap_amount_out(*old(pool), is_x, amount_in);
                    if reserves_in_out(*old(pool), is_x).0 == 0 || reserves_in_out(
                        *old(pool),
                        is_x,
                    ).1 == 0 || out == 0 {
                        e == ErrorCode::InvalidSwapInput
                    } else if out < minimum_amount_out {
                        e == ErrorCode::ExcessiveSlippage
                    } else {
                        e == ErrorCode::MathOverflow && swap_overflows(
                            *old(pool),
                            is_x,
                            amount_in,
                            now,
                        )
                    }
                }
            },
        },
{
    if amount_in == 0 || minimum_amount_out == 0 {
        return Err(ErrorCode::InvalidSwapInput);
    }
    if input_token == output_token {
        return Err(ErrorCode::InvalidTokenPair);
    }
    if !(input_token == pool.token_x_mint || input_token == pool.token_y_mint) || !(output_token
        == pool.token_x_mint || output_token == pool.token_y_mint) {
        return Err(ErrorCode::InvalidToken);
    }
    let is_x = input_token == pool.token_x_mint;
    let (reserve_in, reserve_out) = if is_x {
        (pool.token_x_reserve, pool.token_y_reserve)
    } else {
        (pool.token_y_reserve, pool.token_x_reserve)
    };
    let (output_amount, fee_total, _fee_lp, fee_staker) = match quote(
        amount_in,
        reserve_in,
        reserve_out,
    ) {
        Ok(q) => q,
        Err(e) => {
            return Err(e);
        },
    };
    if output_amount < minimum_amount_out {
        return Err(ErrorCode::ExcessiveSlippage);
    }
    let new_reserve_in = match reserve_in.checked_add(amount_in) {
        Some(v) => v,
        None => {
            return Err(ErrorCode::MathOverflow);
        },
    };
    let new_accrued = match pool.staking_rewards_accrued.checked_add(fee_staker) {
        Some(v) => v,
        None => {
            return Err(ErrorCode::MathOverflow);
        },
    };
    let window_lapsed = now - pool.last_volume_reset >= SECONDS_PER_DAY;
    let base_volume: u64 = if window_lapsed {
        0
    } else {
        pool.volume_24h
    };
    let base_fees: u64 = if window_lapsed {
        0
    } else {
        pool.fees_24h
    };
    let new_volume = match base_volume.checked_add(amount_in) {
        Some(v) => v,
        None => {
            return Err(ErrorCode::MathOverflow);
        },
    };
    let new_fees = match base_fees.checked_add(fee_total) {
        Some(v) => v,
        None => {
            return Err(ErrorCode::MathOverflow);
        },
    };
    if is_x {
        pool.token_x_reserve = new_reserve_in;
        pool.token_y_reserve = reserve_out - output_amount;
    } else {
        pool.token_y_reserve = new_reserve_in;
        pool.token_x_reserve = reserve_out - output_amount;
    }
    pool.staking_rewards_accrued = new_accrued;
    pool.volume_24h = new_volume;
    pool.fees_24h = new_fees;
    if window_lapsed {
        pool.last_volume_reset = now;
    }
    Ok(TokensSwapped { input_token, input_amount: amount_in, output_amount })
}

/// Rounding is the only way a completed swap can shrink the constant
/// product: with k the pre-trade product of the reserves, the post-trade
/// product stays above k minus the post-trade divisor, and when the
/// division comes out exact the product does not decrease at all. On inputs
/// where the divisor exceeds the fee times the new output reserve, the
/// product can genuinely fall by that rounding sliver.
pub proof fn lemma_swap_constant_product(amount_in: u64, reserve_in: u64, reserve_out: u64)
    requires
        amount_in > 0,
        reserve_in > 0,
        reserve_out > 0,
    ensures
        ({
            let net = swap_net_in(amount_in);
            let out = swap_output(net, reserve_in, reserve_out);
            let k = reserve_in * reserve_out;
            let new_in = reserve_in + amount_in;
            let new_out = reserve_out - out;
            &&& new_in * new_out > k - (reserve_in + net)
            &&& k % (reserve_in + net) == 0 ==> new_in * new_out >= k
        }),
{
    lemma_fee_bounds(amount_in);
    let net = swap_net_in(amount_in);
    let k = (reserve_in as int) * (reserve_out as int);
    let d = reserve_in + net;
    let q = k / d;
    let new_in = reserve_in + amount_in;
    assert(k >= 0) by (nonlinear_arith)
        requires
            k == (reserve_in as int) * (reserve_out as int),
            reserve_in as int >= 0,
            reserve_out as int >= 0,
    ;
    lemma_fundamental_div_mod(k, d);
    lemma_mod_bound(k, d);
    lemma_div_pos_is_pos(k, d);
    assert(d * q == k - k % d);
    assert(new_in * q >= d * q) by (nonlinear_arith)
        requires
            new_in >= d,
            q >= 0,
    ;
}

} // verus!
