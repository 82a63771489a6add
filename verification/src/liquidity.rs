//! Liquidity share accounting: a first deposit is priced by the integer
//! square root of its amounts, later deposits by the lesser of the two
//! ratio-implied share counts, and burns return reserves pro rata. The pool
//! keeps one position per owner, whose balances always sum to the supply.

use vstd::prelude::*;
use vstd::arithmetic::div_mod::{
    lemma_div_is_ordered, lemma_div_by_multiple, lemma_div_pos_is_pos, lemma_remainder_lower,
    lemma_remainder_upper,
};
use crate::errors::ErrorCode;
use crate::events::{LiquidityProvided, LiquidityRemoved};
use crate::math::{isqrt_u128, lemma_sqrt_fits_u64};
use crate::pool::{
    lemma_owner_index, lemma_sum_shares_bound, lemma_sum_shares_push, lemma_sum_shares_remove,
    lemma_sum_shares_update, owner_index, LiquidityPool, LpTokenBalance, Pubkey,
};

verus! {

/// The floor of the square root: the unique r with r * r <= n < (r+1) * (r+1).
pub open spec fn sqrt_floor(n: int) -> int {
    choose|r: int| 0 <= r && #[trigger] (r * r) <= n && (r + 1) * (r + 1) > n
}

/// Any value satisfying the square root bounds is `sqrt_floor`.
pub proof fn lemma_sqrt_floor_unique(n: int, r: int)
    requires
        0 <= r,
        r * r <= n,
        (r + 1) * (r + 1) > n,
    ensures
        r == sqrt_floor(n),
{
    let r2 = sqrt_floor(n);
    assert(0 <= r2 && r2 * r2 <= n && (r2 + 1) * (r2 + 1) > n) by {
        assert(0 <= r && r * r <= n && (r + 1) * (r + 1) > n);
    }
    if r < r2 {
        assert((r + 1) * (r + 1) <= r2 * r2) by (nonlinear_arith)
            requires
                0 <= r,
                r + 1 <= r2,
        ;
    }
    if r2 < r {
        assert((r2 + 1) * (r2 + 1) <= r * r) by (nonlinear_arith)
            requires
                0 <= r2,
                r2 + 1 <= r,
        ;
    }
}

/// Shares implied by one side of a deposit: amount * supply / reserve.
pub open spec fn ratio_shares(amount: u64, supply: u64, reserve: u64) -> int {
    (amount * supply) / (reserve as int)
}

/// Shares minted into a funded pool: the lesser of the two ratio-implied
/// counts, which punishes deposits that do not match the reserve ratio.
pub open spec fn min_ratio_shares(ax: u64, ay: u64, supply: u64, rx: u64, ry: u64) -> int {
    let fx = ratio_shares(ax, supply, rx);
    let fy = ratio_shares(ay, supply, ry);
    if fx <= fy {
        fx
    } else {
        fy
    }
}

/// Shares a deposit mints: the square-root price for the first deposit, the
/// minimum-ratio formula afterwards.
pub open spec fn deposit_shares(p: LiquidityPool, ax: u64, ay: u64) -> int {
    if p.lp_token_supply == 0 {
        sqrt_floor(ax * ay)
    } else {
        min_ratio_shares(ax, ay, p.lp_token_supply, p.token_x_reserve, p.token_y_reserve)
    }
}

/// Reserves returned for a burn: reserve * shares / supply, floored.
pub open spec fn withdraw_amount(reserve: u64, shares: u64, supply: u64) -> int {
    (reserve * shares) / (supply as int)
}

impl LiquidityPool {
    /// How many shares a deposit of (token_x_amount, token_y_amount) mints
    /// against the current reserves and supply.
    pub fn calculate_lp_tokens(&self, token_x_amount: u64, token_y_amount: u64) -> (r: Result<
        u64,
        ErrorCode,
    >)
        ensures
            match r {
                Ok(v) => v == deposit_shares(*self, token_x_amount, token_y_amount) && (
                self.lp_token_supply != 0 ==> self.token_x_reserve > 0 && self.token_y_reserve
                    > 0),
                Err(e) => {
                    &&& e == ErrorCode::MathOverflow
                    &&& self.lp_token_supply != 0
                    &&& (self.token_x_reserve == 0 || self.token_y_reserve == 0
                        || min_ratio_shares(
                        token_x_amount,
                        token_y_amount,
                        self.lp_token_supply,
                        self.token_x_reserve,
                        self.token_y_reserve,
                    ) > u64::MAX)
                },
            },
    {
        if self.lp_token_supply == 0 {
            let ax = token_x_amount as u128;
            let ay = token_y_amount as u128;
            assert((ax as int) * (ay as int) <= (u64::MAX as int) * (u64::MAX as int))
                by (nonlinear_arith)
                requires
                    0 <= ax as int <= u64::MAX as int,
                    0 <= ay as int <= u64::MAX as int,
            ;
            let product: u128 = ax * ay;
            let root = isqrt_u128(product);
            proof {
                lemma_sqrt_fits_u64(product, root);
                lemma_sqrt_floor_unique(product as int, root as int);
            }
            Ok(root as u64)
        } else {
            if self.token_x_reserve == 0 || self.token_y_reserve == 0 {
                return Err(ErrorCode::MathOverflow);
            }
            let supply = self.lp_token_supply as u128;
            assert((token_x_amount as int) * (supply as int) <= (u64::MAX as int) * (u64::MAX
                as int)) by (nonlinear_arith)
                requires
                    0 <= token_x_amount as int <= u64::MAX as int,
                    0 <= supply as int <= u64::MAX as int,
            ;
            assert((token_y_amount as int) * (supply as int) <= (u64::MAX as int) * (u64::MAX
                as int)) by (nonlinear_arith)
                requires
                    0 <= token_y_amount as int <= u64::MAX as int,
                    0 <= supply as int <= u64::MAX as int,
            ;
            let x_ratio: u128 = (token_x_amount as u128) * supply / (self.token_x_reserve as u128);
            let y_ratio: u128 = (token_y_amount as u128) * supply / (self.token_y_reserve as u128);
            let lesser: u128 = if x_ratio <= y_ratio {
                x_ratio
            } else {
                y_ratio
            };
            if lesser > u64::MAX as u128 {
                return Err(ErrorCode::MathOverflow);
            }
            Ok(lesser as u64)
        }
    }
}

/// The positions after a deposit of `shares` by `user` at time `now`: the
/// user's position grows, or a fresh one is created when shares were
/// actually minted.
pub open spec fn positions_after_deposit(
    s: Seq<LpTokenBalance>,
    user: Pubkey,
    shares: int,
    now: i64,
) -> Seq<LpTokenBalance> {
    let oi = owner_index(s, user);
    if oi >= 0 {
        s.update(
            oi,
            LpTokenBalance {
                owner: user,
                amount: (s[oi].amount + shares) as u64,
                last_reward_claim: now,
            },
        )
    } else if shares > 0 {
        s.push(LpTokenBalance { owner: user, amount: shares as u64, last_reward_claim: now })
    } else {
        s
    }
}

/// The positions after a burn of `shares` from the position at `oi`: it
/// shrinks, and disappears when fully drained.
pub open spec fn positions_after_burn(s: Seq<LpTokenBalance>, oi: int, shares: u64) -> Seq<
    LpTokenBalance,
> {
    if s[oi].amount == shares {
        s.remove(oi)
    } else {
        s.update(oi, LpTokenBalance { amount: (s[oi].amount - shares) as u64, ..s[oi] })
    }
}

/// Deposit `amount_x` and `amount_y` at time `now`, minting shares to
/// `user`. Under the strict ratio policy a deposit into a funded pool must
/// match the reserve ratio exactly; under the soft policy a mismatch is
/// penalized only through the minimum-ratio formula. Fails with
/// `ExcessiveSlippage` when fewer than `min_shares` would be minted.
#[verifier::rlimit(30)]
pub fn add_liquidity(
    pool: &mut LiquidityPool,
    user: Pubkey,
    amount_x: u64,
    amount_y: u64,
    min_shares: u64,
    user_balance_x: u64,
    user_balance_y: u64,
    now: i64,
) -> (r: Result<LiquidityProvided, ErrorCode>)
    requires
        old(pool).wf(),
        now >= 0,
    ensures
        final(pool).wf(),
        match r {
            Ok(ev) => {
                &&& amount_x > 0 && amount_y > 0
                &&& user_balance_x >= amount_x && user_balance_y >= amount_y
                &&& (old(pool).strict_deposit_ratio && old(pool).token_x_reserve > 0 ==> old(
                    pool,
                ).token_y_reserve > 0 && amount_x == (amount_y * old(pool).token_x_reserve) / (old(
                    pool,
                ).token_y_reserve as int))
                &&& ({
                    let s = deposit_shares(*old(pool), amount_x, amount_y);
                    &&& 0 <= s <= u64::MAX
                    &&& s >= min_shares
                    &&& old(pool).token_x_reserve + amount_x <= u64::MAX
                    &&& old(pool).token_y_reserve + amount_y <= u64::MAX
                    &&& old(pool).lp_token_supply + s <= u64::MAX
                    &&& *final(pool) == (LiquidityPool {
                        token_x_reserve: (old(pool).token_x_reserve + amount_x) as u64,
                        token_y_reserve: (old(pool).token_y_reserve + amount_y) as u64,
                        lp_token_supply: (old(pool).lp_token_supply + s) as u64,
                        lp_tokens: final(pool).lp_tokens,
                        ..*old(pool)
                    })
                    &&& final(pool).lp_tokens@ == positions_after_deposit(
                        old(pool).lp_tokens@,
                        user,
                        s,
                        now,
                    )
                    &&& ev == (LiquidityProvided {
                        user,
                        token_x_amount: amount_x,
                        token_y_amount: amount_y,
                        lp_tokens_minted: s as u64,
                    })
                })
            },
            Err(e) => {
                &&& *final(pool) == *old(pool)
                &&& ({
                    let p = *old(pool);
                    let s = deposit_shares(p, amount_x, amount_y);
                    if amount_x == 0 || amount_y == 0 {
                        e == ErrorCode::InvalidLiquidityAmount
                    } else if user_balance_x < amount_x || user_balance_y < amount_y {
                        e == ErrorCode::InsufficientFunds
                    } else if p.strict_deposit_ratio && p.token_x_reserve > 0
                        && p.token_y_reserve == 0 {
                        e == ErrorCode::MathOverflow
                    } else if p.strict_deposit_ratio && p.token_x_reserve > 0 && amount_x != (
                    amount_y * p.token_x_reserve) / (p.token_y_reserve as int) {
                        e == ErrorCode::InvalidTokenRatio
                    } else if p.lp_token_supply != 0 && (p.token_x_reserve == 0
                        || p.token_y_reserve == 0 || min_ratio_shares(
                        amount_x,
                        amount_y,
                        p.lp_token_supply,
                        p.token_x_reserve,
                        p.token_y_reserve,
                    ) > u64::MAX) {
                        e == ErrorCode::MathOverflow
                    } else if s < min_shares {
                        e == ErrorCode::ExcessiveSlippage
                    } else {
                        e == ErrorCode::MathOverflow && (p.token_x_reserve + amount_x > u64::MAX
                            || p.token_y_reserve + amount_y > u64::MAX || p.lp_token_supply + s
                            > u64::MAX)
                    }
                })
            },
        },
{
    if amount_x == 0 || amount_y == 0 {
        return Err(ErrorCode::InvalidLiquidityAmount);
    }
    if user_balance_x < amount_x || user_balance_y < amount_y {
        return Err(ErrorCode::InsufficientFunds);
    }
    if pool.strict_deposit_ratio && pool.token_x_reserve > 0 {
        if pool.token_y_reserve == 0 {
            return Err(ErrorCode::MathOverflow);
        }
        assert((amount_y as int) * (pool.token_x_reserve as int) <= (u64::MAX as int) * (u64::MAX
            as int)) by (nonlinear_arith)
            requires
                0 <= amount_y as int <= u64::MAX as int,
                0 <= pool.token_x_reserve as int <= u64::MAX as int,
        ;
        let expected: u128 = (amount_y as u128) * (pool.token_x_reserve as u128) / (
        pool.token_y_reserve as u128);
        if (amount_x as u128) != expected {
            return Err(ErrorCode::InvalidTokenRatio);
        }
    }
    let shares = match pool.calculate_lp_tokens(amount_x, amount_y) {
        Ok(v) => v,
        Err(e) => {
            return Err(e);
        },
    };
    if shares < min_shares {
        return Err(ErrorCode::ExcessiveSlippage);
    }
    let new_rx = match pool.token_x_reserve.checked_add(amount_x) {
        Some(v) => v,
        None => {
            return Err(ErrorCode::MathOverflow);
        },
    };
    let new_ry = match pool.token_y_reserve.checked_add(amount_y) {
        Some(v) => v,
        None => {
            return Err(ErrorCode::MathOverflow);
        },
    };
    let new_supply = match pool.lp_token_supply.checked_add(shares) {
        Some(v) => v,
        None => {
            return Err(ErrorCode::MathOverflow);
        },
    };
    // Locate the caller's position, if any.
    let mut found: bool = false;
    let mut idx: usize = 0;
    let n = pool.lp_tokens.len();
    let mut i: usize = 0;
    while i < n
        invariant
            n == pool.lp_tokens@.len(),
            0 <= i <= n,
            found ==> idx < i && pool.lp_tokens@[idx as int].owner == user && (forall|j: int|
                0 <= j < idx ==> pool.lp_tokens@[j].owner != user),
            !found ==> (forall|j: int| 0 <= j < i ==> pool.lp_tokens@[j].owner != user),
        decreases n - i,
    {
        if !found && pool.lp_tokens[i].owner == user {
            found = true;
            idx = i;
        }
        i = i + 1;
    }
    proof {
        lemma_owner_index(pool.lp_tokens@, user);
    }
    if found {
        proof {
            assert(owner_index(pool.lp_tokens@, user) == idx as int);
            lemma_sum_shares_bound(pool.lp_tokens@, idx as int);
            lemma_sum_shares_update(
                pool.lp_tokens@,
                idx as int,
                LpTokenBalance {
                    owner: user,
                    amount: (pool.lp_tokens@[idx as int].amount + shares) as u64,
                    last_reward_claim: now,
                },
            );
        }
        let prev = pool.lp_tokens[idx].amount;
        pool.lp_tokens[idx] = LpTokenBalance {
            owner: user,
            amount: prev + shares,
            last_reward_claim: now,
        };
    } else if shares > 0 {
        proof {
            lemma_sum_shares_push(
                pool.lp_tokens@,
                LpTokenBalance { owner: user, amount: shares, last_reward_claim: now },
            );
        }
        pool.lp_tokens.push(LpTokenBalance { owner: user, amount: shares, last_reward_claim: now });
    }
    pool.token_x_reserve = new_rx;
    pool.token_y_reserve = new_ry;
    pool.lp_token_supply = new_supply;
    Ok(
        LiquidityProvided {
            user,
            token_x_amount: amount_x,
            token_y_amount: amount_y,
            lp_tokens_minted: shares,
        },
    )
}

/// Burn `shares` of the caller's position at time `now` and return the
/// pro-rata part of each reserve. The position disappears when it reaches
/// zero; burning every outstanding share drains the pool completely.
#[verifier::rlimit(30)]
pub fn remove_liquidity(pool: &mut LiquidityPool, user: Pubkey, shares: u64) -> (r: Result<
    LiquidityRemoved,
    ErrorCode,
>)
    requires
        old(pool).wf(),
    ensures
        final(pool).wf(),
        match r {
            Ok(ev) => {
                &&& shares > 0
                &&& ({
                    let p = *old(pool);
                    let oi = owner_index(p.lp_tokens@, user);
                    let wx = withdraw_amount(p.token_x_reserve, shares, p.lp_token_supply);
                    let wy = withdraw_amount(p.token_y_reserve, shares, p.lp_token_supply);
                    &&& oi >= 0
                    &&& shares <= p.lp_tokens@[oi].amount
                    &&& 0 <= wx <= p.token_x_reserve
                    &&& 0 <= wy <= p.token_y_reserve
                    &&& *final(pool) == (LiquidityPool {
                        token_x_reserve: (p.token_x_reserve - wx) as u64,
                        token_y_reserve: (p.token_y_reserve - wy) as u64,
                        lp_token_supply: (p.lp_token_supply - shares) as u64,
                        lp_tokens: final(pool).lp_tokens,
                        ..p
                    })
                    &&& final(pool).lp_tokens@ == positions_after_burn(p.lp_tokens@, oi, shares)
                    &&& ev == (LiquidityRemoved {
                        user,
                        token_x_amount: wx as u64,
                        token_y_amount: wy as u64,
                        lp_tokens_burned: shares,
                    })
                })
            },
            Err(e) => {
                &&& *final(pool) == *old(pool)
                &&& ({
                    let p = *old(pool);
                    let oi = owner_index(p.lp_tokens@, user);
                    if shares == 0 {
                        e == ErrorCode::InvalidLPTokenAmount
                    } else if oi < 0 {
                        e == ErrorCode::NoLiquidity
                    } else {
                        e == ErrorCode::InsufficientShares && shares > p.lp_tokens@[oi].amount
                    }
                })
            },
        },
{
    if shares == 0 {
        return Err(ErrorCode::InvalidLPTokenAmount);
    }
    let mut found: bool = false;
    let mut idx: usize = 0;
    let n = pool.lp_tokens.len();
    let mut i: usize = 0;
    while i < n
        invariant
            n == pool.lp_tokens@.len(),
            0 <= i <= n,
            found ==> idx < i && pool.lp_tokens@[idx as int].owner == user && (forall|j: int|
                0 <= j < idx ==> pool.lp_tokens@[j].owner != user),
            !found ==> (forall|j: int| 0 <= j < i ==> pool.lp_tokens@[j].owner != user),
        decreases n - i,
    {
        if !found && pool.lp_tokens[i].owner == user {
            found = true;
            idx = i;
        }
        i = i + 1;
    }
    proof {
        lemma_owner_index(pool.lp_tokens@, user);
    }
    if !found {
        return Err(ErrorCode::NoLiquidity);
    }
    proof {
        assert(owner_index(pool.lp_tokens@, user) == idx as int);
    }
    let position_amount = pool.lp_tokens[idx].amount;
    if shares > position_amount {
        return Err(ErrorCode::InsufficientShares);
    }
    proof {
        lemma_sum_shares_bound(pool.lp_tokens@, idx as int);
    }
    let supply = pool.lp_token_supply;
    let rx = pool.token_x_reserve;
    let ry = pool.token_y_reserve;
    proof {
        lemma_withdraw_bounds(rx, shares, supply);
        lemma_withdraw_bounds(ry, shares, supply);
        assert((rx as int) * (shares as int) <= (u64::MAX as int) * (u64::MAX as int))
            by (nonlinear_arith)
            requires
                0 <= rx as int <= u64::MAX as int,
                0 <= shares as int <= u64::MAX as int,
        ;
        assert((ry as int) * (shares as int) <= (u64::MAX as int) * (u64::MAX as int))
            by (nonlinear_arith)
            requires
                0 <= ry as int <= u64::MAX as int,
                0 <= shares as int <= u64::MAX as int,
        ;
    }
    let wx: u64 = ((rx as u128) * (shares as u128) / (supply as u128)) as u64;
    let wy: u64 = ((ry as u128) * (shares as u128) / (supply as u128)) as u64;
    if shares == position_amount {
        let ghost before = pool.lp_tokens@;
        pool.lp_tokens.remove(idx);
        proof {
            before.remove_ensures(idx as int);
            lemma_sum_shares_remove(before, idx as int);
        }
    } else {
        proof {
            lemma_sum_shares_update(
                pool.lp_tokens@,
                idx as int,
                LpTokenBalance {
                    amount: (position_amount - shares) as u64,
                    ..pool.lp_tokens@[idx as int]
                },
            );
        }
        let entry = pool.lp_tokens[idx];
        pool.lp_tokens[idx] = LpTokenBalance { amount: position_amount - shares, ..entry };
    }
    pool.token_x_reserve = rx - wx;
    pool.token_y_reserve = ry - wy;
    pool.lp_token_supply = supply - shares;
    Ok(
        LiquidityRemoved {
            user,
            token_x_amount: wx,
            token_y_amount: wy,
            lp_tokens_burned: shares,
        },
    )
}

/// A pro-rata withdrawal never exceeds the reserve it draws on, and takes
/// the whole reserve exactly when every outstanding share is burned; a
/// partial burn of a positive reserve leaves some of it behind.
pub proof fn lemma_withdraw_bounds(reserve: u64, shares: u64, supply: u64)
    requires
        0 < shares <= supply,
    ensures
        0 <= withdraw_amount(reserve, shares, supply) <= reserve,
        shares == supply ==> withdraw_amount(reserve, shares, supply) == reserve,
        shares < supply && reserve > 0 ==> withdraw_amount(reserve, shares, supply) < reserve,
{
    let rv = reserve as int;
    let sh = shares as int;
    let sp = supply as int;
    let w = (rv * sh) / sp;
    lemma_div_pos_is_pos(rv * sh, sp);
    assert(rv * sh <= rv * sp) by (nonlinear_arith)
        requires
            rv >= 0,
            0 < sh <= sp,
    ;
    lemma_div_is_ordered(rv * sh, rv * sp, sp);
    lemma_div_by_multiple(rv, sp);
    assert((rv * sp) / sp == rv);
    if shares == supply {
        assert(rv * sh == rv * sp);
    }
    if sh < sp && rv > 0 {
        assert(rv * sh < rv * sp) by (nonlinear_arith)
            requires
                rv > 0,
                0 < sh < sp,
        ;
        if w >= rv {
            lemma_remainder_lower(rv * sh, sp);
            assert(w * sp >= rv * sp) by (nonlinear_arith)
                requires
                    w >= rv,
                    sp > 0,
            ;
        }
    }
}

/// Ratio preservation: a deposit whose amounts sit at or below the pool's
/// x-per-y ratio (as every deposit accepted under the strict policy does)
/// scales the share supply in the same proportion as the x reserve, up to
/// one unit of division rounding in the supply's favor:
/// (rx + ax) * supply - rx < rx * (supply + shares) <= (rx + ax) * supply.
pub proof fn lemma_deposit_preserves_ratio(rx: u64, ry: u64, supply: u64, ax: u64, ay: u64)
    requires
        rx > 0,
        ry > 0,
        supply > 0,
        ax * ry <= ay * rx,
    ensures
        ({
            let s = min_ratio_shares(ax, ay, supply, rx, ry);
            &&& (rx + ax) * supply - rx < rx * (supply + s)
            &&& rx * (supply + s) <= (rx + ax) * supply
        }),
{
    let fx = ratio_shares(ax, supply, rx);
    let fy = ratio_shares(ay, supply, ry);
    lemma_remainder_lower(ax * supply, rx as int);
    lemma_remainder_upper(ax * supply, rx as int);
    lemma_div_pos_is_pos(ax * supply, rx as int);
    lemma_div_pos_is_pos(ay * supply, ry as int);
    // fx <= fy, so the minimum is the x-implied count.
    assert((ax * supply) * ry <= (ay * supply) * rx) by (nonlinear_arith)
        requires
            ax * ry <= ay * rx,
            supply as int >= 0,
    ;
    assert(fx * ry <= ay * supply) by (nonlinear_arith)
        requires
            fx * (rx as int) <= ax * supply,
            (ax * supply) * ry <= (ay * supply) * rx,
            ax * ry <= ay * rx,
            rx > 0,
            ry > 0,
            supply > 0,
            fx >= 0,
    ;
    lemma_div_by_multiple(fx, ry as int);
    lemma_div_is_ordered(fx * (ry as int), ay * supply, ry as int);
    assert(fx <= fy);
    let s = min_ratio_shares(ax, ay, supply, rx, ry);
    assert(s == fx);
    // rx * (supply + s) differs from (rx + ax) * supply by the rounding of
    // (ax * supply) / rx alone.
    assert(rx * (supply + s) == rx * supply + rx * fx) by (nonlinear_arith)
        requires
            s == fx,
    ;
    assert((rx + ax) * supply == rx * supply + ax * supply) by (nonlinear_arith);
    assert(rx * fx == fx * rx) by (nonlinear_arith);
}

/// A deposit accepted by the strict ratio check sits at or below the pool's
/// x-per-y ratio, so the ratio-preservation bound applies to it.
pub proof fn lemma_strict_ratio_below(rx: u64, ry: u64, ax: u64, ay: u64)
    requires
        ry > 0,
        ax == (ay * rx) / (ry as int),
    ensures
        ax * ry <= ay * rx,
{
    lemma_remainder_lower(ay * rx, ry as int);
}

} // verus!
