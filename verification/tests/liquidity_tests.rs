use soondex::admin::initialize_pool;
use soondex::errors::ErrorCode;
use soondex::liquidity::{add_liquidity, remove_liquidity};
use soondex::pool::{LiquidityPool, Pubkey};

fn key(id: u64) -> Pubkey {
    Pubkey { id }
}

fn fresh_pool(strict: bool) -> LiquidityPool {
    let (pool, _ev) = initialize_pool(key(1), key(10), key(20), 30, 500, strict, 0).unwrap();
    pool
}

#[test]
fn first_deposit_mints_sqrt_of_product() {
    let mut pool = fresh_pool(true);
    let ev = add_liquidity(&mut pool, key(2), 100, 400, 0, 1000, 1000, 5).unwrap();
    assert_eq!(ev.lp_tokens_minted, 200);
    assert_eq!(pool.lp_token_supply, 200);
    assert_eq!(pool.token_x_reserve, 100);
    assert_eq!(pool.token_y_reserve, 400);
    assert_eq!(pool.lp_tokens.len(), 1);
    assert_eq!(pool.lp_tokens[0].owner, key(2));
    assert_eq!(pool.lp_tokens[0].amount, 200);
}

#[test]
fn calculate_lp_tokens_first_deposit_is_floor_sqrt() {
    let pool = fresh_pool(true);
    assert_eq!(pool.calculate_lp_tokens(100, 400).unwrap(), 200);
    assert_eq!(pool.calculate_lp_tokens(2, 4).unwrap(), 2);
    assert_eq!(pool.calculate_lp_tokens(1, 1).unwrap(), 1);
    assert_eq!(pool.calculate_lp_tokens(u64::MAX, u64::MAX).unwrap(), u64::MAX);
}

#[test]
fn ratio_matching_deposit_preserves_ratio() {
    let mut pool = fresh_pool(true);
    add_liquidity(&mut pool, key(2), 1000, 2000, 0, 10_000, 10_000, 0).unwrap();
    let supply_before = pool.lp_token_supply;
    assert_eq!(supply_before, 1414);
    // A strict-policy deposit must satisfy amount_x == amount_y * rx / ry.
    let ev = add_liquidity(&mut pool, key(3), 500, 1000, 0, 10_000, 10_000, 1).unwrap();
    assert_eq!(ev.lp_tokens_minted, 707);
    // reserve_x * supply_after stays within one rounding unit of
    // reserve_x_after * supply_before.
    let lhs = 1000u128 * (supply_before + 707) as u128;
    let rhs = 1500u128 * supply_before as u128;
    assert!(lhs <= rhs && rhs < lhs + 1000);
}

#[test]
fn strict_policy_rejects_mismatched_deposit() {
    let mut pool = fresh_pool(true);
    add_liquidity(&mut pool, key(2), 1000, 2000, 0, 10_000, 10_000, 0).unwrap();
    let r = add_liquidity(&mut pool, key(3), 700, 1000, 0, 10_000, 10_000, 1);
    assert_eq!(r.unwrap_err(), ErrorCode::InvalidTokenRatio);
    assert_eq!(pool.token_x_reserve, 1000);
}

#[test]
fn soft_policy_penalizes_mismatched_deposit_through_minimum() {
    let mut pool = fresh_pool(false);
    add_liquidity(&mut pool, key(2), 1000, 1000, 0, 10_000, 10_000, 0).unwrap();
    assert_eq!(pool.lp_token_supply, 1000);
    let ev = add_liquidity(&mut pool, key(3), 100, 50, 0, 10_000, 10_000, 1).unwrap();
    assert_eq!(ev.lp_tokens_minted, 50);
}

#[test]
fn zero_amount_deposit_is_rejected() {
    let mut pool = fresh_pool(true);
    assert_eq!(
        add_liquidity(&mut pool, key(2), 0, 5, 0, 100, 100, 0).unwrap_err(),
        ErrorCode::InvalidLiquidityAmount
    );
    assert_eq!(
        add_liquidity(&mut pool, key(2), 5, 0, 0, 100, 100, 0).unwrap_err(),
        ErrorCode::InvalidLiquidityAmount
    );
}

#[test]
fn deposit_needs_sufficient_balances() {
    let mut pool = fresh_pool(true);
    assert_eq!(
        add_liquidity(&mut pool, key(2), 100, 400, 0, 99, 400, 0).unwrap_err(),
        ErrorCode::InsufficientFunds
    );
    assert_eq!(
        add_liquidity(&mut pool, key(2), 100, 400, 0, 100, 399, 0).unwrap_err(),
        ErrorCode::InsufficientFunds
    );
}

#[test]
fn deposit_below_min_shares_is_slippage() {
    let mut pool = fresh_pool(true);
    let r = add_liquidity(&mut pool, key(2), 100, 400, 201, 1000, 1000, 0);
    assert_eq!(r.unwrap_err(), ErrorCode::ExcessiveSlippage);
}

#[test]
fn repeat_deposit_grows_one_position() {
    let mut pool = fresh_pool(true);
    add_liquidity(&mut pool, key(2), 100, 400, 0, 10_000, 10_000, 0).unwrap();
    add_liquidity(&mut pool, key(2), 50, 200, 0, 10_000, 10_000, 1).unwrap();
    assert_eq!(pool.lp_tokens.len(), 1);
    assert_eq!(pool.lp_tokens[0].amount, pool.lp_token_supply);
}

#[test]
fn burn_returns_pro_rata_reserves() {
    let mut pool = fresh_pool(true);
    add_liquidity(&mut pool, key(2), 100, 400, 0, 1000, 1000, 0).unwrap();
    let ev = remove_liquidity(&mut pool, key(2), 100).unwrap();
    assert_eq!(ev.token_x_amount, 50);
    assert_eq!(ev.token_y_amount, 200);
    assert_eq!(pool.lp_token_supply, 100);
    assert_eq!(pool.token_x_reserve, 50);
    assert_eq!(pool.token_y_reserve, 200);
    assert_eq!(pool.lp_tokens[0].amount, 100);
}

#[test]
fn full_burn_drains_pool_and_removes_position() {
    let mut pool = fresh_pool(true);
    add_liquidity(&mut pool, key(2), 100, 400, 0, 1000, 1000, 0).unwrap();
    let ev = remove_liquidity(&mut pool, key(2), 200).unwrap();
    assert_eq!(ev.token_x_amount, 100);
    assert_eq!(ev.token_y_amount, 400);
    assert_eq!(pool.lp_token_supply, 0);
    assert_eq!(pool.token_x_reserve, 0);
    assert_eq!(pool.token_y_reserve, 0);
    assert!(pool.lp_tokens.is_empty());
}

#[test]
fn burn_more_than_held_fails() {
    let mut pool = fresh_pool(true);
    add_liquidity(&mut pool, key(2), 100, 400, 0, 1000, 1000, 0).unwrap();
    assert_eq!(
        remove_liquidity(&mut pool, key(2), 201).unwrap_err(),
        ErrorCode::InsufficientShares
    );
}

#[test]
fn burn_without_position_fails() {
    let mut pool = fresh_pool(true);
    add_liquidity(&mut pool, key(2), 100, 400, 0, 1000, 1000, 0).unwrap();
    assert_eq!(remove_liquidity(&mut pool, key(9), 10).unwrap_err(), ErrorCode::NoLiquidity);
}

#[test]
fn burn_zero_shares_fails() {
    let mut pool = fresh_pool(true);
    add_liquidity(&mut pool, key(2), 100, 400, 0, 1000, 1000, 0).unwrap();
    assert_eq!(
        remove_liquidity(&mut pool, key(2), 0).unwrap_err(),
        ErrorCode::InvalidLPTokenAmount
    );
}
