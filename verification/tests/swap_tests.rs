use soondex::admin::initialize_pool;
use soondex::errors::ErrorCode;
use soondex::liquidity::add_liquidity;
use soondex::pool::{LiquidityPool, Pubkey};
use soondex::swap::{calculate_swap_output, quote, swap_tokens, SECONDS_PER_DAY};

fn key(id: u64) -> Pubkey {
    Pubkey { id }
}

fn pool_with_reserves(rx: u64, ry: u64) -> LiquidityPool {
    let (mut pool, _) = initialize_pool(key(1), key(10), key(20), 30, 500, true, 0).unwrap();
    add_liquidity(&mut pool, key(2), rx, ry, 0, u64::MAX, u64::MAX, 0).unwrap();
    pool
}

#[test]
fn swap_output_is_exact_floor_division() {
    // k = 1000 * 1000; a net input of 99 brings the output reserve to
    // floor(1000000 / 1099) = 909, paying out 91.
    assert_eq!(calculate_swap_output(99, 1000, 1000).unwrap(), 91);
    // The same exact floor with the whole input trading.
    assert_eq!(calculate_swap_output(100, 1000, 1000).unwrap(), 91);
}

#[test]
fn quote_on_small_input_floors_fee_to_zero() {
    // 25 bps of 100 floors to 0, so the whole input trades.
    let (out, fee_total, fee_lp, fee_staker) = quote(100, 1000, 1000).unwrap();
    assert_eq!(fee_total, 0);
    assert_eq!(fee_lp, 0);
    assert_eq!(fee_staker, 0);
    assert_eq!(out, 91);
}

#[test]
fn quote_splits_fee_between_providers_and_stakers() {
    // 25 bps of 10000 is 25; 3 parts in 25 go to stakers, 22 to providers.
    let (out, fee_total, fee_lp, fee_staker) = quote(10_000, 100_000, 100_000).unwrap();
    assert_eq!(fee_total, 25);
    assert_eq!(fee_staker, 3);
    assert_eq!(fee_lp, 22);
    // net input 9975: output reserve floor(10^10 / 109975) = 90929.
    assert_eq!(out, 9071);
}

#[test]
fn swap_applies_gross_input_and_exact_output() {
    let mut pool = pool_with_reserves(1000, 1000);
    let ev = swap_tokens(&mut pool, key(10), key(20), 100, 1, 1).unwrap();
    assert_eq!(ev.output_amount, 91);
    assert_eq!(pool.token_x_reserve, 1100);
    assert_eq!(pool.token_y_reserve, 909);
    assert_eq!(pool.volume_24h, 100);
    assert_eq!(pool.fees_24h, 0);
}

#[test]
fn swap_fails_on_excessive_slippage() {
    let mut pool = pool_with_reserves(1000, 1000);
    let r = swap_tokens(&mut pool, key(10), key(20), 100, 92, 1);
    assert_eq!(r.unwrap_err(), ErrorCode::ExcessiveSlippage);
    assert_eq!(pool.token_x_reserve, 1000);
    assert_eq!(pool.token_y_reserve, 1000);
}

#[test]
fn constant_product_falls_only_by_rounding() {
    let mut pool = pool_with_reserves(1000, 1000);
    let k_before = 1000u128 * 1000u128;
    swap_tokens(&mut pool, key(10), key(20), 100, 1, 1).unwrap();
    let k_after = pool.token_x_reserve as u128 * pool.token_y_reserve as u128;
    // 1100 * 909: the product lost 100 to rounding, less than the
    // post-trade divisor 1000 + 100.
    assert_eq!(k_after, 999_900);
    assert!(k_after + (1000 + 100) > k_before);
}

#[test]
fn constant_product_grows_when_division_is_exact() {
    // k = 100 * 100 = 10000; net input 25 gives divisor 125, which divides
    // k exactly: output reserve 80, and the product rises to 125 * 80.
    let mut pool = pool_with_reserves(100, 100);
    let ev = swap_tokens(&mut pool, key(10), key(20), 25, 1, 1).unwrap();
    assert_eq!(ev.output_amount, 20);
    let k_after = pool.token_x_reserve as u128 * pool.token_y_reserve as u128;
    assert_eq!(k_after, 10_000);
}

#[test]
fn swap_reverse_direction_uses_other_reserve() {
    let mut pool = pool_with_reserves(1000, 2000);
    let ev = swap_tokens(&mut pool, key(20), key(10), 200, 1, 1).unwrap();
    // input is token y: k = 2000 * 1000, divisor 2200, floor 909, out 91.
    assert_eq!(ev.output_amount, 91);
    assert_eq!(pool.token_y_reserve, 2200);
    assert_eq!(pool.token_x_reserve, 909);
}

#[test]
fn swap_rejects_degenerate_inputs() {
    let mut pool = pool_with_reserves(1000, 1000);
    assert_eq!(
        swap_tokens(&mut pool, key(10), key(20), 0, 1, 1).unwrap_err(),
        ErrorCode::InvalidSwapInput
    );
    assert_eq!(
        swap_tokens(&mut pool, key(10), key(20), 100, 0, 1).unwrap_err(),
        ErrorCode::InvalidSwapInput
    );
    assert_eq!(
        swap_tokens(&mut pool, key(10), key(10), 100, 1, 1).unwrap_err(),
        ErrorCode::InvalidTokenPair
    );
    assert_eq!(
        swap_tokens(&mut pool, key(99), key(20), 100, 1, 1).unwrap_err(),
        ErrorCode::InvalidToken
    );
    assert_eq!(
        swap_tokens(&mut pool, key(10), key(99), 100, 1, 1).unwrap_err(),
        ErrorCode::InvalidToken
    );
}

#[test]
fn swap_routes_staker_fee_to_accrual_counter() {
    let mut pool = pool_with_reserves(100_000, 100_000);
    swap_tokens(&mut pool, key(10), key(20), 10_000, 1, 1).unwrap();
    assert_eq!(pool.staking_rewards_accrued, 3);
    assert_eq!(pool.fees_24h, 25);
    assert_eq!(pool.volume_24h, 10_000);
}

#[test]
fn volume_window_resets_lazily_after_a_day() {
    let mut pool = pool_with_reserves(100_000, 100_000);
    swap_tokens(&mut pool, key(10), key(20), 10_000, 1, 1).unwrap();
    assert_eq!(pool.volume_24h, 10_000);
    assert_eq!(pool.last_volume_reset, 0);
    // Within the window the counter accumulates.
    swap_tokens(&mut pool, key(10), key(20), 1_000, 1, SECONDS_PER_DAY - 1).unwrap();
    assert_eq!(pool.volume_24h, 11_000);
    // A day after the last reset it starts over.
    swap_tokens(&mut pool, key(10), key(20), 2_000, 1, SECONDS_PER_DAY).unwrap();
    assert_eq!(pool.volume_24h, 2_000);
    assert_eq!(pool.last_volume_reset, SECONDS_PER_DAY);
}

#[test]
fn quote_fails_on_empty_reserves() {
    assert_eq!(quote(100, 0, 1000).unwrap_err(), ErrorCode::InvalidSwapInput);
    assert_eq!(quote(100, 1000, 0).unwrap_err(), ErrorCode::InvalidSwapInput);
    assert_eq!(quote(0, 1000, 1000).unwrap_err(), ErrorCode::InvalidSwapInput);
}

#[test]
fn swap_of_tiny_input_still_pays_something() {
    // Even one unit into very deep input reserves moves the floor by one.
    let mut pool = pool_with_reserves(1_000_000, 10);
    let ev = swap_tokens(&mut pool, key(10), key(20), 1, 1, 1).unwrap();
    assert_eq!(ev.output_amount, 1);
    assert_eq!(pool.token_y_reserve, 9);
}
