use soondex::admin::initialize_pool;
use soondex::book::{cancel_order, place_order};
use soondex::errors::ErrorCode;
use soondex::matching::match_orders;
use soondex::pool::{LiquidityPool, Pubkey, Side};

fn key(id: u64) -> Pubkey {
    Pubkey { id }
}

fn pool_with_fee(fee_rate: u64) -> LiquidityPool {
    let (pool, _) = initialize_pool(key(1), key(10), key(20), fee_rate, 500, true, 0).unwrap();
    pool
}

#[test]
fn orders_get_sequential_ids() {
    let mut pool = pool_with_fee(30);
    let a = place_order(&mut pool, key(2), Side::Buy, 10, 100).unwrap();
    let b = place_order(&mut pool, key(3), Side::Sell, 5, 90).unwrap();
    assert_eq!(a.order_id, 0);
    assert_eq!(b.order_id, 1);
    assert_eq!(pool.order_seq, 2);
    assert_eq!(pool.orders.len(), 2);
    assert_eq!(pool.orders[0].fulfilled, 0);
}

#[test]
fn zero_size_or_price_orders_are_rejected() {
    let mut pool = pool_with_fee(30);
    assert_eq!(
        place_order(&mut pool, key(2), Side::Buy, 0, 100).unwrap_err(),
        ErrorCode::InvalidOrderAmount
    );
    assert_eq!(
        place_order(&mut pool, key(2), Side::Buy, 10, 0).unwrap_err(),
        ErrorCode::InvalidOrderAmount
    );
}

#[test]
fn cancel_refunds_unfilled_remainder() {
    let mut pool = pool_with_fee(30);
    place_order(&mut pool, key(2), Side::Buy, 10, 100).unwrap();
    let ev = cancel_order(&mut pool, 0, key(2)).unwrap();
    assert_eq!(ev.refund, 10);
    assert!(pool.orders.is_empty());
}

#[test]
fn cancel_checks_owner_and_existence() {
    let mut pool = pool_with_fee(30);
    place_order(&mut pool, key(2), Side::Buy, 10, 100).unwrap();
    assert_eq!(cancel_order(&mut pool, 0, key(9)).unwrap_err(), ErrorCode::Unauthorized);
    assert_eq!(cancel_order(&mut pool, 7, key(2)).unwrap_err(), ErrorCode::OrderNotFound);
    assert_eq!(pool.orders.len(), 1);
}

#[test]
fn crossing_orders_match_at_midpoint() {
    let mut pool = pool_with_fee(5000);
    place_order(&mut pool, key(2), Side::Buy, 10, 110).unwrap();
    place_order(&mut pool, key(3), Side::Sell, 10, 100).unwrap();
    let (fills, ev) = match_orders(&mut pool, 1).unwrap();
    assert_eq!(fills.len(), 1);
    assert_eq!(fills[0].buy_order_id, 0);
    assert_eq!(fills[0].sell_order_id, 1);
    assert_eq!(fills[0].amount, 10);
    assert_eq!(fills[0].price, 105);
    assert_eq!(ev.total_volume, 10);
    // 50% fee on the matched amount, credited to the x reserve.
    assert_eq!(ev.total_fees, 5);
    assert_eq!(pool.token_x_reserve, 5);
    assert_eq!(pool.fees_24h, 5);
    assert_eq!(pool.volume_24h, 10);
    // Both orders filled completely and pruned.
    assert!(pool.orders.is_empty());
}

#[test]
fn matching_empty_book_fails() {
    let mut pool = pool_with_fee(30);
    assert_eq!(match_orders(&mut pool, 1).unwrap_err(), ErrorCode::InvalidOrderAmount);
}

#[test]
fn matching_uncrossed_book_is_a_no_op() {
    let mut pool = pool_with_fee(30);
    place_order(&mut pool, key(2), Side::Buy, 10, 90).unwrap();
    place_order(&mut pool, key(3), Side::Sell, 10, 100).unwrap();
    let (fills, ev) = match_orders(&mut pool, 1).unwrap();
    assert!(fills.is_empty());
    assert_eq!(ev.total_volume, 0);
    assert_eq!(pool.orders.len(), 2);
    assert_eq!(pool.orders[0].fulfilled, 0);
    assert_eq!(pool.orders[1].fulfilled, 0);
}

#[test]
fn one_buy_crosses_multiple_sells_without_overfill() {
    let mut pool = pool_with_fee(30);
    place_order(&mut pool, key(2), Side::Buy, 15, 110).unwrap();
    place_order(&mut pool, key(3), Side::Sell, 10, 100).unwrap();
    place_order(&mut pool, key(4), Side::Sell, 10, 105).unwrap();
    let (fills, ev) = match_orders(&mut pool, 1).unwrap();
    // The cheaper sell fills first and completely; the buy's remaining 5
    // come from the second sell, never exceeding its own size of 15.
    assert_eq!(fills.len(), 2);
    assert_eq!(fills[0].amount, 10);
    assert_eq!(fills[0].price, 105);
    assert_eq!(fills[1].amount, 5);
    assert_eq!(fills[1].price, 107);
    assert_eq!(ev.total_volume, 15);
    // The exhausted buy and first sell are pruned; the second sell rests
    // with 5 of 10 filled.
    assert_eq!(pool.orders.len(), 1);
    assert_eq!(pool.orders[0].id, 2);
    assert_eq!(pool.orders[0].fulfilled, 5);
    assert!(pool.orders[0].fulfilled <= pool.orders[0].amount);
}

#[test]
fn equal_prices_match_in_placement_order() {
    let mut pool = pool_with_fee(30);
    place_order(&mut pool, key(2), Side::Sell, 5, 100).unwrap();
    place_order(&mut pool, key(3), Side::Sell, 5, 100).unwrap();
    place_order(&mut pool, key(4), Side::Buy, 7, 100).unwrap();
    let (fills, _) = match_orders(&mut pool, 1).unwrap();
    assert_eq!(fills.len(), 2);
    // The earlier sell at the same price fills first, and fully.
    assert_eq!(fills[0].sell_order_id, 0);
    assert_eq!(fills[0].amount, 5);
    assert_eq!(fills[1].sell_order_id, 1);
    assert_eq!(fills[1].amount, 2);
    assert_eq!(fills[0].price, 100);
    // The partly filled later sell rests.
    assert_eq!(pool.orders.len(), 1);
    assert_eq!(pool.orders[0].id, 1);
    assert_eq!(pool.orders[0].fulfilled, 2);
}

#[test]
fn highest_bid_takes_the_best_ask_first() {
    let mut pool = pool_with_fee(30);
    place_order(&mut pool, key(2), Side::Buy, 5, 100).unwrap();
    place_order(&mut pool, key(3), Side::Buy, 5, 120).unwrap();
    place_order(&mut pool, key(4), Side::Sell, 5, 100).unwrap();
    let (fills, _) = match_orders(&mut pool, 1).unwrap();
    // The 120 bid outranks the earlier 100 bid and takes the only ask,
    // at midpoint (120 + 100) / 2.
    assert_eq!(fills.len(), 1);
    assert_eq!(fills[0].buy_order_id, 1);
    assert_eq!(fills[0].price, 110);
    // The weaker bid rests untouched.
    assert_eq!(pool.orders.len(), 1);
    assert_eq!(pool.orders[0].id, 0);
    assert_eq!(pool.orders[0].fulfilled, 0);
}

#[test]
fn second_pass_after_matching_is_a_no_op() {
    let mut pool = pool_with_fee(30);
    place_order(&mut pool, key(2), Side::Buy, 15, 110).unwrap();
    place_order(&mut pool, key(3), Side::Sell, 10, 100).unwrap();
    match_orders(&mut pool, 1).unwrap();
    // The partly filled buy rests; nothing crosses it now.
    let (fills, ev) = match_orders(&mut pool, 2).unwrap();
    assert!(fills.is_empty());
    assert_eq!(ev.total_volume, 0);
    assert_eq!(pool.orders.len(), 1);
    assert_eq!(pool.orders[0].fulfilled, 10);
}
