use soondex::admin::{initialize_pool, manage_admin, remove_pool};
use soondex::errors::ErrorCode;
use soondex::liquidity::{add_liquidity, remove_liquidity};
use soondex::pool::{LiquidityPool, Pubkey};

fn key(id: u64) -> Pubkey {
    Pubkey { id }
}

fn fresh_pool() -> LiquidityPool {
    let (pool, ev) = initialize_pool(key(1), key(10), key(20), 30, 500, true, 7).unwrap();
    assert_eq!(ev.authority, key(1));
    assert_eq!(ev.fee_rate, 30);
    pool
}

#[test]
fn creator_becomes_authority_super_admin_and_sole_admin() {
    let pool = fresh_pool();
    assert_eq!(pool.authority, key(1));
    assert_eq!(pool.super_admin, key(1));
    assert_eq!(pool.admins, vec![key(1)]);
    assert_eq!(pool.token_x_reserve, 0);
    assert_eq!(pool.token_y_reserve, 0);
    assert_eq!(pool.lp_token_supply, 0);
    assert_eq!(pool.order_seq, 0);
    assert_eq!(pool.last_volume_reset, 7);
}

#[test]
fn fee_rate_above_half_is_rejected() {
    match initialize_pool(key(1), key(10), key(20), 5001, 500, true, 0) {
        Err(e) => assert_eq!(e, ErrorCode::InvalidFeeRate),
        Ok(_) => panic!("fee rate above the bound was accepted"),
    }
    match initialize_pool(key(1), key(10), key(20), 30, 10_001, true, 0) {
        Err(e) => assert_eq!(e, ErrorCode::InvalidFeeRate),
        Ok(_) => panic!("reward rate above the bound was accepted"),
    }
}

#[test]
fn only_super_admin_manages_admins() {
    let mut pool = fresh_pool();
    assert_eq!(
        manage_admin(&mut pool, key(9), key(2), true).unwrap_err(),
        ErrorCode::Unauthorized
    );
}

#[test]
fn admin_set_is_bounded_and_duplicate_free() {
    let mut pool = fresh_pool();
    manage_admin(&mut pool, key(1), key(2), true).unwrap();
    manage_admin(&mut pool, key(1), key(3), true).unwrap();
    assert_eq!(pool.admins, vec![key(1), key(2), key(3)]);
    assert_eq!(
        manage_admin(&mut pool, key(1), key(4), true).unwrap_err(),
        ErrorCode::MaxAdminLimitReached
    );
    assert_eq!(
        manage_admin(&mut pool, key(1), key(2), true).unwrap_err(),
        ErrorCode::AdminAlreadyExists
    );
}

#[test]
fn removing_an_admin_keeps_the_others_in_order() {
    let mut pool = fresh_pool();
    manage_admin(&mut pool, key(1), key(2), true).unwrap();
    manage_admin(&mut pool, key(1), key(3), true).unwrap();
    let ev = manage_admin(&mut pool, key(1), key(2), false).unwrap();
    assert!(!ev.is_added);
    assert_eq!(pool.admins, vec![key(1), key(3)]);
    assert_eq!(
        manage_admin(&mut pool, key(1), key(2), false).unwrap_err(),
        ErrorCode::AdminDoesntExist
    );
}

#[test]
fn remove_pool_requires_authority_or_super_admin() {
    let pool = fresh_pool();
    assert_eq!(
        remove_pool(&pool, key(50), key(9), 100).unwrap_err(),
        ErrorCode::Unauthorized
    );
    let ev = remove_pool(&pool, key(50), key(1), 100).unwrap();
    assert_eq!(ev.pool, key(50));
    assert_eq!(ev.authority, key(1));
    assert_eq!(ev.timestamp, 100);
}

#[test]
fn remove_pool_fails_while_anything_is_outstanding() {
    let mut pool = fresh_pool();
    add_liquidity(&mut pool, key(2), 100, 400, 0, 1000, 1000, 0).unwrap();
    // Reserves and supply all nonzero.
    assert_eq!(remove_pool(&pool, key(50), key(1), 1).unwrap_err(), ErrorCode::PoolNotEmpty);
    // Fully drained again: destruction is allowed.
    remove_liquidity(&mut pool, key(2), 200).unwrap();
    assert!(remove_pool(&pool, key(50), key(1), 1).is_ok());
}
