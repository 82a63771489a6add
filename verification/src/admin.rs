//! Pool lifecycle and the bounded admin registry: pool creation, the
//! three-seat admin set gated on the super admin, and destruction of a
//! fully drained pool.

use vstd::prelude::*;
use crate::{BPS_DENOM, MAX_FEE_RATE};
use crate::errors::ErrorCode;
use crate::events::{AdminUpdated, PoolInitialized, PoolRemovedEvent};
use crate::pool::{LiquidityPool, Pubkey, MAX_ADMINS};

verus! {

/// Position of a key in the admin list, or -1 when it is absent.
pub open spec fn admin_index(s: Seq<Pubkey>, k: Pubkey) -> int
    decreases s.len(),
{
    if s.len() == 0 {
        -1
    } else if s[0] == k {
        0
    } else {
        let r = admin_index(s.drop_first(), k);
        if r < 0 {
            -1
        } else {
            r + 1
        }
    }
}

/// `admin_index` finds exactly the first occurrence of the key: a
/// nonnegative answer points at it, and -1 means the key is absent.
pub proof fn lemma_admin_index(s: Seq<Pubkey>, k: Pubkey)
    ensures
        admin_index(s, k) >= 0 ==> admin_index(s, k) < s.len() && s[admin_index(s, k)] == k && (
        forall|i: int| 0 <= i < admin_index(s, k) ==> s[i] != k),
        admin_index(s, k) < 0 ==> (forall|i: int| 0 <= i < s.len() ==> s[i] != k),
    decreases s.len(),
{
    if s.len() > 0 && s[0] != k {
        lemma_admin_index(s.drop_first(), k);
        assert forall|i: int| 1 <= i < s.len() implies s.drop_first()[i - 1] == s[i] by {}
    }
}

/// Create a pool for a token pair. The creator pays the protocol fee to the
/// host and becomes both authority and super admin, and the sole admin. The
/// pool starts empty, with the order id generator at zero and the volume
/// window opening at `now`.
pub fn initialize_pool(
    payer: Pubkey,
    token_x_mint: Pubkey,
    token_y_mint: Pubkey,
    fee_rate: u64,
    reward_rate: u64,
    strict_deposit_ratio: bool,
    now: i64,
) -> (r: Result<(LiquidityPool, PoolInitialized), ErrorCode>)
    requires
        now >= 0,
    ensures
        match r {
            Ok((pool, ev)) => {
                &&& fee_rate <= MAX_FEE_RATE
                &&& reward_rate <= BPS_DENOM
                &&& pool.wf()
                &&& pool.authority == payer && pool.super_admin == payer
                &&& pool.admins@ =~= seq![payer]
                &&& pool.token_x_mint == token_x_mint && pool.token_y_mint == token_y_mint
                &&& pool.token_x_reserve == 0 && pool.token_y_reserve == 0
                &&& pool.lp_token_supply == 0 && pool.lp_tokens@ =~= Seq::<
                    crate::pool::LpTokenBalance,
                >::empty()
                &&& pool.fee_rate == fee_rate && pool.reward_rate == reward_rate
                &&& pool.strict_deposit_ratio == strict_deposit_ratio
                &&& pool.total_staked == 0 && pool.staking_rewards_accrued == 0
                &&& pool.orders@ =~= Seq::<crate::pool::Order>::empty() && pool.order_seq == 0
                &&& pool.volume_24h == 0 && pool.fees_24h == 0 && pool.last_volume_reset == now
                &&& ev == (PoolInitialized { authority: payer, fee_rate })
            },
            Err(e) => e == ErrorCode::InvalidFeeRate && (fee_rate > MAX_FEE_RATE || reward_rate
                > BPS_DENOM),
        },
{
    if fee_rate > MAX_FEE_RATE || reward_rate > BPS_DENOM {
        return Err(ErrorCode::InvalidFeeRate);
    }
    let mut admins: Vec<Pubkey> = Vec::new();
    admins.push(payer);
    let pool = LiquidityPool {
        authority: payer,
        super_admin: payer,
        admins,
        token_x_reserve: 0,
        token_y_reserve: 0,
        lp_token_supply: 0,
        token_x_mint,
        token_y_mint,
        lp_tokens: Vec::new(),
        fee_rate,
        reward_rate,
        total_staked: 0,
        strict_deposit_ratio,
        orders: Vec::new(),
        order_seq: 0,
        volume_24h: 0,
        fees_24h: 0,
        last_volume_reset: now,
        staking_rewards_accrued: 0,
    };
    Ok((pool, PoolInitialized { authority: payer, fee_rate }))
}

/// Add a key to or remove a key from the admin set. Only the super admin
/// may call; the set never exceeds three entries and never holds a key
/// twice.
pub fn manage_admin(pool: &mut LiquidityPool, caller: Pubkey, admin_address: Pubkey, is_add: bool)
    -> (r: Result<AdminUpdated, ErrorCode>)
    requires
        old(pool).wf(),
    ensures
        final(pool).wf(),
        match r {
            Ok(ev) => {
                &&& caller == old(pool).super_admin
                &&& if is_add {
                    &&& !old(pool).admins@.contains(admin_address)
                    &&& old(pool).admins@.len() < MAX_ADMINS
                    &&& final(pool).admins@ == old(pool).admins@.push(admin_address)
                } else {
                    &&& old(pool).admins@.contains(admin_address)
                    &&& final(pool).admins@ == old(pool).admins@.remove(
                        admin_index(old(pool).admins@, admin_address),
                    )
                }
                &&& *final(pool) == (LiquidityPool { admins: final(pool).admins, ..*old(pool) })
                &&& ev == (AdminUpdated { admin: admin_address, is_added: is_add, super_admin: caller })
            },
            Err(e) => {
                &&& *final(pool) == *old(pool)
                &&& if caller != old(pool).super_admin {
                    e == ErrorCode::Unauthorized
                } else if is_add {
                    if old(pool).admins@.contains(admin_address) {
                        e == ErrorCode::AdminAlreadyExists
                    } else {
                        e == ErrorCode::MaxAdminLimitReached && old(pool).admins@.len()
                            >= MAX_ADMINS
                    }
                } else {
                    e == ErrorCode::AdminDoesntExist && !old(pool).admins@.contains(admin_address)
                }
            },
        },
{
    if caller != pool.super_admin {
        return Err(ErrorCode::Unauthorized);
    }
    let mut found: bool = false;
    let mut idx: usize = 0;
    let n = pool.admins.len();
    let mut i: usize = 0;
    while i < n
        invariant
            n == pool.admins@.len(),
            0 <= i <= n,
            found ==> idx < i && pool.admins@[idx as int] == admin_address && (forall|j: int|
                0 <= j < idx ==> pool.admins@[j] != admin_address),
            !found ==> (forall|j: int| 0 <= j < i ==> pool.admins@[j] != admin_address),
        decreases n - i,
    {
        if !found && pool.admins[i] == admin_address {
            found = true;
            idx = i;
        }
        i = i + 1;
    }
    proof {
        lemma_admin_index(pool.admins@, admin_address);
        if found {
            assert(pool.admins@.contains(admin_address));
            assert(admin_index(pool.admins@, admin_address) == idx as int);
        } else {
            assert(!pool.admins@.contains(admin_address));
        }
    }
    if is_add {
        if found {
            return Err(ErrorCode::AdminAlreadyExists);
        }
        if pool.admins.len() >= MAX_ADMINS {
            return Err(ErrorCode::MaxAdminLimitReached);
        }
        pool.admins.push(admin_address);
        Ok(AdminUpdated { admin: admin_address, is_added: true, super_admin: caller })
    } else {
        if !found {
            return Err(ErrorCode::AdminDoesntExist);
        }
        let ghost before = pool.admins@;
        pool.admins.remove(idx);
        proof {
            before.remove_ensures(idx as int);
        }
        Ok(AdminUpdated { admin: admin_address, is_added: false, super_admin: caller })
    }
}

/// Whether a caller may destroy the pool: only its authority or super admin.
pub open spec fn may_remove_pool(p: LiquidityPool, caller: Pubkey) -> bool {
    caller == p.super_admin || caller == p.authority
}

/// Whether the pool is fully drained: no reserves and no outstanding shares.
pub open spec fn pool_empty(p: LiquidityPool) -> bool {
    p.token_x_reserve == 0 && p.token_y_reserve == 0 && p.lp_token_supply == 0
}

/// Authorize destruction of the pool at time `now`. It fails with
/// `PoolNotEmpty` whenever any reserve or the share supply is nonzero; on
/// success the host closes the record and returns its residual balance to
/// the caller.
pub fn remove_pool(pool: &LiquidityPool, pool_key: Pubkey, caller: Pubkey, now: i64) -> (r: Result<
    PoolRemovedEvent,
    ErrorCode,
>)
    requires
        pool.wf(),
    ensures
        match r {
            Ok(ev) => may_remove_pool(*pool, caller) && pool_empty(*pool) && ev == (
            PoolRemovedEvent { pool: pool_key, authority: caller, timestamp: now }),
            Err(e) => if !may_remove_pool(*pool, caller) {
                e == ErrorCode::Unauthorized
            } else {
                e == ErrorCode::PoolNotEmpty && !pool_empty(*pool)
            },
        },
{
    if !(caller == pool.super_admin || caller == pool.authority) {
        return Err(ErrorCode::Unauthorized);
    }
    if !(pool.token_x_reserve == 0 && pool.token_y_reserve == 0) {
        return Err(ErrorCode::PoolNotEmpty);
    }
    if pool.lp_token_supply != 0 {
        return Err(ErrorCode::PoolNotEmpty);
    }
    Ok(PoolRemovedEvent { pool: pool_key, authority: caller, timestamp: now })
}

} // verus!
