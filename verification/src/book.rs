//! The limit order book: placing and cancelling resting orders. The
//! matching pass itself lives in the `matching` module.

use vstd::prelude::*;
use crate::errors::ErrorCode;
use crate::events::{OrderCancelled, OrderPlaced};
use crate::pool::{LiquidityPool, Order, Pubkey, Side};

verus! {

/// Position of the order with the given id, or -1 when none has it.
pub open spec fn order_index(s: Seq<Order>, id: u64) -> int
    decreases s.len(),
{
    if s.len() == 0 {
        -1
    } else if s[0].id == id {
        0
    } else {
        let r = order_index(s.drop_first(), id);
        if r < 0 {
            -1
        } else {
            r + 1
        }
    }
}

/// `order_index` finds exactly the first order with the id: a nonnegative
/// answer points at it, and -1 means no order carries it.
pub proof fn lemma_order_index(s: Seq<Order>, id: u64)
    ensures
        order_index(s, id) >= 0 ==> order_index(s, id) < s.len() && s[order_index(s, id)].id == id
            && (forall|i: int| 0 <= i < order_index(s, id) ==> s[i].id != id),
        order_index(s, id) < 0 ==> (forall|i: int| 0 <= i < s.len() ==> s[i].id != id),
    decreases s.len(),
{
    if s.len() > 0 && s[0].id != id {
        lemma_order_index(s.drop_first(), id);
        assert forall|i: int| 1 <= i < s.len() implies s.drop_first()[i - 1] == s[i] by {}
    }
}

/// Append a resting order for `owner` at the next id. The escrow of
/// `amount` has already been moved in by the host's transfer capability.
pub fn place_order(pool: &mut LiquidityPool, owner: Pubkey, side: Side, amount: u64, price: u64)
    -> (r: Result<OrderPlaced, ErrorCode>)
    requires
        old(pool).wf(),
    ensures
        final(pool).wf(),
        match r {
            Ok(ev) => {
                &&& amount > 0 && price > 0
                &&& old(pool).order_seq < u64::MAX
                &&& final(pool).orders@ == old(pool).orders@.push(
                    Order {
                        id: old(pool).order_seq,
                        owner,
                        side,
                        amount,
                        price,
                        fulfilled: 0u64,
                    },
                )
                &&& *final(pool) == (LiquidityPool {
                    orders: final(pool).orders,
                    order_seq: (old(pool).order_seq + 1) as u64,
                    ..*old(pool)
                })
                &&& ev == (OrderPlaced { order_id: old(pool).order_seq, owner, side, amount, price })
            },
            Err(e) => {
                &&& *final(pool) == *old(pool)
                &&& if amount == 0 || price == 0 {
                    e == ErrorCode::InvalidOrderAmount
                } else {
                    e == ErrorCode::MathOverflow && old(pool).order_seq == u64::MAX
                }
            },
        },
{
    if amount == 0 || price == 0 {
        return Err(ErrorCode::InvalidOrderAmount);
    }
    let id = pool.order_seq;
    let next_seq = match pool.order_seq.checked_add(1) {
        Some(v) => v,
        None => {
            return Err(ErrorCode::MathOverflow);
        },
    };
    pool.orders.push(Order { id, owner, side, amount, price, fulfilled: 0 });
    pool.order_seq = next_seq;
    Ok(OrderPlaced { order_id: id, owner, side, amount, price })
}

/// Remove the caller's order and refund its unfilled remainder through the
/// host's transfer capability.
pub fn cancel_order(pool: &mut LiquidityPool, order_id: u64, owner: Pubkey) -> (r: Result<
    OrderCancelled,
    ErrorCode,
>)
    requires
        old(pool).wf(),
    ensures
        final(pool).wf(),
        match r {
            Ok(ev) => {
                &&& ({
                    let oi = order_index(old(pool).orders@, order_id);
                    &&& oi >= 0
                    &&& old(pool).orders@[oi].owner == owner
                    &&& final(pool).orders@ == old(pool).orders@.remove(oi)
                    &&& *final(pool) == (LiquidityPool {
                        orders: final(pool).orders,
                        ..*old(pool)
                    })
                    &&& ev == (OrderCancelled {
                        order_id,
                        owner,
                        refund: (old(pool).orders@[oi].amount - old(
                            pool,
                        ).orders@[oi].fulfilled) as u64,
                    })
                })
            },
            Err(e) => {
                &&& *final(pool) == *old(pool)
                &&& ({
                    let oi = order_index(old(pool).orders@, order_id);
                    if oi < 0 {
                        e == ErrorCode::OrderNotFound
                    } else {
                        e == ErrorCode::Unauthorized && old(pool).orders@[oi].owner != owner
                    }
                })
            },
        },
{
    let mut found: bool = false;
    let mut idx: usize = 0;
    let n = pool.orders.len();
    let mut i: usize = 0;
    while i < n
        invariant
            n == pool.orders@.len(),
            0 <= i <= n,
            found ==> idx < i && pool.orders@[idx as int].id == order_id && (forall|j: int|
                0 <= j < idx ==> pool.orders@[j].id != order_id),
            !found ==> (forall|j: int| 0 <= j < i ==> pool.orders@[j].id != order_id),
        decreases n - i,
    {
        if !found && pool.orders[i].id == order_id {
            found = true;
            idx = i;
        }
        i = i + 1;
    }
    proof {
        lemma_order_index(pool.orders@, order_id);
    }
    if !found {
        return Err(ErrorCode::OrderNotFound);
    }
    proof {
        assert(order_index(pool.orders@, order_id) == idx as int);
    }
    let order = pool.orders[idx];
    if order.owner != owner {
        return Err(ErrorCode::Unauthorized);
    }
    let refund = order.amount - order.fulfilled;
    let ghost before = pool.orders@;
    pool.orders.remove(idx);
    proof {
        before.remove_ensures(idx as int);
    }
    Ok(OrderCancelled { order_id, owner, refund })
}

} // verus!
