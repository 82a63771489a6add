//! The order matching engine: one batch crossing pass over the resting
//! orders. Active buys are taken in price-time priority (highest bid first,
//! ties by book position) against active sells (lowest ask first); each
//! match is applied immediately, trades execute at the integer midpoint of
//! the two limit prices, and a fee in basis points of each matched amount is
//! credited to the pool. The pass is specified by a recursive model that
//! the executable code is proved to follow exactly.

use vstd::prelude::*;
use crate::BPS_DENOM;
use crate::errors::ErrorCode;
use crate::events::OrdersMatched;
use crate::pool::{LiquidityPool, Order, Side};
use crate::swap::{rolled_counter, SECONDS_PER_DAY};

verus! {

/// One executed trade of a matching pass.
#[derive(Clone, Copy, Debug, PartialEq, Eq, Structural)]
pub struct Fill {
    pub buy_order_id: u64,
    pub sell_order_id: u64,
    pub amount: u64,
    pub price: u64,
}

/// What remains to fill of an order.
pub open spec fn remaining(o: Order) -> int {
    o.amount - o.fulfilled
}

/// An order that still has something to fill.
pub open spec fn is_active(o: Order) -> bool {
    o.fulfilled < o.amount
}

/// The order with `t` more units filled.
pub open spec fn fill_order(o: Order, t: int) -> Order {
    Order { fulfilled: (o.fulfilled + t) as u64, ..o }
}

/// Midpoint execution price, biased toward zero by integer division.
pub open spec fn midpoint(buy_price: u64, sell_price: u64) -> int {
    (buy_price + sell_price) / 2
}

/// Fee taken out of a matched amount, in basis points.
pub open spec fn match_fee(t: int, fee_rate: u64) -> int {
    (t * fee_rate) / (BPS_DENOM as int)
}

/// Book positions, in placement order, of the active orders on one side
/// among the first `n` orders.
pub open spec fn active_side_indices(s: Seq<Order>, side: Side, n: int) -> Seq<usize>
    decreases n,
{
    if n <= 0 {
        Seq::empty()
    } else {
        let prev = active_side_indices(s, side, n - 1);
        if s[n - 1].side == side && is_active(s[n - 1]) {
            prev.push((n - 1) as usize)
        } else {
            prev
        }
    }
}

/// Whether the order at `a` has strictly better queue priority than the one
/// at `b`: a better price for its side, or the same price and the earlier
/// book position. A strict total order on distinct positions, so the sorted
/// queue is unique and stable.
pub open spec fn precedes(s: Seq<Order>, side: Side, a: usize, b: usize) -> bool {
    if side == Side::Buy {
        s[a as int].price > s[b as int].price || (s[a as int].price == s[b as int].price && a < b)
    } else {
        s[a as int].price < s[b as int].price || (s[a as int].price == s[b as int].price && a < b)
    }
}

/// Insert `v` before the first entry it precedes: the insertion step of a
/// stable insertion sort.
pub open spec fn insert_by_priority(s: Seq<Order>, side: Side, lst: Seq<usize>, v: usize) -> Seq<
    usize,
>
    decreases lst.len(),
{
    if lst.len() == 0 {
        seq![v]
    } else if precedes(s, side, v, lst[0]) {
        seq![v] + lst
    } else {
        seq![lst[0]] + insert_by_priority(s, side, lst.drop_first(), v)
    }
}

/// The first `n` entries of `lst`, insertion-sorted by queue priority.
pub open spec fn sort_by_priority(s: Seq<Order>, side: Side, lst: Seq<usize>, n: int) -> Seq<usize>
    decreases n,
{
    if n <= 0 {
        Seq::empty()
    } else {
        insert_by_priority(s, side, sort_by_priority(s, side, lst, n - 1), lst[n - 1])
    }
}

/// The priority queue of one side of the book: its active orders, best
/// price first, ties in placement order.
pub open spec fn priority_queue(s: Seq<Order>, side: Side) -> Seq<usize> {
    let act = active_side_indices(s, side, s.len() as int);
    sort_by_priority(s, side, act, act.len() as int)
}

/// Inserting at the first position whose entry `v` precedes is what the
/// recursive insertion step computes.
pub proof fn lemma_insert_by_priority_at(
    s: Seq<Order>,
    side: Side,
    lst: Seq<usize>,
    v: usize,
    k: int,
)
    requires
        0 <= k <= lst.len(),
        forall|j: int| 0 <= j < k ==> !precedes(s, side, v, lst[j]),
        k < lst.len() ==> precedes(s, side, v, lst[k]),
    ensures
        insert_by_priority(s, side, lst, v) == lst.subrange(0, k) + seq![v] + lst.subrange(
            k,
            lst.len() as int,
        ),
    decreases lst.len(),
{
    if lst.len() == 0 {
        assert(insert_by_priority(s, side, lst, v) =~= lst.subrange(0, k) + seq![v] + lst.subrange(
            k,
            lst.len() as int,
        ));
    } else if k == 0 {
        assert(precedes(s, side, v, lst[0]));
        assert(insert_by_priority(s, side, lst, v) =~= lst.subrange(0, 0) + seq![v] + lst.subrange(
            0,
            lst.len() as int,
        ));
    } else {
        assert(!precedes(s, side, v, lst[0]));
        let tail = lst.drop_first();
        assert forall|j: int| 0 <= j < k - 1 implies !precedes(s, side, v, tail[j]) by {
            assert(tail[j] == lst[j + 1]);
        }
        if k - 1 < tail.len() {
            assert(tail[k - 1] == lst[k]);
        }
        lemma_insert_by_priority_at(s, side, tail, v, k - 1);
        assert(seq![lst[0]] + (tail.subrange(0, k - 1) + seq![v] + tail.subrange(
            k - 1,
            tail.len() as int,
        )) =~= lst.subrange(0, k) + seq![v] + lst.subrange(k, lst.len() as int));
    }
}

/// No later queue entry outranks an earlier one.
pub open spec fn queue_ordered(s: Seq<Order>, side: Side, q: Seq<usize>) -> bool {
    forall|i: int, j: int| 0 <= i < j < q.len() ==> !precedes(s, side, q[j], q[i])
}

/// Queue priority is transitive: outranking an entry that outranks a third
/// means outranking the third.
proof fn lemma_precedes_trans(s: Seq<Order>, side: Side, a: usize, b: usize, c: usize)
    requires
        precedes(s, side, a, b),
        precedes(s, side, b, c),
    ensures
        precedes(s, side, a, c),
{
}

/// The insertion step keeps the queue ordered, and adds exactly `v`.
proof fn lemma_insert_keeps_order(s: Seq<Order>, side: Side, lst: Seq<usize>, v: usize)
    requires
        queue_ordered(s, side, lst),
    ensures
        ({
            let r = insert_by_priority(s, side, lst, v);
            &&& queue_ordered(s, side, r)
            &&& r.len() == lst.len() + 1
            &&& forall|m: int| 0 <= m < r.len() ==> (#[trigger] r[m] == v || lst.contains(r[m]))
        }),
    decreases lst.len(),
{
    let r = insert_by_priority(s, side, lst, v);
    if lst.len() == 0 {
        assert(r[0] == v);
    } else if precedes(s, side, v, lst[0]) {
        assert forall|i: int, j: int| 0 <= i < j < r.len() implies !precedes(s, side, r[j], r[i]) by {
            assert(r[j] == lst[j - 1]);
            if i > 0 {
                assert(r[i] == lst[i - 1]);
            } else {
                // An entry outranking v would outrank lst[0] too, against
                // the order of lst; for j == 1 it would invert precedes.
                if precedes(s, side, lst[j - 1], v) {
                    lemma_precedes_trans(s, side, lst[j - 1], v, lst[0]);
                    assert(precedes(s, side, lst[j - 1], lst[0]));
                    assert(false);
                }
            }
        }
        assert forall|m: int| 0 <= m < r.len() implies (#[trigger] r[m] == v || lst.contains(
            r[m],
        )) by {
            if m > 0 {
                assert(r[m] == lst[m - 1]);
            }
        }
    } else {
        let tail = lst.drop_first();
        assert forall|i: int, j: int| 0 <= i < j < tail.len() implies !precedes(
            s,
            side,
            tail[j],
            tail[i],
        ) by {
            assert(tail[i] == lst[i + 1] && tail[j] == lst[j + 1]);
        }
        lemma_insert_keeps_order(s, side, tail, v);
        let rt = insert_by_priority(s, side, tail, v);
        assert forall|i: int, j: int| 0 <= i < j < r.len() implies !precedes(s, side, r[j], r[i]) by {
            assert(r[j] == rt[j - 1]);
            if i > 0 {
                assert(r[i] == rt[i - 1]);
            } else {
                assert(r[0] == lst[0]);
                assert(rt[j - 1] == v || tail.contains(rt[j - 1]));
                if rt[j - 1] != v {
                    let w = choose|w: int| 0 <= w < tail.len() && tail[w] == rt[j - 1];
                    assert(lst[w + 1] == rt[j - 1]);
                    assert(!precedes(s, side, lst[w + 1], lst[0]));
                }
            }
        }
        assert forall|m: int| 0 <= m < r.len() implies (#[trigger] r[m] == v || lst.contains(
            r[m],
        )) by {
            if m == 0 {
                assert(lst[0] == r[0]);
                assert(lst.contains(r[0]));
            } else {
                assert(r[m] == rt[m - 1]);
                if rt[m - 1] != v {
                    let w = choose|w: int| 0 <= w < tail.len() && tail[w] == rt[m - 1];
                    assert(lst[w + 1] == rt[m - 1]);
                    assert(lst.contains(lst[w + 1]));
                }
            }
        }
    }
}

/// Price-time priority of the matching queues: in the queue of either side
/// no later entry outranks an earlier one, so prices come best first and
/// equal prices keep their placement order.
pub proof fn lemma_priority_queue_ordered(s: Seq<Order>, side: Side)
    ensures
        queue_ordered(s, side, priority_queue(s, side)),
{
    let act = active_side_indices(s, side, s.len() as int);
    lemma_sort_ordered(s, side, act, act.len() as int);
}

/// Insertion sort yields an ordered queue from any index list.
proof fn lemma_sort_ordered(s: Seq<Order>, side: Side, lst: Seq<usize>, n: int)
    requires
        0 <= n <= lst.len(),
    ensures
        queue_ordered(s, side, sort_by_priority(s, side, lst, n)),
    decreases n,
{
    if n > 0 {
        lemma_sort_ordered(s, side, lst, n - 1);
        lemma_insert_keeps_order(s, side, sort_by_priority(s, side, lst, n - 1), lst[n - 1]);
    }
}

/// The running outcome of a matching pass: the working copy of the book,
/// the trades executed so far, and their total size and fees.
pub struct PassState {
    pub orders: Seq<Order>,
    pub fills: Seq<Fill>,
    pub volume: int,
    pub fees: int,
}

/// Cross one buy against the sell queue, best sell first. The scan stops at
/// the first sell priced above the buy (no later sell can cross, by the
/// sort) or once the buy is exhausted; a sell emptied earlier in the pass is
/// skipped. Each trade takes the smaller remaining size, at the midpoint of
/// the two limit prices, and is applied to the book immediately.
pub open spec fn match_one(s: Seq<Order>, b: usize, sells: Seq<usize>, fee_rate: u64) -> PassState
    decreases sells.len(),
{
    if sells.len() == 0 {
        PassState { orders: s, fills: Seq::empty(), volume: 0, fees: 0 }
    } else {
        let sl = sells[0];
        if !is_active(s[b as int]) || s[b as int].price < s[sl as int].price {
            PassState { orders: s, fills: Seq::empty(), volume: 0, fees: 0 }
        } else {
            let t = if remaining(s[b as int]) <= remaining(s[sl as int]) {
                remaining(s[b as int])
            } else {
                remaining(s[sl as int])
            };
            if t == 0 {
                match_one(s, b, sells.drop_first(), fee_rate)
            } else {
                let s2 = s.update(b as int, fill_order(s[b as int], t)).update(
                    sl as int,
                    fill_order(s[sl as int], t),
                );
                let f = Fill {
                    buy_order_id: s[b as int].id,
                    sell_order_id: s[sl as int].id,
                    amount: t as u64,
                    price: midpoint(s[b as int].price, s[sl as int].price) as u64,
                };
                let rest = match_one(s2, b, sells.drop_first(), fee_rate);
                PassState {
                    orders: rest.orders,
                    fills: seq![f] + rest.fills,
                    volume: t + rest.volume,
                    fees: match_fee(t, fee_rate) + rest.fees,
                }
            }
        }
    }
}

/// Run every buy of the priority queue, in order, against the sell queue.
pub open spec fn match_pass(s: Seq<Order>, buys: Seq<usize>, sells: Seq<usize>, fee_rate: u64)
    -> PassState
    decreases buys.len(),
{
    if buys.len() == 0 {
        PassState { orders: s, fills: Seq::empty(), volume: 0, fees: 0 }
    } else {
        let first = match_one(s, buys[0], sells, fee_rate);
        let rest = match_pass(first.orders, buys.drop_first(), sells, fee_rate);
        PassState {
            orders: rest.orders,
            fills: first.fills + rest.fills,
            volume: first.volume + rest.volume,
            fees: first.fees + rest.fees,
        }
    }
}

/// The whole pass on a book: its buy queue against its sell queue.
pub open spec fn book_pass(s: Seq<Order>, fee_rate: u64) -> PassState {
    match_pass(s, priority_queue(s, Side::Buy), priority_queue(s, Side::Sell), fee_rate)
}

/// The first `n` orders with the fully filled ones pruned away.
pub open spec fn prune_filled(s: Seq<Order>, n: int) -> Seq<Order>
    decreases n,
{
    if n <= 0 {
        Seq::empty()
    } else {
        let prev = prune_filled(s, n - 1);
        if is_active(s[n - 1]) {
            prev.push(s[n - 1])
        } else {
            prev
        }
    }
}

/// A matching pass only raises `fulfilled`, and never past `amount`; every
/// other field of every order is untouched, and no order is added or
/// removed until the final pruning.
pub open spec fn only_fills_added(a: Seq<Order>, b: Seq<Order>) -> bool {
    &&& b.len() == a.len()
    &&& forall|i: int|
        0 <= i < a.len() ==> {
            &&& (#[trigger] b[i]).id == a[i].id
            &&& b[i].owner == a[i].owner
            &&& b[i].side == a[i].side
            &&& b[i].amount == a[i].amount
            &&& b[i].price == a[i].price
            &&& a[i].fulfilled <= b[i].fulfilled <= b[i].amount
        }
}

/// Every order's bound is respected: `fulfilled` never exceeds `amount`.
pub open spec fn fills_bounded(s: Seq<Order>) -> bool {
    forall|i: int| 0 <= i < s.len() ==> (#[trigger] s[i]).fulfilled <= s[i].amount
}

/// `only_fills_added` composes along the pass.
pub proof fn lemma_only_fills_added_trans(a: Seq<Order>, b: Seq<Order>, c: Seq<Order>)
    requires
        only_fills_added(a, b),
        only_fills_added(b, c),
    ensures
        only_fills_added(a, c),
{
}

/// Crossing one buy respects every order's bound: fills only grow, stay
/// within each order's size, and the trade totals are nonnegative.
pub proof fn lemma_match_one_shape(s: Seq<Order>, b: usize, sells: Seq<usize>, fee_rate: u64)
    requires
        (b as int) < s.len(),
        forall|i: int| 0 <= i < sells.len() ==> (#[trigger] sells[i] as int) < s.len(),
        fills_bounded(s),
    ensures
        ({
            let m = match_one(s, b, sells, fee_rate);
            &&& only_fills_added(s, m.orders)
            &&& m.volume >= 0
            &&& m.fees >= 0
        }),
    decreases sells.len(),
{
    if sells.len() > 0 {
        let sl = sells[0];
        let tail = sells.drop_first();
        assert forall|i: int| 0 <= i < tail.len() implies (#[trigger] tail[i] as int) < s.len() by {
            assert(tail[i] == sells[i + 1]);
        }
        if !is_active(s[b as int]) || s[b as int].price < s[sl as int].price {
        } else {
            let t = if remaining(s[b as int]) <= remaining(s[sl as int]) {
                remaining(s[b as int])
            } else {
                remaining(s[sl as int])
            };
            if t == 0 {
                lemma_match_one_shape(s, b, tail, fee_rate);
            } else {
                let s2 = s.update(b as int, fill_order(s[b as int], t)).update(
                    sl as int,
                    fill_order(s[sl as int], t),
                );
                assert(only_fills_added(s, s2));
                assert(fills_bounded(s2));
                lemma_match_one_shape(s2, b, tail, fee_rate);
                lemma_only_fills_added_trans(s, s2, match_one(s2, b, tail, fee_rate).orders);
                vstd::arithmetic::div_mod::lemma_div_pos_is_pos(
                    t * (fee_rate as int),
                    BPS_DENOM as int,
                );
                assert(t * (fee_rate as int) >= 0) by (nonlinear_arith)
                    requires
                        t > 0,
                        fee_rate as int >= 0,
                ;
            }
        }
    }
}

/// A whole pass respects every order's bound, and its totals are
/// nonnegative: in particular `fulfilled` never exceeds `amount` on any
/// order, however many counterparties a single order crosses.
pub proof fn lemma_match_pass_shape(s: Seq<Order>, buys: Seq<usize>, sells: Seq<usize>, fee_rate: u64)
    requires
        forall|i: int| 0 <= i < buys.len() ==> (#[trigger] buys[i] as int) < s.len(),
        forall|i: int| 0 <= i < sells.len() ==> (#[trigger] sells[i] as int) < s.len(),
        fills_bounded(s),
    ensures
        ({
            let m = match_pass(s, buys, sells, fee_rate);
            &&& only_fills_added(s, m.orders)
            &&& m.volume >= 0
            &&& m.fees >= 0
        }),
    decreases buys.len(),
{
    if buys.len() > 0 {
        let first = match_one(s, buys[0], sells, fee_rate);
        lemma_match_one_shape(s, buys[0], sells, fee_rate);
        let tail = buys.drop_first();
        assert forall|i: int| 0 <= i < tail.len() implies (#[trigger] tail[i] as int)
            < first.orders.len() by {
            assert(tail[i] == buys[i + 1]);
        }
        lemma_match_pass_shape(first.orders, tail, sells, fee_rate);
        lemma_only_fills_added_trans(
            s,
            first.orders,
            match_pass(first.orders, tail, sells, fee_rate).orders,
        );
    }
}

/// Pruning a well-formed book keeps it well formed: the surviving orders
/// keep their strictly increasing ids, their bounds, and their positive
/// sizes and prices, and every survivor's id stays below ids placed later.
pub proof fn lemma_prune_wf(s: Seq<Order>, n: int, order_seq: u64)
    requires
        0 <= n <= s.len(),
        forall|i: int|
            0 <= i < s.len() ==> (#[trigger] s[i]).fulfilled <= s[i].amount && s[i].id < order_seq
                && s[i].amount > 0 && s[i].price > 0,
        forall|i: int, j: int| 0 <= i < j < s.len() ==> s[i].id < s[j].id,
    ensures
        ({
            let p = prune_filled(s, n);
            &&& forall|i: int|
                0 <= i < p.len() ==> (#[trigger] p[i]).fulfilled <= p[i].amount && p[i].id
                    < order_seq && p[i].amount > 0 && p[i].price > 0
            &&& forall|i: int, j: int| 0 <= i < j < p.len() ==> p[i].id < p[j].id
            &&& forall|i: int, j: int|
                0 <= i < p.len() && n <= j < s.len() ==> (#[trigger] p[i]).id < (#[trigger] s[j]).id
        }),
    decreases n,
{
    if n > 0 {
        lemma_prune_wf(s, n - 1, order_seq);
        let prev = prune_filled(s, n - 1);
        let cur = prune_filled(s, n);
        if is_active(s[n - 1]) {
            assert(cur == prev.push(s[n - 1]));
            assert forall|i: int| 0 <= i < cur.len() implies (#[trigger] cur[i]).fulfilled
                <= cur[i].amount && cur[i].id < order_seq && cur[i].amount > 0 && cur[i].price
                > 0 by {
                if i < prev.len() {
                    assert(cur[i] == prev[i]);
                } else {
                    assert(cur[i] == s[n - 1]);
                }
            }
            assert forall|i: int, j: int| 0 <= i < j < cur.len() implies cur[i].id < cur[j].id by {
                if j < prev.len() {
                    assert(cur[i] == prev[i] && cur[j] == prev[j]);
                } else {
                    assert(cur[i] == prev[i] && cur[j] == s[n - 1]);
                }
            }
            assert forall|i: int, j: int|
                0 <= i < cur.len() && n <= j < s.len() implies (#[trigger] cur[i]).id < (
            #[trigger] s[j]).id by {
                if i < prev.len() {
                    assert(cur[i] == prev[i]);
                } else {
                    assert(cur[i] == s[n - 1]);
                }
            }
        }
    }
}

/// Collect the book positions of the active orders on one side, in
/// placement order.
pub(crate) fn collect_active(orders: &Vec<Order>, side: Side) -> (r: Vec<usize>)
    ensures
        r@ == active_side_indices(orders@, side, orders@.len() as int),
        forall|i: int| 0 <= i < r@.len() ==> (#[trigger] r@[i] as int) < orders@.len(),
{
    let mut r: Vec<usize> = Vec::new();
    let n = orders.len();
    let mut i: usize = 0;
    while i < n
        invariant
            n == orders@.len(),
            0 <= i <= n,
            r@ == active_side_indices(orders@, side, i as int),
            forall|j: int| 0 <= j < r@.len() ==> (#[trigger] r@[j] as int) < orders@.len(),
        decreases n - i,
    {
        let o = orders[i];
        if o.side == side && o.fulfilled < o.amount {
            r.push(i);
        }
        i = i + 1;
    }
    r
}

/// Whether the order at `a` outranks the one at `b` in the queue.
fn precedes_exec(orders: &Vec<Order>, side: Side, a: usize, b: usize) -> (r: bool)
    requires
        (a as int) < orders@.len(),
        (b as int) < orders@.len(),
    ensures
        r == precedes(orders@, side, a, b),
{
    let pa = orders[a].price;
    let pb = orders[b].price;
    match side {
        Side::Buy => pa > pb || (pa == pb && a < b),
        Side::Sell => pa < pb || (pa == pb && a < b),
    }
}

/// Sort the index list into queue priority order with a stable insertion
/// sort.
pub(crate) fn sort_side(orders: &Vec<Order>, idxs: &Vec<usize>, side: Side) -> (r: Vec<usize>)
    requires
        forall|i: int| 0 <= i < idxs@.len() ==> (#[trigger] idxs@[i] as int) < orders@.len(),
    ensures
        r@ == sort_by_priority(orders@, side, idxs@, idxs@.len() as int),
        forall|i: int| 0 <= i < r@.len() ==> (#[trigger] r@[i] as int) < orders@.len(),
        r@.len() == idxs@.len(),
    decreases idxs@.len(),
{
    let mut out: Vec<usize> = Vec::new();
    let n = idxs.len();
    let mut i: usize = 0;
    while i < n
        invariant
            n == idxs@.len(),
            0 <= i <= n,
            out@ == sort_by_priority(orders@, side, idxs@, i as int),
            out@.len() == i,
            forall|j: int| 0 <= j < idxs@.len() ==> (#[trigger] idxs@[j] as int) < orders@.len(),
            forall|j: int| 0 <= j < out@.len() ==> (#[trigger] out@[j] as int) < orders@.len(),
        decreases n - i,
    {
        let v = idxs[i];
        let mut k: usize = 0;
        while k < out.len() && !precedes_exec(orders, side, v, out[k])
            invariant
                0 <= k <= out@.len(),
                (v as int) < orders@.len(),
                forall|j: int| 0 <= j < out@.len() ==> (#[trigger] out@[j] as int) < orders@.len(),
                forall|j: int| 0 <= j < k ==> !precedes(orders@, side, v, out@[j]),
            decreases out@.len() - k,
        {
            k = k + 1;
        }
        proof {
            lemma_insert_by_priority_at(orders@, side, out@, v, k as int);
        }
        let ghost before = out@;
        out.insert(k, v);
        proof {
            assert(out@ =~= before.subrange(0, k as int) + seq![v] + before.subrange(
                k as int,
                before.len() as int,
            ));
        }
        i = i + 1;
    }
    out
}

/// Run the crossing loops over a working copy of the book: every buy of the
/// priority queue against the sell queue, applying each trade immediately.
/// Returns the fills and the running totals; it fails only when a total
/// outgrows its 128-bit accumulator, which the caller reports as overflow.
#[verifier::loop_isolation(false)]
#[verifier::rlimit(100)]
fn run_pass(book: &mut Vec<Order>, buys: &Vec<usize>, sells: &Vec<usize>, fee_rate: u64) -> (r:
    Result<(Vec<Fill>, u128, u128), ErrorCode>)
    requires
        forall|i: int| 0 <= i < buys@.len() ==> (#[trigger] buys@[i] as int) < old(book)@.len(),
        forall|i: int| 0 <= i < sells@.len() ==> (#[trigger] sells@[i] as int) < old(book)@.len(),
        fills_bounded(old(book)@),
    ensures
        ({
            let full = match_pass(old(book)@, buys@, sells@, fee_rate);
            &&& only_fills_added(old(book)@, final(book)@)
            &&& match r {
                Ok((fills, volume, fees)) => {
                    &&& final(book)@ == full.orders
                    &&& fills@ == full.fills
                    &&& volume == full.volume
                    &&& fees == full.fees
                },
                Err(e) => e == ErrorCode::MathOverflow && (full.volume > u128::MAX || full.fees
                    > u128::MAX),
            }
        }),
{
    let ghost s0 = book@;
    let ghost full = match_pass(s0, buys@, sells@, fee_rate);
    let mut fills: Vec<Fill> = Vec::new();
    let mut volume: u128 = 0;
    let mut fees: u128 = 0;
    let nb = buys.len();
    let ns = sells.len();
    proof {
        assert(buys@.subrange(0, nb as int) =~= buys@);
        assert(Seq::<Fill>::empty() + match_pass(book@, buys@, sells@, fee_rate).fills
            =~= match_pass(book@, buys@, sells@, fee_rate).fills);
    }
    let mut bi: usize = 0;
    while bi < nb
        invariant
            0 <= bi <= nb,
            book@.len() == s0.len(),
            fills_bounded(book@),
            only_fills_added(s0, book@),
            ({
                let rest = match_pass(book@, buys@.subrange(bi as int, nb as int), sells@, fee_rate);
                &&& full.orders == rest.orders
                &&& full.fills == fills@ + rest.fills
                &&& full.volume == volume + rest.volume
                &&& full.fees == fees + rest.fees
            }),
        decreases nb - bi,
    {
        let b = buys[bi];
        proof {
            assert(buys@.subrange(bi as int, nb as int)[0] == b);
            assert(buys@.subrange(bi as int, nb as int).drop_first() =~= buys@.subrange(
                bi as int + 1,
                nb as int,
            ));
        }
        let ghost m1_target = match_one(book@, b, sells@, fee_rate);
        let ghost restb = match_pass(
            m1_target.orders,
            buys@.subrange(bi as int + 1, nb as int),
            sells@,
            fee_rate,
        );
        proof {
            assert(sells@.subrange(0, ns as int) =~= sells@);
        }
        let mut si: usize = 0;
        let mut stop: bool = false;
        while !stop && si < ns
            invariant
                0 <= si <= ns,
                book@.len() == s0.len(),
                fills_bounded(book@),
                only_fills_added(s0, book@),
                ({
                    let m1 = match_one(book@, b, sells@.subrange(si as int, ns as int), fee_rate);
                    &&& m1.orders == m1_target.orders
                    &&& full.orders == restb.orders
                    &&& full.fills == fills@ + m1.fills + restb.fills
                    &&& full.volume == volume + m1.volume + restb.volume
                    &&& full.fees == fees + m1.fees + restb.fees
                }),
                stop ==> match_one(book@, b, sells@.subrange(si as int, ns as int), fee_rate) == (
                PassState { orders: book@, fills: Seq::<Fill>::empty(), volume: 0, fees: 0 }),
            decreases ns - si, (if stop { 0int } else { 1int }),
        {
            let ghost sub = sells@.subrange(si as int, ns as int);
            proof {
                assert(sub[0] == sells@[si as int]);
                assert(sub.drop_first() =~= sells@.subrange(si as int + 1, ns as int));
            }
            let ob = book[b];
            let sl = sells[si];
            let osl = book[sl];
            if ob.fulfilled >= ob.amount || ob.price < osl.price {
                stop = true;
            } else {
                let rem_b = ob.amount - ob.fulfilled;
                let rem_s = osl.amount - osl.fulfilled;
                let t = if rem_b <= rem_s {
                    rem_b
                } else {
                    rem_s
                };
                if t == 0 {
                    si = si + 1;
                } else {
                    let ghost book_pre = book@;
                    let ghost m1_pre = match_one(book_pre, b, sub, fee_rate);
                    let price_wide: u128 = ((ob.price as u128) + (osl.price as u128)) / 2;
                    let fill = Fill {
                        buy_order_id: ob.id,
                        sell_order_id: osl.id,
                        amount: t,
                        price: price_wide as u64,
                    };
                    assert((t as int) * (fee_rate as int) <= (u64::MAX as int) * (u64::MAX as int))
                        by (nonlinear_arith)
                        requires
                            0 <= t as int <= u64::MAX as int,
                            0 <= fee_rate as int <= u64::MAX as int,
                    ;
                    let fee_wide: u128 = (t as u128) * (fee_rate as u128) / (BPS_DENOM as u128);
                    let ghost s2 = book_pre.update(
                        b as int,
                        fill_order(book_pre[b as int], t as int),
                    ).update(sl as int, fill_order(book_pre[sl as int], t as int));
                    let ghost m1_next = match_one(
                        s2,
                        b,
                        sells@.subrange(si as int + 1, ns as int),
                        fee_rate,
                    );
                    proof {
                        assert(m1_pre.orders == m1_next.orders);
                        assert(m1_pre.fills =~= seq![fill] + m1_next.fills);
                        assert(m1_pre.volume == t + m1_next.volume);
                        assert(m1_pre.fees == match_fee(t as int, fee_rate) + m1_next.fees);
                        assert(only_fills_added(book_pre, s2));
                        assert(fills_bounded(s2));
                        lemma_match_one_shape(
                            s2,
                            b,
                            sells@.subrange(si as int + 1, ns as int),
                            fee_rate,
                        );
                        assert forall|j: int|
                            0 <= j < buys@.subrange(bi as int + 1, nb as int).len() implies (
                        #[trigger] buys@.subrange(bi as int + 1, nb as int)[j] as int)
                            < m1_target.orders.len() by {
                            assert(buys@.subrange(bi as int + 1, nb as int)[j] == buys@[bi + 1
                                + j]);
                        }
                        lemma_match_one_shape(book_pre, b, sub, fee_rate);
                        lemma_match_pass_shape(
                            m1_target.orders,
                            buys@.subrange(bi as int + 1, nb as int),
                            sells@,
                            fee_rate,
                        );
                        lemma_only_fills_added_trans(s0, book_pre, s2);
                    }
                    let new_volume = match volume.checked_add(t as u128) {
                        Some(v) => v,
                        None => {
                            return Err(ErrorCode::MathOverflow);
                        },
                    };
                    let new_fees = match fees.checked_add(fee_wide) {
                        Some(v) => v,
                        None => {
                            return Err(ErrorCode::MathOverflow);
                        },
                    };
                    book[b] = Order { fulfilled: ob.fulfilled + t, ..ob };
                    book[sl] = Order { fulfilled: osl.fulfilled + t, ..osl };
                    let ghost fills_before = fills@;
                    fills.push(fill);
                    volume = new_volume;
                    fees = new_fees;
                    proof {
                        assert(book@ =~= s2);
                        assert(full.fills == fills@ + m1_next.fills + restb.fills) by {
                            assert(fills_before.push(fill) + m1_next.fills =~= fills_before + (
                            seq![fill] + m1_next.fills));
                        }
                    }
                    si = si + 1;
                }
            }
        }
        proof {
            let m1 = match_one(book@, b, sells@.subrange(si as int, ns as int), fee_rate);
            if !stop {
                assert(sells@.subrange(si as int, ns as int) =~= Seq::<usize>::empty());
            }
            assert(m1.orders == book@);
            assert(m1.fills =~= Seq::<Fill>::empty());
            assert(fills@ + m1.fills =~= fills@);
            assert(book@ == m1_target.orders);
            assert(full.fills == fills@ + restb.fills);
        }
        bi = bi + 1;
    }
    proof {
        assert(fills@ + Seq::<Fill>::empty() =~= fills@);
    }
    assert(buys@.subrange(bi as int, nb as int) =~= Seq::<usize>::empty());
    assert(book@ == full.orders);
    assert(fills@ == full.fills);
    Ok((fills, volume, fees))
}

/// Run one batch crossing pass over the book at time `now`. Fails with
/// `InvalidOrderAmount` only when the book is empty; a non-empty book with
/// nothing to cross is a no-op that reports zero volume. On success the
/// executed trades are returned for the host to settle, fully filled orders
/// are pruned, the fees are credited to the x reserve, and the matched
/// volume and fees join the 24-hour counters after a lazy window reset.
#[verifier::loop_isolation(false)]
#[verifier::rlimit(100)]
pub fn match_orders(pool: &mut LiquidityPool, now: i64) -> (r: Result<
    (Vec<Fill>, OrdersMatched),
    ErrorCode,
>)
    requires
        old(pool).wf(),
        now >= 0,
    ensures
        final(pool).wf(),
        match r {
            Ok((fills, ev)) => {
                &&& old(pool).orders@.len() > 0
                &&& ({
                    let ps = book_pass(old(pool).orders@, old(pool).fee_rate);
                    let base_vol = rolled_counter(
                        old(pool).volume_24h,
                        old(pool).last_volume_reset,
                        now,
                    );
                    let base_fees = rolled_counter(
                        old(pool).fees_24h,
                        old(pool).last_volume_reset,
                        now,
                    );
                    &&& fills@ == ps.fills
                    &&& 0 <= ps.volume <= u64::MAX
                    &&& 0 <= ps.fees <= u64::MAX
                    &&& old(pool).token_x_reserve + ps.fees <= u64::MAX
                    &&& base_vol + ps.volume <= u64::MAX
                    &&& base_fees + ps.fees <= u64::MAX
                    &&& final(pool).orders@ == prune_filled(ps.orders, ps.orders.len() as int)
                    &&& *final(pool) == (LiquidityPool {
                        orders: final(pool).orders,
                        token_x_reserve: (old(pool).token_x_reserve + ps.fees) as u64,
                        volume_24h: (base_vol + ps.volume) as u64,
                        fees_24h: (base_fees + ps.fees) as u64,
                        last_volume_reset: if now - old(pool).last_volume_reset >= SECONDS_PER_DAY
                            as int {
                            now
                        } else {
                            old(pool).last_volume_reset
                        },
                        ..*old(pool)
                    })
                    &&& ev == (OrdersMatched {
                        total_volume: ps.volume as u64,
                        total_fees: ps.fees as u64,
                        timestamp: now,
                    })
                })
            },
            Err(e) => {
                &&& *final(pool) == *old(pool)
                &&& if old(pool).orders@.len() == 0 {
                    e == ErrorCode::InvalidOrderAmount
                } else {
                    let ps = book_pass(old(pool).orders@, old(pool).fee_rate);
                    let base_vol = rolled_counter(
                        old(pool).volume_24h,
                        old(pool).last_volume_reset,
                        now,
                    );
                    let base_fees = rolled_counter(
                        old(pool).fees_24h,
                        old(pool).last_volume_reset,
                        now,
                    );
                    e == ErrorCode::MathOverflow && (ps.volume > u64::MAX || ps.fees > u64::MAX
                        || old(pool).token_x_reserve + ps.fees > u64::MAX || base_vol + ps.volume
                        > u64::MAX || base_fees + ps.fees > u64::MAX)
                }
            },
        },
{
    if pool.orders.len() == 0 {
        return Err(ErrorCode::InvalidOrderAmount);
    }
    let ghost s0 = pool.orders@;
    let fee_rate = pool.fee_rate;
    let active_buys = collect_active(&pool.orders, Side::Buy);
    let buys = sort_side(&pool.orders, &active_buys, Side::Buy);
    let active_sells = collect_active(&pool.orders, Side::Sell);
    let sells = sort_side(&pool.orders, &active_sells, Side::Sell);
    assert(buys@ == priority_queue(s0, Side::Buy));
    assert(sells@ == priority_queue(s0, Side::Sell));

    // Work on a copy of the book; the pool is only touched at the commit.
    let mut book: Vec<Order> = Vec::new();
    let n = pool.orders.len();
    let mut ci: usize = 0;
    while ci < n
        invariant
            0 <= ci <= n,
            book@ == s0.subrange(0, ci as int),
        decreases n - ci,
    {
        book.push(pool.orders[ci]);
        ci = ci + 1;
    }
    assert(book@ =~= s0);

    let (fills, volume, fees) = match run_pass(&mut book, &buys, &sells, fee_rate) {
        Ok(t) => t,
        Err(e) => {
            return Err(e);
        },
    };
    let ghost full = match_pass(s0, buys@, sells@, fee_rate);
    if volume > u64::MAX as u128 {
        return Err(ErrorCode::MathOverflow);
    }
    if fees > u64::MAX as u128 {
        return Err(ErrorCode::MathOverflow);
    }
    let vol64 = volume as u64;
    let fees64 = fees as u64;
    let new_rx = match pool.token_x_reserve.checked_add(fees64) {
        Some(v) => v,
        None => {
            return Err(ErrorCode::MathOverflow);
        },
    };
    let window_lapsed = now - pool.last_volume_reset >= SECONDS_PER_DAY;
    let base_vol: u64 = if window_lapsed {
        0
    } else {
        pool.volume_24h
    };
    let base_fees: u64 = if window_lapsed {
        0
    } else {
        pool.fees_24h
    };
    let new_vol24 = match base_vol.checked_add(vol64) {
        Some(v) => v,
        None => {
            return Err(ErrorCode::MathOverflow);
        },
    };
    let new_fees24 = match base_fees.checked_add(fees64) {
        Some(v) => v,
        None => {
            return Err(ErrorCode::MathOverflow);
        },
    };
    let mut pruned: Vec<Order> = Vec::new();
    let np = book.len();
    let mut pi: usize = 0;
    while pi < np
        invariant
            0 <= pi <= np,
            pruned@ == prune_filled(book@, pi as int),
        decreases np - pi,
    {
        let o = book[pi];
        if o.fulfilled < o.amount {
            pruned.push(o);
        }
        pi = pi + 1;
    }
    proof {
        lemma_prune_wf(book@, book@.len() as int, pool.order_seq);
    }
    pool.orders = pruned;
    pool.token_x_reserve = new_rx;
    pool.volume_24h = new_vol24;
    pool.fees_24h = new_fees24;
    if window_lapsed {
        pool.last_volume_reset = now;
    }
    Ok((fills, OrdersMatched { total_volume: vol64, total_fees: fees64, timestamp: now }))
}

} // verus!
