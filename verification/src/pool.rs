//! The durable entities of the exchange: the pool record itself, liquidity
//! positions, per-user stakes, and resting limit orders, together with the
//! well-formedness invariants that every operation preserves.

use vstd::prelude::*;
use crate::{BPS_DENOM, MAX_FEE_RATE};

verus! {

/// Largest number of entries the admin set may hold.
pub const MAX_ADMINS: usize = 3;

/// An account address. The engine only ever compares keys for equality;
/// derivation and signature checking belong to the host.
#[derive(Clone, Copy, Debug, PartialEq, Eq, Structural)]
pub struct Pubkey {
    pub id: u64,
}

/// Which side of the book an order rests on.
#[derive(Clone, Copy, Debug, PartialEq, Eq, Structural)]
pub enum Side {
    Buy,
    Sell,
}

/// A resting limit order. `fulfilled` only grows, and never past `amount`.
#[derive(Clone, Copy, Debug, PartialEq, Eq, Structural)]
pub struct Order {
    pub id: u64,
    pub owner: Pubkey,
    pub side: Side,
    pub amount: u64,
    pub price: u64,
    pub fulfilled: u64,
}

/// A liquidity position: the share balance of one provider in one pool.
#[derive(Clone, Copy, Debug, PartialEq, Eq, Structural)]
pub struct LpTokenBalance {
    pub owner: Pubkey,
    pub amount: u64,
    pub last_reward_claim: i64,
}

/// The staking record of one user in one pool. Created lazily on first
/// stake and zeroed, not deleted, on full withdrawal.
#[derive(Clone, Copy, Debug, PartialEq, Eq, Structural)]
pub struct UserState {
    pub pool: Pubkey,
    pub owner: Pubkey,
    pub amount_staked: u64,
    pub last_stake_timestamp: i64,
    pub rewards_earned: u64,
}

/// The per-token-pair ledger record: reserves, share supply, fee and reward
/// parameters, the admin set, liquidity positions, the order book, and the
/// rolling volume counters.
pub struct LiquidityPool {
    pub authority: Pubkey,
    pub super_admin: Pubkey,
    pub admins: Vec<Pubkey>,
    pub token_x_reserve: u64,
    pub token_y_reserve: u64,
    pub lp_token_supply: u64,
    pub token_x_mint: Pubkey,
    pub token_y_mint: Pubkey,
    pub lp_tokens: Vec<LpTokenBalance>,
    pub fee_rate: u64,
    pub reward_rate: u64,
    pub total_staked: u64,
    /// Deposit policy: when true, a deposit into a funded pool must match
    /// the reserve ratio exactly; when false, mismatched deposits are only
    /// penalized through the minimum-ratio share formula.
    pub strict_deposit_ratio: bool,
    pub orders: Vec<Order>,
    /// Monotonic id generator for orders; every resting id is below it.
    pub order_seq: u64,
    pub volume_24h: u64,
    pub fees_24h: u64,
    pub last_volume_reset: i64,
    /// Aggregate staker share of swap fees; not individually distributed.
    pub staking_rewards_accrued: u64,
}

/// Liquidity positions are well formed: owners are distinct, balances are
/// never zero (a drained position is removed), and checkpoints are not
/// before the epoch.
pub open spec fn lp_positions_wf(s: Seq<LpTokenBalance>) -> bool {
    &&& forall|i: int, j: int| 0 <= i < j < s.len() ==> s[i].owner != s[j].owner
    &&& forall|i: int| 0 <= i < s.len() ==> s[i].amount > 0 && s[i].last_reward_claim >= 0
}

/// Total shares held across all positions.
pub open spec fn sum_shares(s: Seq<LpTokenBalance>) -> int
    decreases s.len(),
{
    if s.len() == 0 {
        0
    } else {
        s[0].amount + sum_shares(s.drop_first())
    }
}

/// The order book is well formed: sizes and prices are positive, fills never
/// exceed sizes, ids come from the generator and appear in strictly
/// increasing placement order (so every id is unique).
pub open spec fn orders_wf(s: Seq<Order>, order_seq: u64) -> bool {
    &&& forall|i: int|
        0 <= i < s.len() ==> (#[trigger] s[i]).fulfilled <= s[i].amount && s[i].id < order_seq
            && s[i].amount > 0 && s[i].price > 0
    &&& forall|i: int, j: int| 0 <= i < j < s.len() ==> s[i].id < s[j].id
}

impl UserState {
    /// A stake record is well formed when its checkpoint is not before the
    /// epoch, so elapsed durations can be taken without overflow.
    pub open spec fn wf(&self) -> bool {
        self.last_stake_timestamp >= 0
    }

    /// An empty stake record for a user, as the host creates it the first
    /// time the user stakes into the pool.
    pub fn new(pool: Pubkey, owner: Pubkey) -> (r: UserState)
        ensures
            r == (UserState {
                pool,
                owner,
                amount_staked: 0u64,
                last_stake_timestamp: 0i64,
                rewards_earned: 0u64,
            }),
    {
        UserState { pool, owner, amount_staked: 0, last_stake_timestamp: 0, rewards_earned: 0 }
    }
}

impl LiquidityPool {
    /// The pool invariant, established by pool creation and preserved by
    /// every operation: rates are within their bounds, the admin set is
    /// small and duplicate-free, outstanding shares are exactly the shares
    /// held by positions and are backed by some reserve, and the order book
    /// is well formed.
    pub open spec fn wf(&self) -> bool {
        &&& self.fee_rate <= MAX_FEE_RATE
        &&& self.reward_rate <= BPS_DENOM
        &&& self.admins@.len() <= MAX_ADMINS
        &&& forall|i: int, j: int|
            0 <= i < j < self.admins@.len() ==> self.admins@[i] != self.admins@[j]
        &&& self.lp_token_supply > 0 ==> self.token_x_reserve > 0 || self.token_y_reserve > 0
        &&& lp_positions_wf(self.lp_tokens@)
        &&& sum_shares(self.lp_tokens@) == self.lp_token_supply
        &&& orders_wf(self.orders@, self.order_seq)
        &&& self.last_volume_reset >= 0
    }
}

/// Position of the entry owned by `o`, or -1 when no entry is.
pub open spec fn owner_index(s: Seq<LpTokenBalance>, o: Pubkey) -> int
    decreases s.len(),
{
    if s.len() == 0 {
        -1
    } else if s[0].owner == o {
        0
    } else {
        let r = owner_index(s.drop_first(), o);
        if r < 0 {
            -1
        } else {
            r + 1
        }
    }
}

/// `owner_index` finds exactly the first entry of the owner: a nonnegative
/// answer points at it, and -1 means the owner holds no entry.
pub proof fn lemma_owner_index(s: Seq<LpTokenBalance>, o: Pubkey)
    ensures
        owner_index(s, o) >= 0 ==> owner_index(s, o) < s.len() && s[owner_index(s, o)].owner == o
            && (forall|i: int| 0 <= i < owner_index(s, o) ==> s[i].owner != o),
        owner_index(s, o) < 0 ==> (forall|i: int| 0 <= i < s.len() ==> s[i].owner != o),
    decreases s.len(),
{
    if s.len() > 0 && s[0].owner != o {
        lemma_owner_index(s.drop_first(), o);
        assert forall|i: int| 1 <= i < s.len() implies s.drop_first()[i - 1] == s[i] by {}
    }
}

/// Appending a position adds its balance to the total.
pub proof fn lemma_sum_shares_push(s: Seq<LpTokenBalance>, b: LpTokenBalance)
    ensures
        sum_shares(s.push(b)) == sum_shares(s) + b.amount,
    decreases s.len(),
{
    assert(s.push(b).len() == s.len() + 1);
    if s.len() == 0 {
        assert(s.push(b)[0] == b);
        assert(s.push(b).drop_first() =~= Seq::<LpTokenBalance>::empty());
        assert(sum_shares(Seq::<LpTokenBalance>::empty()) == 0);
    } else {
        assert(s.push(b)[0] == s[0]);
        assert(s.push(b).drop_first() =~= s.drop_first().push(b));
        lemma_sum_shares_push(s.drop_first(), b);
    }
}

/// Replacing a position shifts the total by the change in its balance.
pub proof fn lemma_sum_shares_update(s: Seq<LpTokenBalance>, i: int, b: LpTokenBalance)
    requires
        0 <= i < s.len(),
    ensures
        sum_shares(s.update(i, b)) == sum_shares(s) - s[i].amount + b.amount,
    decreases s.len(),
{
    if i == 0 {
        assert(s.update(0, b).drop_first() =~= s.drop_first());
    } else {
        assert(s.update(i, b).drop_first() =~= s.drop_first().update(i - 1, b));
        lemma_sum_shares_update(s.drop_first(), i - 1, b);
    }
}

/// Removing a position subtracts its balance from the total.
pub proof fn lemma_sum_shares_remove(s: Seq<LpTokenBalance>, i: int)
    requires
        0 <= i < s.len(),
    ensures
        sum_shares(s.remove(i)) == sum_shares(s) - s[i].amount,
    decreases s.len(),
{
    if i == 0 {
        assert(s.remove(0) =~= s.drop_first());
    } else {
        assert(s.remove(i).drop_first() =~= s.drop_first().remove(i - 1));
        lemma_sum_shares_remove(s.drop_first(), i - 1);
    }
}

/// No single position holds more than the total.
pub proof fn lemma_sum_shares_bound(s: Seq<LpTokenBalance>, i: int)
    requires
        0 <= i < s.len(),
    ensures
        s[i].amount <= sum_shares(s),
        sum_shares(s) >= 0,
    decreases s.len(),
{
    lemma_sum_shares_nonneg(s.drop_first());
    if i > 0 {
        lemma_sum_shares_bound(s.drop_first(), i - 1);
    }
}

/// Share balances are unsigned, so the total is never negative.
pub proof fn lemma_sum_shares_nonneg(s: Seq<LpTokenBalance>)
    ensures
        sum_shares(s) >= 0,
    decreases s.len(),
{
    if s.len() > 0 {
        lemma_sum_shares_nonneg(s.drop_first());
    }
}

} // verus!
