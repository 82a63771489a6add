//! The events an operation emits on success. Each instruction returns its
//! event to the host, which forwards it to the log; emission is
//! fire-and-forget and carries no return value.

use vstd::prelude::*;
use crate::pool::{Pubkey, Side};

verus! {

/// A new pool was created.
#[derive(Clone, Copy, Debug, PartialEq, Eq, Structural)]
pub struct PoolInitialized {
    pub authority: Pubkey,
    pub fee_rate: u64,
}

/// A drained pool was destroyed and its residual balance returned.
#[derive(Clone, Copy, Debug, PartialEq, Eq, Structural)]
pub struct PoolRemovedEvent {
    pub pool: Pubkey,
    pub authority: Pubkey,
    pub timestamp: i64,
}

/// The admin set changed.
#[derive(Clone, Copy, Debug, PartialEq, Eq, Structural)]
pub struct AdminUpdated {
    pub admin: Pubkey,
    pub is_added: bool,
    pub super_admin: Pubkey,
}

/// A deposit minted liquidity shares.
#[derive(Clone, Copy, Debug, PartialEq, Eq, Structural)]
pub struct LiquidityProvided {
    pub user: Pubkey,
    pub token_x_amount: u64,
    pub token_y_amount: u64,
    pub lp_tokens_minted: u64,
}

/// A burn returned reserves to a provider.
#[derive(Clone, Copy, Debug, PartialEq, Eq, Structural)]
pub struct LiquidityRemoved {
    pub user: Pubkey,
    pub token_x_amount: u64,
    pub token_y_amount: u64,
    pub lp_tokens_burned: u64,
}

/// A swap completed.
#[derive(Clone, Copy, Debug, PartialEq, Eq, Structural)]
pub struct TokensSwapped {
    pub input_token: Pubkey,
    pub input_amount: u64,
    pub output_amount: u64,
}

/// Tokens were staked.
#[derive(Clone, Copy, Debug, PartialEq, Eq, Structural)]
pub struct TokensStaked {
    pub user: Pubkey,
    pub amount: u64,
    pub timestamp: i64,
}

/// Staked tokens were withdrawn together with their accrued reward.
#[derive(Clone, Copy, Debug, PartialEq, Eq, Structural)]
pub struct TokensUnstaked {
    pub user: Pubkey,
    pub amount: u64,
    pub rewards: u64,
    pub timestamp: i64,
}

/// Pending staking rewards were paid out, leaving the principal staked.
#[derive(Clone, Copy, Debug, PartialEq, Eq, Structural)]
pub struct RewardsClaimed {
    pub user: Pubkey,
    pub amount: u64,
    pub timestamp: i64,
}

/// An order was added to the book.
#[derive(Clone, Copy, Debug, PartialEq, Eq, Structural)]
pub struct OrderPlaced {
    pub order_id: u64,
    pub owner: Pubkey,
    pub side: Side,
    pub amount: u64,
    pub price: u64,
}

/// An order was cancelled and its unfilled remainder refunded.
#[derive(Clone, Copy, Debug, PartialEq, Eq, Structural)]
pub struct OrderCancelled {
    pub order_id: u64,
    pub owner: Pubkey,
    pub refund: u64,
}

/// A matching pass completed.
#[derive(Clone, Copy, Debug, PartialEq, Eq, Structural)]
pub struct OrdersMatched {
    pub total_volume: u64,
    pub total_fees: u64,
    pub timestamp: i64,
}

} // verus!
