//! The error taxonomy of the pool engine. Every operation either succeeds
//! fully or aborts with one of these; no partial effects are committed.

use vstd::prelude::*;

verus! {

/// Named failure of a pool instruction. Each operation's contract says
/// exactly on which inputs each variant is returned.
#[derive(Clone, Copy, Debug, PartialEq, Eq, Structural)]
pub enum ErrorCode {
    /// Caller is not the authority, super admin, or order owner it must be.
    Unauthorized,
    /// The address to add is already in the admin set.
    AdminAlreadyExists,
    /// The address to remove is not in the admin set.
    AdminDoesntExist,
    /// The admin set already holds the maximum of three entries.
    MaxAdminLimitReached,
    /// A token mint does not belong to this pool.
    InvalidToken,
    /// Input and output token of a swap are the same.
    InvalidTokenPair,
    /// A checked arithmetic step exceeded its width.
    MathOverflow,
    /// A liquidity amount is zero or otherwise degenerate.
    InvalidLiquidityAmount,
    /// A swap amount is zero or the pool has no reserves to quote against.
    InvalidSwapInput,
    /// The swap output fell below the caller's minimum.
    ExcessiveSlippage,
    /// A balance is too small for the requested transfer.
    InsufficientFunds,
    /// The pool fee rate is outside its bound.
    InvalidFeeRate,
    /// A deposit does not match the current reserve ratio.
    InvalidTokenRatio,
    /// A stake amount is zero.
    InvalidStakeAmount,
    /// More was unstaked than is staked.
    InsufficientStake,
    /// More shares were burned than the position holds.
    InsufficientShares,
    /// A share amount is zero or otherwise degenerate.
    InvalidLPTokenAmount,
    /// The caller holds no liquidity position in this pool.
    NoLiquidity,
    /// There is no pending reward to claim.
    NoRewardsAvailable,
    /// The pool still holds reserves or outstanding shares.
    PoolNotEmpty,
    /// An order amount or price is zero, or the order book is empty.
    InvalidOrderAmount,
    /// No resting order has the given id.
    OrderNotFound,
}

} // verus!
