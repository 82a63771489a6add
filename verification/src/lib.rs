//! An exchange-pool engine: pair-wise token reserves with proportional
//! liquidity shares, constant-product swaps, a price-priority limit order
//! book, time-weighted staking rewards, and a bounded admin registry.
//!
//! Every operation is a pure function from the loaded pool state and plain
//! inputs to a new state plus an emitted event, using integer-only checked
//! arithmetic. The host is expected to load entities before an instruction,
//! commit them atomically on success, and discard all changes on error.

use vstd::prelude::*;

pub mod admin;
pub mod book;
pub mod errors;
pub mod events;
pub mod liquidity;
pub mod matching;
pub mod math;
pub mod pool;
pub mod staking;
pub mod swap;

verus! {

/// Basis-point denominator: rates are integers out of 10000.
pub const BPS_DENOM: u64 = 10000;

/// Highest fee rate a pool may be configured with (50% in basis points).
pub const MAX_FEE_RATE: u64 = 5000;

/// Swap fee taken on every trade (0.25% in basis points).
pub const TOTAL_FEE_RATE: u64 = 25;

} // verus!
