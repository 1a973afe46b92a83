//! Exchange engine of a ledger-based trading platform: constant-product
//! liquidity pools, a price-time priority limit order book, and the fixed
//! protocol fee schedule that both of them charge through.
//!
//! - `fee_engine`: the fee schedule per transaction type and the split of
//!   collected fees between founder and treasury.
//! - `math`: integer square root and constant-product swap pricing.
//! - `pair`: token-pair keys and their separator.
//! - `dex`: the exchange state, its records and its invariant.
//! - `pools`: pool creation and liquidity deposits.
//! - `trade`: swaps against a pool.
//! - `order_book`: order placement with matching, and cancellation.
//! - `weights`: execution weights of the governance operations.

pub mod fee_engine;
pub mod math;
pub mod pair;
pub mod dex;
pub mod pools;
pub mod trade;
pub mod order_book;
pub mod weights;
