//! Streaming window indicators and a margin-account ledger over fixed-point prices.

pub mod errors;
pub mod indicators;
pub mod market_preset;
pub mod qaaccount;
pub mod qafetch;
pub mod qaorder;
pub mod qaposition;
pub mod text;
pub mod traits;
pub mod transaction;

pub use traits::{Close, High, Low};
