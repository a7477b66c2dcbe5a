//! The record of a settled order, as a trade log keeps it.

use vstd::prelude::*;
use crate::qaorder::Direction;

verus! {

/// A filled order together with the account's cash and realized profit
/// right after the fill.
#[derive(Debug, Clone, PartialEq, Eq)]
pub struct QATransaction {
    pub code: String,
    pub datetime: String,
    pub direction: Direction,
    pub price: i64,
    pub amount: i64,
    /// The cash of the account after the fill.
    pub cash: i64,
    /// The realized profit of the account after the fill.
    pub money: i64,
}

} // verus!
