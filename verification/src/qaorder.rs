//! The order that a strategy hands to an account.

use vstd::prelude::*;

verus! {

/// What an order does, and to which side of the position.
#[derive(Debug, Clone, Copy, PartialEq, Eq, Structural)]
pub enum Direction {
    /// Enter or increase the long side.
    BuyOpen,
    /// Enter or increase the short side.
    SellOpen,
    /// Reduce the short side.
    BuyClose,
    /// Reduce the long side.
    SellClose,
}

impl Direction {
    /// Whether the order opens a position; otherwise it closes one.
    pub open spec fn opens(self) -> bool {
        self == Direction::BuyOpen || self == Direction::SellOpen
    }

    /// Whether the order works on the long side of the position: a buy
    /// opens the long side and a sell closes it.
    pub open spec fn on_long(self) -> bool {
        self == Direction::BuyOpen || self == Direction::SellClose
    }
}

/// An order as it is created: it is settled in full or rejected in one call
/// and leaves nothing pending.
#[derive(Debug, Clone, PartialEq, Eq)]
pub struct QAOrder {
    /// The instrument code.
    pub code: String,
    /// The time stamp of the bar that the order belongs to.
    pub datetime: String,
    pub direction: Direction,
    /// The number of lots; an order for no lots or fewer is rejected.
    pub amount: i64,
    /// The price at which the order settles.
    pub price: i64,
}

} // verus!
