//! The price bar that a data source hands to the indicators.

use vstd::prelude::*;
use crate::traits::{Close, High, Low};

verus! {

/// One bar of one instrument: its prices and its volume over one time step,
/// in fixed-point units.
#[derive(Debug, Clone, PartialEq, Eq)]
pub struct BAR {
    /// The instrument code.
    pub code: String,
    /// The time stamp, in a form that sorts lexically.
    pub datetime: String,
    pub open: i64,
    pub high: i64,
    pub low: i64,
    pub close: i64,
    pub volume: i64,
}

impl High for BAR {
    open spec fn high_spec(&self) -> i64 {
        self.high
    }

    fn high(&self) -> (h: i64) {
        self.high
    }
}

impl Low for BAR {
    open spec fn low_spec(&self) -> i64 {
        self.low
    }

    fn low(&self) -> (l: i64) {
        self.low
    }
}

impl Close for BAR {
    open spec fn close_spec(&self) -> i64 {
        self.close
    }

    fn close(&self) -> (c: i64) {
        self.close
    }
}

} // verus!
