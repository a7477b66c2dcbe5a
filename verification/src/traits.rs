//! What an indicator reads from a bar.

use vstd::prelude::*;

verus! {

/// A record with a highest price.
pub trait High {
    /// The highest price of the record.
    spec fn high_spec(&self) -> i64;

    /// Reads the highest price.
    fn high(&self) -> (h: i64)
        ensures
            h == self.high_spec(),
    ;
}

/// A record with a lowest price.
pub trait Low {
    /// The lowest price of the record.
    spec fn low_spec(&self) -> i64;

    /// Reads the lowest price.
    fn low(&self) -> (l: i64)
        ensures
            l == self.low_spec(),
    ;
}

/// A record with a closing price.
pub trait Close {
    /// The closing price of the record.
    spec fn close_spec(&self) -> i64;

    /// Reads the closing price.
    fn close(&self) -> (c: i64)
        ensures
            c == self.close_spec(),
    ;
}

} // verus!
