//! The contract terms of an instrument that the ledger needs to settle an
//! order: how much margin a position ties up and how a price move turns into
//! money.

use vstd::prelude::*;
use crate::errors::ErrorKind;

verus! {

/// The denominator of a margin rate: rates are given in basis points.
pub const RATE_SCALE: u32 = 10_000;

/// The terms of one instrument.
#[derive(Debug, Clone, Copy, PartialEq, Eq, Structural)]
pub struct Preset {
    /// The fraction of an order's notional value that is reserved as margin,
    /// in basis points: 10_000 reserves the full value.
    pub margin_rate: u32,
    /// The contract multiplier: the money that one lot gains when the price
    /// moves by one unit. At least 1.
    pub multiplier: u32,
}

impl Preset {
    /// The margin rate is at most 100% and the multiplier is positive.
    pub open spec fn wf(self) -> bool {
        self.margin_rate <= RATE_SCALE && self.multiplier >= 1
    }

    /// The terms of an instrument that no table lists: full margin and a
    /// multiplier of 1.
    pub open spec fn plain() -> Preset {
        Preset { margin_rate: RATE_SCALE, multiplier: 1 }
    }

    /// Checks the terms of an instrument.
    ///
    /// Fails with `InvalidParameter` exactly when the margin rate exceeds
    /// 10_000 basis points or the multiplier is 0.
    pub fn new(margin_rate: u32, multiplier: u32) -> (r: Result<Preset, ErrorKind>)
        ensures
            r == (if margin_rate <= RATE_SCALE && multiplier >= 1 {
                Ok::<Preset, ErrorKind>(Preset { margin_rate, multiplier })
            } else {
                Err::<Preset, ErrorKind>(ErrorKind::InvalidParameter)
            }),
    {
        if margin_rate <= RATE_SCALE && multiplier >= 1 {
            Ok(Preset { margin_rate, multiplier })
        } else {
            Err(ErrorKind::InvalidParameter)
        }
    }

    /// Whether the terms are well formed.
    pub fn is_valid(&self) -> (b: bool)
        ensures
            b == self.wf(),
    {
        self.margin_rate <= RATE_SCALE && self.multiplier >= 1
    }
}

impl Default for Preset {
    /// Full margin and a multiplier of 1.
    fn default() -> (p: Preset)
        ensures
            p == Preset::plain(),
    {
        Preset { margin_rate: RATE_SCALE, multiplier: 1 }
    }
}

} // verus!
