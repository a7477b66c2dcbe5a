//! The position that an account holds in one instrument, and the arithmetic
//! of opening and closing it.
//!
//! Volumes are whole lots, prices and money are fixed-point integers. Where a
//! quotient is not whole it is rounded down.

use vstd::prelude::*;
use crate::market_preset::{Preset, RATE_SCALE};

verus! {

/// Whether `x` can be held in an `i64`.
pub open spec fn fits(x: int) -> bool {
    i64::MIN <= x <= i64::MAX
}

/// Whether an order names a positive amount and a price that is not
/// negative, with a notional value `amount * price` that fits in an `i64`.
pub open spec fn order_valid(amount: int, price: int) -> bool {
    amount > 0 && price >= 0 && amount * price <= i64::MAX
}

/// The margin that opening `amount` lots at `price` reserves:
/// `amount * price * margin_rate`, the rate taken in basis points.
pub open spec fn required_margin(preset: Preset, amount: int, price: int) -> int {
    amount * price * preset.margin_rate / (RATE_SCALE as int)
}

/// The profit that closing `amount` lots realizes: the price move in favour
/// of the side, times the amount, times the contract multiplier. The long
/// side gains when `price` is above `open_price`, the short side when it is
/// below.
pub open spec fn realized(preset: Preset, long: bool, open_price: int, price: int, amount: int) -> int {
    if long {
        (price - open_price) * amount * preset.multiplier
    } else {
        (open_price - price) * amount * preset.multiplier
    }
}

/// One side of a position: the long holding or the short holding.
#[derive(Debug, Clone, Copy, PartialEq, Eq, Structural)]
pub struct Leg {
    /// The lots held.
    pub volume: i64,
    /// The volume-weighted average price of the fills that built the
    /// holding; 0 while nothing is held.
    pub open_price: i64,
    /// The margin that the holding ties up; 0 while nothing is held.
    pub margin: i64,
}

impl Leg {
    /// Nothing is negative, and an empty side has neither price nor margin.
    pub open spec fn wf(self) -> bool {
        &&& self.volume >= 0
        &&& self.open_price >= 0
        &&& self.margin >= 0
        &&& self.volume == 0 ==> self.open_price == 0 && self.margin == 0
    }

    /// The side that holds nothing.
    pub open spec fn flat() -> Leg {
        Leg { volume: 0, open_price: 0, margin: 0 }
    }

    /// The average price after a fill of `amount` lots at `price` joins the
    /// holding.
    pub open spec fn blended_price(self, amount: int, price: int) -> int {
        (self.volume * self.open_price + amount * price) / (self.volume + amount)
    }

    /// The side after `amount` lots at `price`, backed by `margin`, are added.
    pub open spec fn opened(self, amount: int, price: int, margin: int) -> Leg {
        Leg {
            volume: (self.volume + amount) as i64,
            open_price: self.blended_price(amount, price) as i64,
            margin: (self.margin + margin) as i64,
        }
    }

    /// The share of the side's margin that `amount` lots account for.
    pub open spec fn released(self, amount: int) -> int {
        self.margin * amount / (self.volume as int)
    }

    /// The side after `amount` lots are taken away. The average price stays
    /// while anything is held, and is cleared with the last lot.
    pub open spec fn closed(self, amount: int) -> Leg {
        if amount == self.volume {
            Leg::flat()
        } else {
            Leg {
                volume: (self.volume - amount) as i64,
                open_price: self.open_price,
                margin: (self.margin - self.released(amount)) as i64,
            }
        }
    }

    /// Adding a valid fill to a well-formed side keeps the average price
    /// between 0 and the larger of the old average and the fill's price.
    pub proof fn lemma_blended_price(self, amount: int, price: int)
        requires
            self.wf(),
            amount > 0,
            price >= 0,
        ensures
            0 <= self.blended_price(amount, price),
            self.blended_price(amount, price) <= if self.open_price >= price {
                self.open_price as int
            } else {
                price
            },
            self.volume == 0 ==> self.blended_price(amount, price) == price,
    {
        let v = self.volume as int;
        let a = self.open_price as int;
        let top = if a >= price { a } else { price };
        let num = v * a + amount * price;
        let den = v + amount;
        assert(0 <= num <= top * den) by (nonlinear_arith)
            requires
                num == v * a + amount * price,
                den == v + amount,
                v >= 0,
                amount > 0,
                0 <= a <= top,
                0 <= price <= top,
        ;
        assert(0 <= num / den <= top) by (nonlinear_arith)
            requires
                0 <= num <= top * den,
                den > 0,
        ;
        if v == 0 {
            assert(a == 0);
            assert(num == amount * price) by (nonlinear_arith)
                requires
                    num == v * a + amount * price,
                    v == 0,
            ;
            assert((amount * price) / amount == price) by (nonlinear_arith)
                requires
                    amount > 0,
            ;
        }
    }

    /// The margin released by a partial close is between 0 and the side's
    /// margin, and closing the whole volume releases all of it.
    pub proof fn lemma_released(self, amount: int)
        requires
            self.wf(),
            0 < amount <= self.volume,
        ensures
            0 <= self.released(amount) <= self.margin,
            amount == self.volume ==> self.released(amount) == self.margin,
    {
        let m = self.margin as int;
        let v = self.volume as int;
        assert(0 <= m * amount <= m * v) by (nonlinear_arith)
            requires
                m >= 0,
                0 < amount <= v,
        ;
        assert(0 <= (m * amount) / v <= m) by (nonlinear_arith)
            requires
                0 <= m * amount <= m * v,
                v > 0,
        ;
        if amount == v {
            assert((m * v) / v == m) by (nonlinear_arith)
                requires
                    v > 0,
            ;
        }
    }

    /// Adds a fill of `amount` lots at `price`, backed by `margin`, to the
    /// side.
    ///
    /// Returns `None` exactly when the order is not valid, the margin is
    /// negative, or the volume or the margin of the side would no longer fit
    /// in an `i64`.
    pub fn open(&self, amount: i64, price: i64, margin: i64) -> (r: Option<Leg>)
        requires
            self.wf(),
        ensures
            r == (if order_valid(amount as int, price as int) && margin >= 0 && self.volume + amount
                <= i64::MAX && self.margin + margin <= i64::MAX {
                Some(self.opened(amount as int, price as int, margin as int))
            } else {
                None::<Leg>
            }),
            r matches Some(leg) ==> leg.wf() && leg.volume > 0,
    {
        if amount <= 0 || price < 0 || margin < 0 {
            return None;
        }
        proof {
            self.lemma_blended_price(amount as int, price as int);
            assert(0 <= self.volume * self.open_price <= 0x7fff_ffff_ffff_ffff
                * 0x7fff_ffff_ffff_ffff) by (nonlinear_arith)
                requires
                    0 <= self.volume <= 0x7fff_ffff_ffff_ffff,
                    0 <= self.open_price <= 0x7fff_ffff_ffff_ffff,
            ;
            assert(0 <= amount * price <= 0x7fff_ffff_ffff_ffff * 0x7fff_ffff_ffff_ffff)
                by (nonlinear_arith)
                requires
                    0 <= amount <= 0x7fff_ffff_ffff_ffff,
                    0 <= price <= 0x7fff_ffff_ffff_ffff,
            ;
        }
        let added: i128 = (amount as i128) * (price as i128);
        if added > i64::MAX as i128 || amount > i64::MAX - self.volume || margin > i64::MAX
            - self.margin {
            return None;
        }
        let volume = self.volume + amount;
        let held: i128 = (self.volume as i128) * (self.open_price as i128);
        let open_price = (held + added) / (volume as i128);
        Some(Leg { volume, open_price: open_price as i64, margin: self.margin + margin })
    }

    /// Takes `amount` lots away from the side and returns the side that is
    /// left together with the margin that the lots set free.
    ///
    /// Returns `None` exactly when `amount` is not positive or exceeds the
    /// volume of the side.
    pub fn close(&self, amount: i64) -> (r: Option<(Leg, i64)>)
        requires
            self.wf(),
        ensures
            r == (if 0 < amount <= self.volume {
                Some((self.closed(amount as int), self.released(amount as int) as i64))
            } else {
                None::<(Leg, i64)>
            }),
            r matches Some(left) ==> left.0.wf() && 0 <= left.1 == self.released(amount as int)
                && left.0.margin + left.1 == self.margin,
    {
        if amount <= 0 || amount > self.volume {
            return None;
        }
        proof {
            self.lemma_released(amount as int);
            assert(0 <= self.margin * amount <= 0x7fff_ffff_ffff_ffff * 0x7fff_ffff_ffff_ffff)
                by (nonlinear_arith)
                requires
                    0 <= self.margin <= 0x7fff_ffff_ffff_ffff,
                    0 <= amount <= 0x7fff_ffff_ffff_ffff,
            ;
        }
        let released = ((self.margin as i128) * (amount as i128) / (self.volume as i128)) as i64;
        if amount == self.volume {
            Some((Leg { volume: 0, open_price: 0, margin: 0 }, released))
        } else {
            Some(
                (
                    Leg {
                        volume: self.volume - amount,
                        open_price: self.open_price,
                        margin: self.margin - released,
                    },
                    released,
                ),
            )
        }
    }
}

/// Computes the margin that an order reserves.
///
/// Returns `None` exactly when the order is not valid: the amount is not
/// positive, the price is negative, or the notional value does not fit in an
/// `i64`.
pub fn margin_for(preset: &Preset, amount: i64, price: i64) -> (r: Option<i64>)
    requires
        preset.wf(),
    ensures
        r == (if order_valid(amount as int, price as int) {
            Some(required_margin(*preset, amount as int, price as int) as i64)
        } else {
            None::<i64>
        }),
        r matches Some(m) ==> 0 <= m == required_margin(*preset, amount as int, price as int)
            && m <= amount * price,
{
    if amount <= 0 || price < 0 {
        return None;
    }
    proof {
        assert(0 <= amount * price <= 0x7fff_ffff_ffff_ffff * 0x7fff_ffff_ffff_ffff)
            by (nonlinear_arith)
            requires
                0 <= amount <= 0x7fff_ffff_ffff_ffff,
                0 <= price <= 0x7fff_ffff_ffff_ffff,
        ;
    }
    let notional: i128 = (amount as i128) * (price as i128);
    if notional > i64::MAX as i128 {
        return None;
    }
    proof {
        let n = notional as int;
        let rate = preset.margin_rate as int;
        assert(0 <= n * rate <= n * 10_000) by (nonlinear_arith)
            requires
                0 <= n,
                0 <= rate <= 10_000,
        ;
        assert(0 <= (n * rate) / 10_000 <= n) by (nonlinear_arith)
            requires
                0 <= n * rate <= n * 10_000,
        ;
    }
    let margin = notional * (preset.margin_rate as i128) / (RATE_SCALE as i128);
    Some(margin as i64)
}

/// Computes the profit that closing `amount` lots at `price` realizes on a
/// side that was opened at `open_price`.
///
/// Returns `None` exactly when the profit does not fit in an `i64`.
pub fn profit_for(preset: &Preset, long: bool, open_price: i64, price: i64, amount: i64) -> (r:
    Option<i64>)
    requires
        preset.wf(),
    ensures
        r == (if fits(realized(*preset, long, open_price as int, price as int, amount as int)) {
            Some(realized(*preset, long, open_price as int, price as int, amount as int) as i64)
        } else {
            None::<i64>
        }),
{
    let diff: i128 = if long {
        price as i128 - open_price as i128
    } else {
        open_price as i128 - price as i128
    };
    let ghost d = diff as int;
    let ghost a = amount as int;
    let ghost k = preset.multiplier as int;
    proof {
        assert(-0xffff_ffff_ffff_ffff * 0x8000_0000_0000_0000 <= d * a <= 0xffff_ffff_ffff_ffff
            * 0x8000_0000_0000_0000) by (nonlinear_arith)
            requires
                -0xffff_ffff_ffff_ffff <= d <= 0xffff_ffff_ffff_ffff,
                -0x8000_0000_0000_0000 <= a <= 0x8000_0000_0000_0000,
        ;
    }
    let moved: i128 = diff * (amount as i128);
    if moved > i64::MAX as i128 || moved < i64::MIN as i128 {
        proof {
            assert(d * a * k >= d * a || d * a < 0) by (nonlinear_arith)
                requires
                    k >= 1,
            ;
            assert(d * a * k <= d * a || d * a > 0) by (nonlinear_arith)
                requires
                    k >= 1,
            ;
        }
        return None;
    }
    proof {
        assert(-0x8000_0000_0000_0000 * 0xffff_ffff <= d * a * k <= 0x8000_0000_0000_0000
            * 0xffff_ffff) by (nonlinear_arith)
            requires
                -0x8000_0000_0000_0000 <= d * a <= 0x8000_0000_0000_0000,
                0 <= k <= 0xffff_ffff,
        ;
    }
    let profit: i128 = moved * (preset.multiplier as i128);
    if profit > i64::MAX as i128 || profit < i64::MIN as i128 {
        None
    } else {
        Some(profit as i64)
    }
}

/// The position of an account in one instrument.
///
/// The long and the short side are held apart, so that an account can be
/// long and short the same instrument at once.
#[allow(non_camel_case_types)]
#[derive(Debug, Clone, Copy, PartialEq, Eq, Structural)]
pub struct QA_Position {
    /// The terms of the instrument.
    pub preset: Preset,
    /// The long side.
    pub long: Leg,
    /// The short side.
    pub short: Leg,
}

impl QA_Position {
    /// The terms and both sides are well formed.
    pub open spec fn wf(self) -> bool {
        self.preset.wf() && self.long.wf() && self.short.wf()
    }

    /// A position that holds nothing on either side.
    pub open spec fn blank(preset: Preset) -> QA_Position {
        QA_Position { preset, long: Leg::flat(), short: Leg::flat() }
    }

    /// The long side for `true`, the short side for `false`.
    pub open spec fn leg(self, long: bool) -> Leg {
        if long {
            self.long
        } else {
            self.short
        }
    }

    /// The position with one side replaced.
    pub open spec fn with_leg(self, long: bool, leg: Leg) -> QA_Position {
        if long {
            QA_Position { long: leg, ..self }
        } else {
            QA_Position { short: leg, ..self }
        }
    }

    /// The margin that both sides tie up together.
    pub open spec fn margin(self) -> int {
        self.long.margin + self.short.margin
    }

    /// Creates a position that holds nothing on either side.
    pub fn new(preset: Preset) -> (p: QA_Position)
        ensures
            p == QA_Position::blank(preset),
    {
        QA_Position {
            preset,
            long: Leg { volume: 0, open_price: 0, margin: 0 },
            short: Leg { volume: 0, open_price: 0, margin: 0 },
        }
    }
}

} // verus!
