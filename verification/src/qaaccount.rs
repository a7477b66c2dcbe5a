//! The account ledger: cash, frozen margin, realized profit, and one position
//! for each instrument, changed only by orders that settle in full or not at
//! all.

use vstd::prelude::*;
use crate::errors::ErrorKind;
use crate::market_preset::Preset;
use crate::qaorder::{Direction, QAOrder};
use crate::qaposition::{fits, margin_for, order_valid, profit_for, realized, required_margin, Leg, QA_Position};
use crate::transaction::QATransaction;

verus! {

/// Whether an account replays history or trades live.
#[derive(Debug, Clone, Copy, PartialEq, Eq, Structural)]
pub enum Mode {
    Backtest,
    Real,
}

/// What an account stands for.
pub struct Ledger {
    /// The identifier of the account.
    pub account_cookie: Seq<char>,
    /// The identifier of the portfolio that the account belongs to.
    pub portfolio_cookie: Seq<char>,
    /// The identifier of the user who owns the account.
    pub user_cookie: Seq<char>,
    /// The cash that the account was created with.
    pub init_cash: i64,
    /// The cash that is free for new orders.
    pub cash: i64,
    /// The cash that open positions tie up as margin.
    pub frozen_margin: i64,
    /// The profit realized by closing orders so far.
    pub realized_pnl: i64,
    /// The recorded positions by instrument code.
    pub positions: Map<Seq<char>, QA_Position>,
    /// Whether a position may be opened and closed within one bar.
    pub allow_t0: bool,
    pub mode: Mode,
}

impl Ledger {
    /// Every recorded position is well formed, the frozen margin is not
    /// negative, and cash and frozen margin together are the initial cash.
    pub open spec fn wf(self) -> bool {
        &&& forall|code: Seq<char>| #[trigger]
            self.positions.contains_key(code) ==> self.positions[code].wf()
        &&& self.frozen_margin >= 0
        &&& self.cash + self.frozen_margin == self.init_cash
    }

    /// The position in `code`; an instrument without a record counts as a
    /// blank position on plain terms.
    pub open spec fn position(self, code: Seq<char>) -> QA_Position {
        if self.positions.contains_key(code) {
            self.positions[code]
        } else {
            QA_Position::blank(Preset::plain())
        }
    }

    /// The result of an opening order on the long (`long`) or the short side.
    ///
    /// The order is rejected when it is not valid; refused for insufficient
    /// funds when its margin exceeds the cash; and rejected when the side's
    /// volume would not fit in an `i64`. Otherwise the margin moves from cash
    /// to frozen and the fill joins the side at the blended price.
    pub open spec fn open_outcome(self, long: bool, code: Seq<char>, amount: i64, price: i64) -> Result<
        Ledger,
        ErrorKind,
    > {
        let position = self.position(code);
        let leg = position.leg(long);
        let margin = required_margin(position.preset, amount as int, price as int);
        if !order_valid(amount as int, price as int) {
            Err(ErrorKind::Rejected)
        } else if self.cash < margin {
            Err(ErrorKind::InsufficientFunds)
        } else if leg.volume + amount > i64::MAX {
            Err(ErrorKind::Rejected)
        } else {
            Ok(
                Ledger {
                    cash: (self.cash - margin) as i64,
                    frozen_margin: (self.frozen_margin + margin) as i64,
                    positions: self.positions.insert(
                        code,
                        position.with_leg(long, leg.opened(amount as int, price as int, margin)),
                    ),
                    ..self
                },
            )
        }
    }

    /// The result of a closing order on the long (`long`) or the short side.
    ///
    /// The order is rejected when its amount is not positive or its price is
    /// negative; refused for insufficient position when the side holds less
    /// than `amount`; and rejected when the realized profit, or the account's
    /// total with it, would not fit in an `i64`. Otherwise the profit is
    /// realized, the margin of the closed lots returns to cash, and the lots
    /// leave the side.
    pub open spec fn close_outcome(self, long: bool, code: Seq<char>, amount: i64, price: i64) -> Result<
        Ledger,
        ErrorKind,
    > {
        let position = self.position(code);
        let leg = position.leg(long);
        let profit = realized(
            position.preset,
            long,
            leg.open_price as int,
            price as int,
            amount as int,
        );
        let released = leg.released(amount as int);
        if amount <= 0 || price < 0 {
            Err(ErrorKind::Rejected)
        } else if leg.volume < amount {
            Err(ErrorKind::InsufficientPosition)
        } else if !fits(profit) || !fits(self.realized_pnl + profit) {
            Err(ErrorKind::Rejected)
        } else {
            Ok(
                Ledger {
                    cash: (self.cash + released) as i64,
                    frozen_margin: (self.frozen_margin - released) as i64,
                    realized_pnl: (self.realized_pnl + profit) as i64,
                    positions: self.positions.insert(
                        code,
                        position.with_leg(long, leg.closed(amount as int)),
                    ),
                    ..self
                },
            )
        }
    }

    /// The result of an order of any direction: a buy opens the long side
    /// and closes the short side, a sell opens the short side and closes the
    /// long side.
    pub open spec fn outcome(self, direction: Direction, code: Seq<char>, amount: i64, price: i64) -> Result<
        Ledger,
        ErrorKind,
    > {
        if direction.opens() {
            self.open_outcome(direction.on_long(), code, amount, price)
        } else {
            self.close_outcome(direction.on_long(), code, amount, price)
        }
    }

    /// The result of registering `code` on the terms `preset`.
    ///
    /// Terms that are not well formed are an invalid parameter; a code that
    /// has a record already is rejected, so that a record, once made, stays.
    pub open spec fn register_outcome(self, code: Seq<char>, preset: Preset) -> Result<Ledger, ErrorKind> {
        if !preset.wf() {
            Err(ErrorKind::InvalidParameter)
        } else if self.positions.contains_key(code) {
            Err(ErrorKind::Rejected)
        } else {
            Ok(Ledger { positions: self.positions.insert(code, QA_Position::blank(preset)), ..self })
        }
    }
}

/// Round-trip settlement: on a side that holds nothing, an opening order for
/// `amount` lots at `entry` followed by a closing order for the same lots at
/// `exit` realizes exactly the price move times the amount times the
/// multiplier, leaves the side flat again, and returns all the margin that
/// the opening order froze to cash. The other side is not touched.
pub proof fn lemma_round_trip(l: Ledger, long: bool, code: Seq<char>, amount: i64, entry: i64, exit: i64)
    requires
        l.wf(),
        l.position(code).leg(long).volume == 0,
        l.open_outcome(long, code, amount, entry) is Ok,
        l.open_outcome(long, code, amount, entry)->Ok_0.close_outcome(long, code, amount, exit) is Ok,
    ensures
        ({
            let opened = l.open_outcome(long, code, amount, entry)->Ok_0;
            let closed = opened.close_outcome(long, code, amount, exit)->Ok_0;
            let terms = l.position(code).preset;
            &&& opened.frozen_margin == l.frozen_margin + required_margin(
                terms,
                amount as int,
                entry as int,
            )
            &&& opened.position(code).leg(long).volume == amount
            &&& opened.position(code).leg(long).open_price == entry
            &&& closed.realized_pnl == l.realized_pnl + (if long {
                exit - entry
            } else {
                entry - exit
            }) * amount * terms.multiplier
            &&& closed.position(code).leg(long) == Leg::flat()
            &&& closed.position(code).leg(!long) == l.position(code).leg(!long)
            &&& closed.cash == l.cash
            &&& closed.frozen_margin == l.frozen_margin
        }),
{
    let position = l.position(code);
    let leg = position.leg(long);
    let margin = required_margin(position.preset, amount as int, entry as int);
    let rate = position.preset.margin_rate as int;
    assert(position.wf());
    assert(leg.wf());
    assert(0 <= margin) by (nonlinear_arith)
        requires
            margin == amount * entry * rate / 10_000,
            amount > 0,
            entry >= 0,
            rate >= 0,
    ;
    leg.lemma_blended_price(amount as int, entry as int);
    let opened_leg = leg.opened(amount as int, entry as int, margin);
    assert(opened_leg.volume == amount);
    assert(opened_leg.open_price == entry);
    assert(opened_leg.margin == margin);
    opened_leg.lemma_released(amount as int);
    let opened = l.open_outcome(long, code, amount, entry)->Ok_0;
    assert(opened.position(code) == position.with_leg(long, opened_leg));
}

/// The margin that all the positions of `ps` tie up together.
pub open spec fn total_margin(ps: Seq<QA_Position>) -> int
    decreases ps.len(),
{
    if ps.len() == 0 {
        0
    } else {
        total_margin(ps.drop_last()) + ps.last().margin()
    }
}

/// Whether some slot of `codes` holds `code`.
pub open spec fn listed(codes: Seq<String>, code: Seq<char>) -> bool {
    exists|i: int| 0 <= i < codes.len() && #[trigger] codes[i]@ == code
}

/// A slot of `codes` that holds `code`.
pub open spec fn slot(codes: Seq<String>, code: Seq<char>) -> int {
    choose|i: int| 0 <= i < codes.len() && #[trigger] codes[i]@ == code
}

/// No code stands in two slots.
pub open spec fn distinct(codes: Seq<String>) -> bool {
    forall|i: int, j: int|
        0 <= i < codes.len() && 0 <= j < codes.len() && i != j ==> #[trigger] codes[i]@
            != #[trigger] codes[j]@
}

/// The positions of `ps` keyed by the codes that stand in the same slots.
pub open spec fn table(codes: Seq<String>, ps: Seq<QA_Position>) -> Map<Seq<char>, QA_Position> {
    Map::new(|code: Seq<char>| listed(codes, code), |code: Seq<char>| ps[slot(codes, code)])
}

/// With distinct codes, the slot of a listed code is the one that holds it.
proof fn lemma_slot(codes: Seq<String>, i: int)
    requires
        distinct(codes),
        0 <= i < codes.len(),
    ensures
        listed(codes, codes[i]@),
        slot(codes, codes[i]@) == i,
{
    let code = codes[i]@;
    assert(codes[i]@ == code);
    let j = slot(codes, code);
    assert(0 <= j < codes.len() && codes[j]@ == code);
}

/// Replacing the position in one slot replaces the table's entry for the
/// slot's code.
proof fn lemma_table_update(codes: Seq<String>, ps: Seq<QA_Position>, i: int, p: QA_Position)
    requires
        distinct(codes),
        codes.len() == ps.len(),
        0 <= i < codes.len(),
    ensures
        table(codes, ps.update(i, p)) == table(codes, ps).insert(codes[i]@, p),
{
    lemma_slot(codes, i);
    let new = table(codes, ps.update(i, p));
    let old = table(codes, ps).insert(codes[i]@, p);
    assert forall|code: Seq<char>| #[trigger] new.contains_key(code) implies new[code] == old[code] by {
        let j = slot(codes, code);
        assert(0 <= j < codes.len() && codes[j]@ == code);
        if code == codes[i]@ {
            assert(j == i);
        } else {
            assert(j != i);
        }
    }
    assert(new =~= old);
}

/// A new slot with a code that was not listed adds one entry to the table.
proof fn lemma_table_push(codes: Seq<String>, ps: Seq<QA_Position>, code: String, p: QA_Position)
    requires
        distinct(codes),
        codes.len() == ps.len(),
        !listed(codes, code@),
    ensures
        distinct(codes.push(code)),
        table(codes.push(code), ps.push(p)) == table(codes, ps).insert(code@, p),
{
    let codes2 = codes.push(code);
    let ps2 = ps.push(p);
    assert forall|i: int, j: int|
        0 <= i < codes2.len() && 0 <= j < codes2.len() && i != j implies #[trigger] codes2[i]@
        != #[trigger] codes2[j]@ by {
        if i < codes.len() {
            assert(codes[i]@ == codes2[i]@);
        }
        if j < codes.len() {
            assert(codes[j]@ == codes2[j]@);
        }
    }
    let new = table(codes2, ps2);
    let old = table(codes, ps).insert(code@, p);
    assert forall|c: Seq<char>| new.contains_key(c) <==> old.contains_key(c) by {
        if listed(codes2, c) {
            let j = slot(codes2, c);
            if j < codes.len() {
                assert(codes[j]@ == c);
            }
        }
        if listed(codes, c) {
            let j = slot(codes, c);
            assert(codes2[j]@ == c);
        }
        if c == code@ {
            assert(codes2[codes.len() as int]@ == c);
        }
    }
    assert forall|c: Seq<char>| #[trigger] new.contains_key(c) implies new[c] == old[c] by {
        let j = slot(codes2, c);
        assert(0 <= j < codes2.len() && codes2[j]@ == c);
        if c == code@ {
            assert(codes2[codes.len() as int]@ == c);
            assert(j == codes.len());
        } else {
            assert(j < codes.len());
            assert(codes[j]@ == c);
            let k = slot(codes, c);
            assert(0 <= k < codes.len() && codes[k]@ == c);
            assert(codes2[k]@ == c);
            assert(k == j);
        }
    }
    assert(new =~= old);
}

/// Replacing one position changes the total margin by the difference of the
/// two positions' margins.
proof fn lemma_total_update(ps: Seq<QA_Position>, i: int, p: QA_Position)
    requires
        0 <= i < ps.len(),
    ensures
        total_margin(ps.update(i, p)) == total_margin(ps) - ps[i].margin() + p.margin(),
    decreases ps.len(),
{
    if i == ps.len() - 1 {
        assert(ps.update(i, p).drop_last() =~= ps.drop_last());
    } else {
        assert(ps.update(i, p).drop_last() =~= ps.drop_last().update(i, p));
        lemma_total_update(ps.drop_last(), i, p);
    }
}

/// Where no margin is negative, none exceeds the total.
proof fn lemma_total_bound(ps: Seq<QA_Position>, i: int)
    requires
        0 <= i < ps.len(),
        forall|j: int| 0 <= j < ps.len() ==> (#[trigger] ps[j]).wf(),
    ensures
        0 <= ps[i].margin() <= total_margin(ps),
        0 <= total_margin(ps),
    decreases ps.len(),
{
    let front = ps.drop_last();
    assert(ps[ps.len() - 1].wf());
    assert forall|j: int| 0 <= j < front.len() implies (#[trigger] front[j]).wf() by {
        assert(ps[j].wf());
    }
    if front.len() > 0 {
        let k = if i < front.len() { i } else { 0 };
        lemma_total_bound(front, k);
        assert(front[k] == ps[k]);
    } else {
        assert(total_margin(front) == 0);
    }
}

/// Whether `after` and `r` are what settling an order on `before` gives: on
/// success the ledger of the order's outcome and the record of the fill; on
/// refusal the outcome's error and the account as it was.
pub open spec fn settled(
    before: QA_Account,
    after: QA_Account,
    r: Result<QATransaction, ErrorKind>,
    direction: Direction,
    code: Seq<char>,
    datetime: Seq<char>,
    amount: i64,
    price: i64,
) -> bool {
    match before@.outcome(direction, code, amount, price) {
        Ok(ledger) => {
            &&& after@ == ledger
            &&& r matches Ok(t)
            &&& t.code@ == code
            &&& t.datetime@ == datetime
            &&& t.direction == direction
            &&& t.price == price
            &&& t.amount == amount
            &&& t.cash == ledger.cash
            &&& t.money == ledger.realized_pnl
        },
        Err(e) => r == Err::<QATransaction, ErrorKind>(e) && after == before,
    }
}

/// A simulated margin account.
///
/// The account is one owned value that the replay loop hands on; every
/// order is validated before anything is written, so that a refused order
/// leaves the account as it was.
#[allow(non_camel_case_types)]
#[derive(Debug, Clone, PartialEq, Eq)]
pub struct QA_Account {
    account_cookie: String,
    portfolio_cookie: String,
    user_cookie: String,
    init_cash: i64,
    cash: i64,
    frozen: i64,
    money: i64,
    allow_t0: bool,
    environment: Mode,
    codes: Vec<String>,
    positions: Vec<QA_Position>,
}

impl View for QA_Account {
    type V = Ledger;

    closed spec fn view(&self) -> Ledger {
        Ledger {
            account_cookie: self.account_cookie@,
            portfolio_cookie: self.portfolio_cookie@,
            user_cookie: self.user_cookie@,
            init_cash: self.init_cash,
            cash: self.cash,
            frozen_margin: self.frozen,
            realized_pnl: self.money,
            positions: table(self.codes@, self.positions@),
            allow_t0: self.allow_t0,
            mode: self.environment,
        }
    }
}

impl QA_Account {
    /// The representation invariant: every code is recorded once, every
    /// position is well formed, the frozen margin is the sum of the
    /// positions' margins, and cash and frozen margin together are the
    /// initial cash.
    pub closed spec fn wf(&self) -> bool {
        &&& self.codes@.len() == self.positions@.len()
        &&& distinct(self.codes@)
        &&& forall|i: int| 0 <= i < self.positions@.len() ==> (#[trigger] self.positions@[i]).wf()
        &&& self.frozen == total_margin(self.positions@)
        &&& self.cash + self.frozen == self.init_cash
    }

    /// A well-formed account stands for a well-formed ledger.
    pub proof fn lemma_view(&self)
        requires
            self.wf(),
        ensures
            self@.wf(),
    {
        let l = self@;
        assert forall|code: Seq<char>| #[trigger] l.positions.contains_key(code) implies l.positions[code].wf() by {
            let j = slot(self.codes@, code);
            assert(0 <= j < self.codes@.len() && self.codes@[j]@ == code);
        }
        if self.positions@.len() > 0 {
            lemma_total_bound(self.positions@, 0);
        }
    }

    /// Creates an account with `init_cash` in cash and no position.
    ///
    /// The environment `"real"` makes a live account; any other makes a
    /// backtest account.
    pub fn new(
        account_cookie: &str,
        portfolio_cookie: &str,
        user_cookie: &str,
        init_cash: i64,
        allow_t0: bool,
        environment: &str,
    ) -> (account: QA_Account)
        ensures
            account.wf(),
            account@ == (Ledger {
                account_cookie: account_cookie@,
                portfolio_cookie: portfolio_cookie@,
                user_cookie: user_cookie@,
                init_cash,
                cash: init_cash,
                frozen_margin: 0,
                realized_pnl: 0,
                positions: Map::<Seq<char>, QA_Position>::empty(),
                allow_t0,
                mode: if environment@ == "real"@ {
                    Mode::Real
                } else {
                    Mode::Backtest
                },
            }),
    {
        let live = environment.to_owned() == "real".to_owned();
        let account = QA_Account {
            account_cookie: account_cookie.to_owned(),
            portfolio_cookie: portfolio_cookie.to_owned(),
            user_cookie: user_cookie.to_owned(),
            init_cash,
            cash: init_cash,
            frozen: 0,
            money: 0,
            allow_t0,
            environment: if live {
                Mode::Real
            } else {
                Mode::Backtest
            },
            codes: Vec::new(),
            positions: Vec::new(),
        };
        assert(account@.positions =~= Map::<Seq<char>, QA_Position>::empty());
        account
    }

    /// The slot that records `code`, if any.
    fn find(&self, code: &String) -> (r: Option<usize>)
        requires
            self.wf(),
        ensures
            match r {
                Some(i) => i < self.codes@.len() && self.codes@[i as int]@ == code@
                    && self@.positions.contains_key(code@)
                    && self@.positions[code@] == self.positions@[i as int],
                None => !listed(self.codes@, code@) && !self@.positions.contains_key(code@),
            },
    {
        let mut i: usize = 0;
        while i < self.codes.len()
            invariant
                self.wf(),
                i <= self.codes@.len(),
                forall|j: int| 0 <= j < i ==> (#[trigger] self.codes@[j])@ != code@,
            decreases self.codes@.len() - i,
        {
            if self.codes[i] == *code {
                proof {
                    lemma_slot(self.codes@, i as int);
                }
                return Some(i);
            }
            i += 1;
        }
        None
    }

    /// The position that an order on `code` works on: the recorded one, or a
    /// blank position on plain terms.
    fn lookup(&self, code: &String) -> (r: (Option<usize>, QA_Position))
        requires
            self.wf(),
        ensures
            r.1 == self@.position(code@),
            r.1.wf(),
            r.1.margin() <= self.frozen,
            match r.0 {
                Some(i) => i < self.codes@.len() && self.codes@[i as int]@ == code@
                    && self.positions@[i as int] == r.1,
                None => !listed(self.codes@, code@),
            },
    {
        match self.find(code) {
            Some(i) => {
                proof {
                    lemma_total_bound(self.positions@, i as int);
                }
                (Some(i), self.positions[i])
            },
            None => {
                proof {
                    if self.positions@.len() > 0 {
                        lemma_total_bound(self.positions@, 0);
                    }
                }
                (None, QA_Position::new(Preset::default()))
            },
        }
    }

    /// Writes `position` into the slot `at`, or into a new slot for `code`.
    fn store(&mut self, at: Option<usize>, code: String, position: QA_Position)
        requires
            old(self).codes@.len() == old(self).positions@.len(),
            distinct(old(self).codes@),
            match at {
                Some(i) => i < old(self).codes@.len() && old(self).codes@[i as int]@ == code@,
                None => !listed(old(self).codes@, code@),
            },
        ensures
            final(self).codes@.len() == final(self).positions@.len(),
            distinct(final(self).codes@),
            table(final(self).codes@, final(self).positions@) == table(
                old(self).codes@,
                old(self).positions@,
            ).insert(code@, position),
            total_margin(final(self).positions@) == total_margin(old(self).positions@) - (match at {
                Some(i) => old(self).positions@[i as int].margin(),
                None => 0,
            }) + position.margin(),
            forall|j: int|
                0 <= j < final(self).positions@.len() ==> #[trigger] final(self).positions@[j]
                    == position || (j < old(self).positions@.len() && final(self).positions@[j]
                    == old(self).positions@[j]),
            final(self).account_cookie == old(self).account_cookie,
            final(self).portfolio_cookie == old(self).portfolio_cookie,
            final(self).user_cookie == old(self).user_cookie,
            final(self).init_cash == old(self).init_cash,
            final(self).cash == old(self).cash,
            final(self).frozen == old(self).frozen,
            final(self).money == old(self).money,
            final(self).allow_t0 == old(self).allow_t0,
            final(self).environment == old(self).environment,
    {
        match at {
            Some(i) => {
                proof {
                    lemma_table_update(self.codes@, self.positions@, i as int, position);
                    lemma_total_update(self.positions@, i as int, position);
                }
                self.positions[i] = position;
            },
            None => {
                proof {
                    lemma_table_push(self.codes@, self.positions@, code, position);
                    assert(self.positions@.push(position).drop_last() =~= self.positions@);
                }
                self.codes.push(code);
                self.positions.push(position);
            },
        }
    }

    /// Settles an opening order on the long (`long`) or the short side.
    fn open_side(&mut self, long: bool, code: &str, amount: i64, datetime: &str, price: i64) -> (r:
        Result<QATransaction, ErrorKind>)
        requires
            old(self).wf(),
        ensures
            final(self).wf(),
            settled(
                *old(self),
                *final(self),
                r,
                if long {
                    Direction::BuyOpen
                } else {
                    Direction::SellOpen
                },
                code@,
                datetime@,
                amount,
                price,
            ),
    {
        let key = code.to_owned();
        let (at, position) = self.lookup(&key);
        let margin = match margin_for(&position.preset, amount, price) {
            Some(margin) => margin,
            None => {
                return Err(ErrorKind::Rejected);
            },
        };
        if self.cash < margin {
            return Err(ErrorKind::InsufficientFunds);
        }
        let leg = if long {
            position.long
        } else {
            position.short
        };
        let opened = match leg.open(amount, price, margin) {
            Some(opened) => opened,
            None => {
                return Err(ErrorKind::Rejected);
            },
        };
        let position = if long {
            QA_Position { long: opened, ..position }
        } else {
            QA_Position { short: opened, ..position }
        };
        self.cash = self.cash - margin;
        self.frozen = self.frozen + margin;
        self.store(at, key, position);
        Ok(
            QATransaction {
                code: code.to_owned(),
                datetime: datetime.to_owned(),
                direction: if long {
                    Direction::BuyOpen
                } else {
                    Direction::SellOpen
                },
                price,
                amount,
                cash: self.cash,
                money: self.money,
            },
        )
    }

    /// Settles a closing order on the long (`long`) or the short side.
    fn close_side(&mut self, long: bool, code: &str, amount: i64, datetime: &str, price: i64) -> (r:
        Result<QATransaction, ErrorKind>)
        requires
            old(self).wf(),
        ensures
            final(self).wf(),
            settled(
                *old(self),
                *final(self),
                r,
                if long {
                    Direction::SellClose
                } else {
                    Direction::BuyClose
                },
                code@,
                datetime@,
                amount,
                price,
            ),
    {
        if amount <= 0 || price < 0 {
            return Err(ErrorKind::Rejected);
        }
        let key = code.to_owned();
        let (at, position) = self.lookup(&key);
        let leg = if long {
            position.long
        } else {
            position.short
        };
        let (left, released) = match leg.close(amount) {
            Some(closed) => closed,
            None => {
                return Err(ErrorKind::InsufficientPosition);
            },
        };
        let profit = match profit_for(&position.preset, long, leg.open_price, price, amount) {
            Some(profit) => profit,
            None => {
                return Err(ErrorKind::Rejected);
            },
        };
        let money: i128 = self.money as i128 + profit as i128;
        if money > i64::MAX as i128 || money < i64::MIN as i128 {
            return Err(ErrorKind::Rejected);
        }
        let position = if long {
            QA_Position { long: left, ..position }
        } else {
            QA_Position { short: left, ..position }
        };
        self.cash = self.cash + released;
        self.frozen = self.frozen - released;
        self.money = money as i64;
        self.store(at, key, position);
        Ok(
            QATransaction {
                code: code.to_owned(),
                datetime: datetime.to_owned(),
                direction: if long {
                    Direction::SellClose
                } else {
                    Direction::BuyClose
                },
                price,
                amount,
                cash: self.cash,
                money: self.money,
            },
        )
    }

    /// Enters or increases the long position in `code` by `amount` lots at
    /// `price`.
    ///
    /// The margin `amount * price * margin_rate` moves from cash to frozen.
    /// Fails with `InsufficientFunds` when the cash does not cover it, and
    /// with `Rejected` when the order is not valid; a failed order changes
    /// nothing.
    pub fn buy_open(&mut self, code: &str, amount: i64, datetime: &str, price: i64) -> (r: Result<
        QATransaction,
        ErrorKind,
    >)
        requires
            old(self).wf(),
        ensures
            final(self).wf(),
            settled(*old(self), *final(self), r, Direction::BuyOpen, code@, datetime@, amount, price),
            r is Err ==> *final(self) == *old(self),
    {
        self.open_side(true, code, amount, datetime, price)
    }

    /// Enters or increases the short position in `code` by `amount` lots at
    /// `price`; the counterpart of `buy_open` on the short side.
    pub fn sell_open(&mut self, code: &str, amount: i64, datetime: &str, price: i64) -> (r: Result<
        QATransaction,
        ErrorKind,
    >)
        requires
            old(self).wf(),
        ensures
            final(self).wf(),
            settled(*old(self), *final(self), r, Direction::SellOpen, code@, datetime@, amount, price),
            r is Err ==> *final(self) == *old(self),
    {
        self.open_side(false, code, amount, datetime, price)
    }

    /// Buys back `amount` lots of the short position in `code` at `price`.
    ///
    /// Realizes `(open_price_short - price) * amount * multiplier` and
    /// returns the margin of the closed lots to cash. Fails with
    /// `InsufficientPosition` when fewer than `amount` lots are short; a
    /// failed order changes nothing.
    pub fn buy_close(&mut self, code: &str, amount: i64, datetime: &str, price: i64) -> (r: Result<
        QATransaction,
        ErrorKind,
    >)
        requires
            old(self).wf(),
        ensures
            final(self).wf(),
            settled(*old(self), *final(self), r, Direction::BuyClose, code@, datetime@, amount, price),
            r is Err ==> *final(self) == *old(self),
    {
        self.close_side(false, code, amount, datetime, price)
    }

    /// Sells `amount` lots of the long position in `code` at `price`.
    ///
    /// Realizes `(price - open_price_long) * amount * multiplier` and
    /// returns the margin of the closed lots to cash. Fails with
    /// `InsufficientPosition` when fewer than `amount` lots are long; a
    /// failed order changes nothing.
    pub fn sell_close(&mut self, code: &str, amount: i64, datetime: &str, price: i64) -> (r: Result<
        QATransaction,
        ErrorKind,
    >)
        requires
            old(self).wf(),
        ensures
            final(self).wf(),
            settled(*old(self), *final(self), r, Direction::SellClose, code@, datetime@, amount, price),
            r is Err ==> *final(self) == *old(self),
    {
        self.close_side(true, code, amount, datetime, price)
    }

    /// Settles `order` by its direction.
    pub fn send_order(&mut self, order: &QAOrder) -> (r: Result<QATransaction, ErrorKind>)
        requires
            old(self).wf(),
        ensures
            final(self).wf(),
            settled(
                *old(self),
                *final(self),
                r,
                order.direction,
                order.code@,
                order.datetime@,
                order.amount,
                order.price,
            ),
            r is Err ==> *final(self) == *old(self),
    {
        let code = order.code.as_str();
        let datetime = order.datetime.as_str();
        match order.direction {
            Direction::BuyOpen => self.buy_open(code, order.amount, datetime, order.price),
            Direction::SellOpen => self.sell_open(code, order.amount, datetime, order.price),
            Direction::BuyClose => self.buy_close(code, order.amount, datetime, order.price),
            Direction::SellClose => self.sell_close(code, order.amount, datetime, order.price),
        }
    }

    /// Records the instrument `code` on the terms `preset`, with a blank
    /// position.
    ///
    /// Fails with `InvalidParameter` when the terms are not well formed and
    /// with `Rejected` when `code` has a record already; a failed call
    /// changes nothing.
    pub fn init_h(&mut self, code: &str, preset: Preset) -> (r: Result<(), ErrorKind>)
        requires
            old(self).wf(),
        ensures
            final(self).wf(),
            match old(self)@.register_outcome(code@, preset) {
                Ok(ledger) => r is Ok && final(self)@ == ledger,
                Err(e) => r == Err::<(), ErrorKind>(e) && *final(self) == *old(self),
            },
    {
        if !preset.is_valid() {
            return Err(ErrorKind::InvalidParameter);
        }
        let key = code.to_owned();
        match self.find(&key) {
            Some(_) => Err(ErrorKind::Rejected),
            None => {
                self.store(None, key, QA_Position::new(preset));
                Ok(())
            },
        }
    }

    /// The position recorded for `code`, if there is one.
    pub fn get_position(&self, code: &str) -> (r: Option<QA_Position>)
        requires
            self.wf(),
        ensures
            r == (if self@.positions.contains_key(code@) {
                Some(self@.positions[code@])
            } else {
                None::<QA_Position>
            }),
    {
        let key = code.to_owned();
        match self.find(&key) {
            Some(i) => Some(self.positions[i]),
            None => None,
        }
    }

    /// The lots held long in `code`; 0 without a record.
    pub fn get_volume_long(&self, code: &str) -> (r: i64)
        requires
            self.wf(),
        ensures
            r == self@.position(code@).long.volume,
    {
        let key = code.to_owned();
        self.lookup(&key).1.long.volume
    }

    /// The lots held short in `code`; 0 without a record.
    pub fn get_volume_short(&self, code: &str) -> (r: i64)
        requires
            self.wf(),
        ensures
            r == self@.position(code@).short.volume,
    {
        let key = code.to_owned();
        self.lookup(&key).1.short.volume
    }

    /// The average price of the long holding in `code`; 0 without one.
    pub fn get_open_price_long(&self, code: &str) -> (r: i64)
        requires
            self.wf(),
        ensures
            r == self@.position(code@).long.open_price,
    {
        let key = code.to_owned();
        self.lookup(&key).1.long.open_price
    }

    /// The average price of the short holding in `code`; 0 without one.
    pub fn get_open_price_short(&self, code: &str) -> (r: i64)
        requires
            self.wf(),
        ensures
            r == self@.position(code@).short.open_price,
    {
        let key = code.to_owned();
        self.lookup(&key).1.short.open_price
    }

    /// The codes that have a record, in the order in which they were first
    /// recorded.
    pub fn codes(&self) -> (r: &Vec<String>)
        requires
            self.wf(),
        ensures
            distinct(r@),
            forall|code: Seq<char>| self@.positions.contains_key(code) <==> listed(r@, code),
    {
        &self.codes
    }

    /// The cash that is free for new orders.
    pub fn cash(&self) -> (r: i64)
        ensures
            r == self@.cash,
    {
        self.cash
    }

    /// The cash that open positions tie up as margin.
    pub fn frozen_margin(&self) -> (r: i64)
        ensures
            r == self@.frozen_margin,
    {
        self.frozen
    }

    /// The profit realized so far.
    pub fn realized_pnl(&self) -> (r: i64)
        ensures
            r == self@.realized_pnl,
    {
        self.money
    }

    /// The cash that the account was created with.
    pub fn init_cash(&self) -> (r: i64)
        ensures
            r == self@.init_cash,
    {
        self.init_cash
    }

    /// Whether a position may be opened and closed within one bar.
    pub fn allow_t0(&self) -> (r: bool)
        ensures
            r == self@.allow_t0,
    {
        self.allow_t0
    }

    /// Whether the account replays history or trades live.
    pub fn mode(&self) -> (r: Mode)
        ensures
            r == self@.mode,
    {
        self.environment
    }

    /// The identifier of the account.
    pub fn account_cookie(&self) -> (r: &String)
        ensures
            r@ == self@.account_cookie,
    {
        &self.account_cookie
    }

    /// The identifier of the portfolio.
    pub fn portfolio_cookie(&self) -> (r: &String)
        ensures
            r@ == self@.portfolio_cookie,
    {
        &self.portfolio_cookie
    }

    /// The identifier of the user.
    pub fn user_cookie(&self) -> (r: &String)
        ensures
            r@ == self@.user_cookie,
    {
        &self.user_cookie
    }
}

} // verus!
