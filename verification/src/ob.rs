//! The book contract: what every engine must do with an update and a query.
//!
//! The contract is stated over [`BookModel`], the mathematical content of a
//! book: for each side a map from tick to resting quantity, and the timestamp
//! of the last update that was applied.

use crate::decimal::Decimal;
use crate::scaling::tick_of;
use vstd::prelude::*;

verus! {

/// Why an update was turned away.
#[derive(Clone, Copy, Debug, PartialEq, Eq, Structural)]
pub enum BookError {
    /// The price is below zero.
    NegativePrice,
    /// The quantity is below zero.
    NegativeQuantity,
    /// The price's tick lies outside the range the engine can address.
    TickOutOfRange,
}

/// One half of the book.
#[derive(Clone, Copy, Debug, PartialEq, Eq, Structural)]
pub enum Side {
    Bid,
    Ask,
}

/// Whether tick `a` is a strictly better price than tick `b` on `side`:
/// higher for bids, lower for asks.
pub open spec fn better(side: Side, a: int, b: int) -> bool {
    match side {
        Side::Bid => a > b,
        Side::Ask => a < b,
    }
}

/// Whether every level rests at an addressable tick with a quantity above zero.
pub open spec fn levels_valid(levels: Map<int, Decimal>, tick_limit: int) -> bool {
    forall|t: int| #[trigger]
        levels.contains_key(t) ==> 0 <= t < tick_limit && levels[t].mantissa > 0
}

/// The levels after an update at `tick`: quantity zero removes the level,
/// any other quantity sets it.
pub open spec fn put_level(levels: Map<int, Decimal>, tick: int, qty: Decimal) -> Map<
    int,
    Decimal,
> {
    if qty.zero() {
        levels.remove(tick)
    } else {
        levels.insert(tick, qty)
    }
}

/// Whether `best` is the best occupied tick of `levels` on `side`, or `None`
/// for a side without levels.
pub open spec fn is_best(levels: Map<int, Decimal>, side: Side, best: Option<u64>) -> bool {
    match best {
        Some(t) => levels.contains_key(t as int) && forall|k: int| #[trigger]
            levels.contains_key(k) ==> !better(side, k, t as int),
        None => forall|k: int| !#[trigger] levels.contains_key(k),
    }
}

/// Whether `tick` is among the prices of a ladder.
pub open spec fn listed(prices: Seq<Decimal>, tick: int) -> bool {
    exists|i: int| 0 <= i < prices.len() && (#[trigger] prices[i]).mantissa == tick
}

/// Whether `prices` and `quantities` are the top `depth` levels of one side,
/// best first.
///
/// Every entry is a level of the side at the book's precision, with its
/// resting quantity. The prices run strictly from better to worse. A level
/// that is not listed is worse than all that are, and is left out only when
/// the ladder is full. There is exactly one such ladder
/// (see `lemma_ladder_unique`).
pub open spec fn is_ladder(
    levels: Map<int, Decimal>,
    precision: u64,
    side: Side,
    depth: nat,
    prices: Seq<Decimal>,
    quantities: Seq<Decimal>,
) -> bool {
    &&& prices.len() == quantities.len()
    &&& prices.len() <= depth
    &&& forall|i: int|
        0 <= i < prices.len() ==> {
            &&& (#[trigger] prices[i]).scale == precision
            &&& levels.contains_key(prices[i].mantissa as int)
            &&& quantities[i] == levels[prices[i].mantissa as int]
        }
    &&& forall|i: int, j: int|
        0 <= i < j < prices.len() ==> better(
            side,
            (#[trigger] prices[i]).mantissa as int,
            (#[trigger] prices[j]).mantissa as int,
        )
    &&& forall|t: int| #[trigger]
        levels.contains_key(t) ==> listed(prices, t) || (prices.len() == depth && (depth > 0
            ==> better(side, prices[depth - 1].mantissa as int, t)))
}

/// A point-in-time extraction of up to N levels per side, best first.
#[derive(Debug)]
pub struct OrderBookSnapshot {
    pub ts: u64,
    pub bid_prices: Vec<Decimal>,
    pub bid_quantities: Vec<Decimal>,
    pub ask_prices: Vec<Decimal>,
    pub ask_quantities: Vec<Decimal>,
}

/// The mathematical content of a book.
pub struct BookModel {
    /// Decimal places that one tick resolves.
    pub precision: u64,
    /// Ticks below this bound are addressable.
    pub tick_limit: int,
    /// Resting bid quantity by tick.
    pub bids: Map<int, Decimal>,
    /// Resting ask quantity by tick.
    pub asks: Map<int, Decimal>,
    /// Timestamp of the last applied update, 0 before the first.
    pub last_timestamp: u64,
}

impl BookModel {
    /// The book before any update.
    pub open spec fn empty(precision: u64, tick_limit: int) -> BookModel {
        BookModel {
            precision,
            tick_limit,
            bids: Map::empty(),
            asks: Map::empty(),
            last_timestamp: 0,
        }
    }

    pub open spec fn valid(self) -> bool {
        &&& levels_valid(self.bids, self.tick_limit)
        &&& levels_valid(self.asks, self.tick_limit)
    }

    /// The levels of one side.
    pub open spec fn levels(self, side: Side) -> Map<int, Decimal> {
        match side {
            Side::Bid => self.bids,
            Side::Ask => self.asks,
        }
    }

    /// Whether an update is accepted, and if not, why. The price is judged
    /// first, then the quantity, then the tick.
    pub open spec fn check(self, price: Decimal, qty: Decimal) -> Result<(), BookError> {
        if price.negative() {
            Err(BookError::NegativePrice)
        } else if qty.negative() {
            Err(BookError::NegativeQuantity)
        } else if tick_of(price, self.precision) >= self.tick_limit {
            Err(BookError::TickOutOfRange)
        } else {
            Ok(())
        }
    }

    /// The book after an update on `side`. A rejected update changes nothing;
    /// an accepted one touches its own side and the timestamp only.
    pub open spec fn apply(self, side: Side, price: Decimal, qty: Decimal, ts: u64) -> BookModel {
        if self.check(price, qty) is Err {
            self
        } else {
            let tick = tick_of(price, self.precision);
            match side {
                Side::Bid => BookModel {
                    bids: put_level(self.bids, tick, qty),
                    last_timestamp: ts,
                    ..self
                },
                Side::Ask => BookModel {
                    asks: put_level(self.asks, tick, qty),
                    last_timestamp: ts,
                    ..self
                },
            }
        }
    }

    /// Whether `snap` is the snapshot of this book at `depth` levels per side.
    pub open spec fn has_snapshot(self, depth: nat, snap: OrderBookSnapshot) -> bool {
        &&& snap.ts == self.last_timestamp
        &&& is_ladder(
            self.bids,
            self.precision,
            Side::Bid,
            depth,
            snap.bid_prices@,
            snap.bid_quantities@,
        )
        &&& is_ladder(
            self.asks,
            self.precision,
            Side::Ask,
            depth,
            snap.ask_prices@,
            snap.ask_quantities@,
        )
    }
}

/// The update and query interface that every engine satisfies.
pub trait OrderBook: Sized {
    /// The engine's internal invariant.
    spec fn wf(&self) -> bool;

    /// What the book holds.
    spec fn model(&self) -> BookModel;

    /// A well-formed engine holds a valid book.
    proof fn lemma_model_valid(&self)
        requires
            self.wf(),
        ensures
            self.model().valid(),
    ;

    /// Sets the ask level at `price` to `qty`, or removes it when `qty` is
    /// zero, and records `timestamp`. An update that is rejected leaves the
    /// book as it was.
    fn add_ask(&mut self, price: Decimal, qty: Decimal, timestamp: u64) -> (res: Result<
        (),
        BookError,
    >)
        requires
            old(self).wf(),
        ensures
            final(self).wf(),
            res == old(self).model().check(price, qty),
            final(self).model() == old(self).model().apply(Side::Ask, price, qty, timestamp),
    ;

    /// Sets the bid level at `price` to `qty`, or removes it when `qty` is
    /// zero, and records `timestamp`. An update that is rejected leaves the
    /// book as it was.
    fn add_bid(&mut self, price: Decimal, qty: Decimal, timestamp: u64) -> (res: Result<
        (),
        BookError,
    >)
        requires
            old(self).wf(),
        ensures
            final(self).wf(),
            res == old(self).model().check(price, qty),
            final(self).model() == old(self).model().apply(Side::Bid, price, qty, timestamp),
    ;

    /// The best `n` levels of each side, best first, with the timestamp of
    /// the last applied update. A side with fewer than `n` levels yields all
    /// it has.
    fn get_snapshot(&self, n: usize) -> (snap: OrderBookSnapshot)
        requires
            self.wf(),
        ensures
            self.model().has_snapshot(n as nat, snap),
    ;

    /// The highest occupied bid tick, if there is a bid.
    fn best_bid(&self) -> (best: Option<u64>)
        requires
            self.wf(),
        ensures
            is_best(self.model().bids, Side::Bid, best),
    ;

    /// The lowest occupied ask tick, if there is an ask.
    fn best_ask(&self) -> (best: Option<u64>)
        requires
            self.wf(),
        ensures
            is_best(self.model().asks, Side::Ask, best),
    ;
}

} // verus!
