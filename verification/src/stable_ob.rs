//! The sparse-array engine: one preallocated slot per tick on each side, and
//! a cached pointer to the best occupied slot of each side.

use crate::decimal::Decimal;
use crate::level_slots::slot_contents;
use crate::level_slots::slot_count;
use crate::level_slots::slots_first_filled_below;
use crate::level_slots::slots_first_filled_from;
use crate::level_slots::slots_insert;
use crate::level_slots::slots_remove;
use crate::level_slots::slots_value;
use crate::level_slots::slots_with_capacity;
use crate::level_slots::LevelSlots;
use crate::level_slots::SLOT_BYTES;
use crate::ob::is_best;
use crate::ob::levels_valid;
use crate::ob::listed;
use crate::ob::BookError;
use crate::ob::BookModel;
use crate::ob::OrderBook;
use crate::ob::OrderBookSnapshot;
use crate::ob::Side;
use crate::scaling::lemma_tick_nonnegative;
use crate::scaling::price_of;
use crate::scaling::tick_result;
use crate::scaling::to_tick;
use vstd::prelude::*;

verus! {

/// An order book that addresses its levels directly by tick.
pub struct StableOrderBook {
    price_precision: u64,
    capacity: usize,
    bids: LevelSlots,
    asks: LevelSlots,
    last_timestamp: u64,
    best_ask: Option<usize>,
    best_bid: Option<usize>,
}

/// The tick that a cached pointer names.
pub open spec fn pointer_tick(pointer: Option<usize>) -> Option<u64> {
    match pointer {
        Some(index) => Some(index as u64),
        None => None,
    }
}

/// One side is in order: it has a slot for every addressable tick, holds only
/// quantities above zero, and its cached pointer names its best occupied slot.
spec fn side_wf(slots: LevelSlots, capacity: usize, side: Side, pointer: Option<usize>) -> bool {
    &&& slot_count(slots) == capacity
    &&& levels_valid(slot_contents(slots), capacity as int)
    &&& is_best(slot_contents(slots), side, pointer_tick(pointer))
}

/// What scaling a price to a slot index yields.
pub open spec fn slot_result(price: Decimal, precision: u64) -> Result<usize, BookError> {
    match tick_result(price, precision) {
        Ok(tick) => if tick > usize::MAX {
            Err(BookError::TickOutOfRange)
        } else {
            Ok(tick as usize)
        },
        Err(e) => Err(e),
    }
}

impl StableOrderBook {
    /// An empty book with `price_precision` decimal places per tick and one
    /// slot per side for each tick below `capacity`. Updates at a tick of
    /// `capacity` or above are rejected with [`BookError::TickOutOfRange`].
    ///
    /// The slots of one side must fit the address space.
    pub fn new(price_precision: u64, capacity: usize) -> (book: Self)
        requires
            capacity * SLOT_BYTES <= isize::MAX,
        ensures
            book.wf(),
            book.model() == BookModel::empty(price_precision, capacity as int),
    {
        let bids: LevelSlots = slots_with_capacity(capacity);
        let asks: LevelSlots = slots_with_capacity(capacity);
        proof {
            assert(slot_contents(bids) =~= Map::empty());
            assert(slot_contents(asks) =~= Map::empty());
        }
        StableOrderBook {
            price_precision,
            capacity,
            bids,
            asks,
            last_timestamp: 0,
            best_ask: None,
            best_bid: None,
        }
    }

    /// The slot index of a price: its tick, where that fits an index.
    pub fn upscale(n: Decimal, precision: u64) -> (res: Result<usize, BookError>)
        ensures
            res == slot_result(n, precision),
    {
        match to_tick(n, precision) {
            Ok(tick) => {
                if tick > usize::MAX as u64 {
                    Err(BookError::TickOutOfRange)
                } else {
                    Ok(tick as usize)
                }
            },
            Err(e) => Err(e),
        }
    }

    /// The price of a slot index.
    pub fn downscale(n: usize, precision: u64) -> (price: Decimal)
        ensures
            price == price_of(n as int, precision),
    {
        Decimal { mantissa: n as i128, scale: precision }
    }
}

impl OrderBook for StableOrderBook {
    closed spec fn wf(&self) -> bool {
        &&& side_wf(self.bids, self.capacity, Side::Bid, self.best_bid)
        &&& side_wf(self.asks, self.capacity, Side::Ask, self.best_ask)
    }

    closed spec fn model(&self) -> BookModel {
        BookModel {
            precision: self.price_precision,
            tick_limit: self.capacity as int,
            bids: slot_contents(self.bids),
            asks: slot_contents(self.asks),
            last_timestamp: self.last_timestamp,
        }
    }

    proof fn lemma_model_valid(&self) {
    }

    fn add_ask(&mut self, price: Decimal, qty: Decimal, timestamp: u64) -> (res: Result<
        (),
        BookError,
    >) {
        if price.is_negative() {
            return Err(BookError::NegativePrice);
        }
        if qty.is_negative() {
            return Err(BookError::NegativeQuantity);
        }
        proof {
            lemma_tick_nonnegative(price, self.price_precision);
        }
        let upscale: usize = match StableOrderBook::upscale(price, self.price_precision) {
            Ok(index) => index,
            Err(e) => {
                return Err(e);
            },
        };
        if upscale >= self.capacity {
            return Err(BookError::TickOutOfRange);
        }
        if qty.is_zero() {
            slots_remove(&mut self.asks, upscale);
            // the best ask is gone: the next one is the first occupied slot above it
            if self.best_ask == Some(upscale) {
                self.best_ask = slots_first_filled_from(&self.asks, upscale);
            }
        } else {
            slots_insert(&mut self.asks, upscale, qty);
            self.best_ask = match self.best_ask {
                Some(v) => if upscale < v {
                    Some(upscale)
                } else {
                    Some(v)
                },
                None => Some(upscale),
            };
        }
        self.last_timestamp = timestamp;
        Ok(())
    }

    fn add_bid(&mut self, price: Decimal, qty: Decimal, timestamp: u64) -> (res: Result<
        (),
        BookError,
    >) {
        if price.is_negative() {
            return Err(BookError::NegativePrice);
        }
        if qty.is_negative() {
            return Err(BookError::NegativeQuantity);
        }
        proof {
            lemma_tick_nonnegative(price, self.price_precision);
        }
        let upscale: usize = match StableOrderBook::upscale(price, self.price_precision) {
            Ok(index) => index,
            Err(e) => {
                return Err(e);
            },
        };
        if upscale >= self.capacity {
            return Err(BookError::TickOutOfRange);
        }
        if qty.is_zero() {
            slots_remove(&mut self.bids, upscale);
            // the best bid is gone: the next one is the first occupied slot below it
            if self.best_bid == Some(upscale) {
                self.best_bid = slots_first_filled_below(&self.bids, upscale);
            }
        } else {
            slots_insert(&mut self.bids, upscale, qty);
            self.best_bid = match self.best_bid {
                Some(v) => if upscale > v {
                    Some(upscale)
                } else {
                    Some(v)
                },
                None => Some(upscale),
            };
        }
        self.last_timestamp = timestamp;
        Ok(())
    }

    fn get_snapshot(&self, n: usize) -> (snap: OrderBookSnapshot) {
        let precision: u64 = self.price_precision;
        let ghost bids = slot_contents(self.bids);
        let ghost asks = slot_contents(self.asks);

        // bids: from the best slot down, skipping empty slots, until the
        // depth is reached or no occupied slot is left below
        let mut bid_prices: Vec<Decimal> = Vec::new();
        let mut bid_quantities: Vec<Decimal> = Vec::new();
        let mut search_idx: usize = match self.best_bid {
            Some(start_idx) => start_idx + 1,
            None => 0,
        };
        let mut exhausted: bool = false;
        while bid_prices.len() < n && !exhausted
            invariant
                self.wf(),
                bids == slot_contents(self.bids),
                precision == self.price_precision,
                search_idx <= self.capacity,
                bid_prices.len() == bid_quantities.len(),
                bid_prices.len() <= n,
                forall|i: int|
                    0 <= i < bid_prices.len() ==> {
                        &&& (#[trigger] bid_prices[i]).scale == precision
                        &&& bid_prices[i].mantissa >= search_idx
                        &&& bids.contains_key(bid_prices[i].mantissa as int)
                        &&& bid_quantities[i] == bids[bid_prices[i].mantissa as int]
                    },
                forall|i: int, j: int|
                    0 <= i < j < bid_prices.len() ==> (#[trigger] bid_prices[i]).mantissa > (
                    #[trigger] bid_prices[j]).mantissa,
                bid_prices.len() > 0 ==> bid_prices[bid_prices.len() - 1].mantissa == search_idx,
                forall|t: int| #[trigger]
                    bids.contains_key(t) ==> listed(bid_prices@, t) || (t < search_idx
                        && !exhausted),
            decreases
                    (if exhausted {
                        0int
                    } else {
                        search_idx + 1
                    }),
        {
            match slots_first_filled_below(&self.bids, search_idx) {
                Some(data_idx) => {
                    let price: Decimal = StableOrderBook::downscale(data_idx, precision);
                    let qty: Decimal = slots_value(&self.bids, data_idx);
                    let ghost before = bid_prices@;
                    bid_prices.push(price);
                    bid_quantities.push(qty);
                    proof {
                        assert forall|t: int| #[trigger] bids.contains_key(t) implies listed(
                            bid_prices@,
                            t,
                        ) || t < data_idx by {
                            if listed(before, t) {
                                let i = choose|i: int|
                                    0 <= i < before.len() && (#[trigger] before[i]).mantissa == t;
                                assert(bid_prices@[i].mantissa == t);
                            } else if t == data_idx {
                                assert(bid_prices@[before.len() as int].mantissa == t);
                            }
                        }
                    }
                    search_idx = data_idx;
                },
                None => {
                    exhausted = true;
                },
            }
        }

        // asks: from the best slot up, in the same way
        let mut ask_prices: Vec<Decimal> = Vec::new();
        let mut ask_quantities: Vec<Decimal> = Vec::new();
        let mut search_idx: usize = match self.best_ask {
            Some(start_idx) => start_idx,
            None => self.capacity,
        };
        let mut exhausted: bool = false;
        while ask_prices.len() < n && !exhausted
            invariant
                self.wf(),
                asks == slot_contents(self.asks),
                precision == self.price_precision,
                search_idx <= self.capacity,
                ask_prices.len() == ask_quantities.len(),
                ask_prices.len() <= n,
                forall|i: int|
                    0 <= i < ask_prices.len() ==> {
                        &&& (#[trigger] ask_prices[i]).scale == precision
                        &&& 0 <= ask_prices[i].mantissa < search_idx
                        &&& asks.contains_key(ask_prices[i].mantissa as int)
                        &&& ask_quantities[i] == asks[ask_prices[i].mantissa as int]
                    },
                forall|i: int, j: int|
                    0 <= i < j < ask_prices.len() ==> (#[trigger] ask_prices[i]).mantissa < (
                    #[trigger] ask_prices[j]).mantissa,
                ask_prices.len() > 0 ==> ask_prices[ask_prices.len() - 1].mantissa + 1
                    == search_idx,
                forall|t: int| #[trigger]
                    asks.contains_key(t) ==> listed(ask_prices@, t) || (t >= search_idx
                        && !exhausted),
            decreases
                    (if exhausted {
                        0int
                    } else {
                        self.capacity - search_idx + 1
                    }),
        {
            match slots_first_filled_from(&self.asks, search_idx) {
                Some(data_idx) => {
                    let price: Decimal = StableOrderBook::downscale(data_idx, precision);
                    let qty: Decimal = slots_value(&self.asks, data_idx);
                    let ghost before = ask_prices@;
                    ask_prices.push(price);
                    ask_quantities.push(qty);
                    proof {
                        assert forall|t: int| #[trigger] asks.contains_key(t) implies listed(
                            ask_prices@,
                            t,
                        ) || t > data_idx by {
                            if listed(before, t) {
                                let i = choose|i: int|
                                    0 <= i < before.len() && (#[trigger] before[i]).mantissa == t;
                                assert(ask_prices@[i].mantissa == t);
                            } else if t == data_idx {
                                assert(ask_prices@[before.len() as int].mantissa == t);
                            }
                        }
                    }
                    search_idx = data_idx + 1;
                },
                None => {
                    exhausted = true;
                },
            }
        }

        OrderBookSnapshot {
            ts: self.last_timestamp,
            bid_prices,
            bid_quantities,
            ask_prices,
            ask_quantities,
        }
    }

    fn best_bid(&self) -> (best: Option<u64>) {
        match self.best_bid {
            Some(index) => Some(index as u64),
            None => None,
        }
    }

    fn best_ask(&self) -> (best: Option<u64>) {
        match self.best_ask {
            Some(index) => Some(index as u64),
            None => None,
        }
    }
}

} // verus!
