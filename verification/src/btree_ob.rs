//! The ordered-index engine: each side is an ordered map from tick to
//! quantity, and the best levels are read from the map's ends.

use crate::decimal::Decimal;
use crate::key_order::lemma_increasing_keys;
use crate::key_order::lemma_tick_keys_lawful;
use crate::ob::is_ladder;
use crate::ob::listed;
use crate::ob::put_level;
use crate::ob::BookError;
use crate::ob::BookModel;
use crate::ob::OrderBook;
use crate::ob::OrderBookSnapshot;
use crate::ob::Side;
use crate::scaling::lemma_tick_nonnegative;
use crate::scaling::price_of;
use crate::scaling::tick_result;
use crate::scaling::to_price;
use crate::scaling::to_tick;
use std::collections::btree_map::Iter;
use std::collections::BTreeMap;
use vstd::prelude::*;
use vstd::std_specs::btree::spec_btree_map_iter;
use vstd::std_specs::iter::IteratorSpec;

verus! {

/// `DoubleEndedIterator::next_back` on the iterator of a `BTreeMap`: takes
/// the last of the entries that are still to come, or returns `None` when
/// none is left.
pub assume_specification<'a, K: 'a, V: 'a>[ <Iter<'a, K, V> as DoubleEndedIterator>::next_back ](
    it: &mut Iter<'a, K, V>,
) -> (ret: Option<(&'a K, &'a V)>)
    ensures
        (if (*old(it)).remaining().len() > 0 {
            (*final(it)).remaining() == (*old(it)).remaining().drop_last() && ret == Some(
                (*old(it)).remaining().last(),
            )
        } else {
            (*final(it)).remaining() == (*old(it)).remaining() && ret is None
        }),
;

/// An order book that keeps each side in an ordered map.
pub struct BTreeOrderBook {
    price_precision: u64,
    bids: BTreeMap<u64, Decimal>,
    asks: BTreeMap<u64, Decimal>,
    last_timestamp: u64,
}

/// The levels that an ordered map of one side holds.
pub open spec fn map_levels(side: Map<u64, Decimal>) -> Map<int, Decimal> {
    Map::new(|t: int| 0 <= t <= u64::MAX && side.contains_key(t as u64), |t: int| side[t as u64])
}

/// Setting a key of the map sets that tick of its levels.
proof fn lemma_map_levels_insert(side: Map<u64, Decimal>, tick: u64, qty: Decimal)
    ensures
        map_levels(side.insert(tick, qty)) == map_levels(side).insert(tick as int, qty),
{
    assert(map_levels(side.insert(tick, qty)) =~= map_levels(side).insert(tick as int, qty));
}

/// Removing a key of the map removes that tick from its levels.
proof fn lemma_map_levels_remove(side: Map<u64, Decimal>, tick: u64)
    ensures
        map_levels(side.remove(tick)) == map_levels(side).remove(tick as int),
{
    assert(map_levels(side.remove(tick)) =~= map_levels(side).remove(tick as int));
}

/// Entries are those of the map, in strictly increasing order of their keys.
spec fn entries_of(side: Map<u64, Decimal>, entries: Seq<(&u64, &Decimal)>) -> bool {
    &&& forall|i: int|
        0 <= i < entries.len() ==> side.contains_key(*(#[trigger] entries[i]).0) && side[*entries[i].0]
            == *entries[i].1
    &&& forall|i: int, j: int|
        0 <= i < j < entries.len() ==> *(#[trigger] entries[i]).0 < *(#[trigger] entries[j]).0
    &&& forall|k: u64| #[trigger]
        side.contains_key(k) ==> exists|i: int|
            0 <= i < entries.len() && *(#[trigger] entries[i]).0 == k
}

/// What a fresh iterator over a side will yield are the side's entries in order.
proof fn lemma_iter_entries(side: &BTreeMap<u64, Decimal>, it: Iter<'_, u64, Decimal>)
    requires
        it == spec_btree_map_iter(side),
        vstd::std_specs::btree::increasing_seq(
            it.remaining().map_values(|kv: (&u64, &Decimal)| *kv.0),
        ),
    ensures
        entries_of(side@, it.remaining()),
{
    broadcast use vstd::std_specs::btree::group_btree_axioms;

    let entries = it.remaining();
    let keys = entries.map_values(|kv: (&u64, &Decimal)| *kv.0);
    lemma_increasing_keys(keys);
    assert forall|i: int, j: int| 0 <= i < j < entries.len() implies *(#[trigger] entries[i]).0
        < *(#[trigger] entries[j]).0 by {
        assert(keys[i] == *entries[i].0);
        assert(keys[j] == *entries[j].0);
    }
    assert forall|k: u64| #[trigger] side@.contains_key(k) implies exists|i: int|
        0 <= i < entries.len() && *(#[trigger] entries[i]).0 == k by {
        assert(entries.contains((&k, &side@[k])));
        let i = choose|i: int| 0 <= i < entries.len() && entries[i] == (&k, &side@[k]);
        assert(*entries[i].0 == k);
    }
}

/// The first entries of a side, in order, are its ask ladder.
proof fn lemma_front_is_ladder(
    side: Map<u64, Decimal>,
    entries: Seq<(&u64, &Decimal)>,
    precision: u64,
    depth: nat,
    prices: Seq<Decimal>,
    quantities: Seq<Decimal>,
)
    requires
        entries_of(side, entries),
        prices.len() == quantities.len(),
        prices.len() <= depth,
        prices.len() <= entries.len(),
        prices.len() == depth || prices.len() == entries.len(),
        forall|i: int|
            0 <= i < prices.len() ==> {
                &&& (#[trigger] prices[i]) == price_of(*entries[i].0 as int, precision)
                &&& quantities[i] == *entries[i].1
            },
    ensures
        is_ladder(map_levels(side), precision, Side::Ask, depth, prices, quantities),
{
    let levels = map_levels(side);
    assert forall|t: int| #[trigger] levels.contains_key(t) implies listed(prices, t) || (
    prices.len() == depth && (depth > 0 ==> prices[depth - 1].mantissa < t)) by {
        let k = t as u64;
        assert(side.contains_key(k));
        let i = choose|i: int| 0 <= i < entries.len() && *(#[trigger] entries[i]).0 == k;
        if i < prices.len() {
            assert(prices[i].mantissa == t);
        } else if depth > 0 {
            assert(prices[depth - 1].mantissa == *entries[depth - 1].0);
        }
    }
}

/// The last entries of a side, in reverse order, are its bid ladder.
proof fn lemma_back_is_ladder(
    side: Map<u64, Decimal>,
    entries: Seq<(&u64, &Decimal)>,
    precision: u64,
    depth: nat,
    prices: Seq<Decimal>,
    quantities: Seq<Decimal>,
)
    requires
        entries_of(side, entries),
        prices.len() == quantities.len(),
        prices.len() <= depth,
        prices.len() <= entries.len(),
        prices.len() == depth || prices.len() == entries.len(),
        forall|i: int|
            0 <= i < prices.len() ==> {
                &&& (#[trigger] prices[i]) == price_of(
                    *entries[entries.len() - 1 - i].0 as int,
                    precision,
                )
                &&& quantities[i] == *entries[entries.len() - 1 - i].1
            },
    ensures
        is_ladder(map_levels(side), precision, Side::Bid, depth, prices, quantities),
{
    let levels = map_levels(side);
    let last = entries.len() - 1;
    assert forall|i: int, j: int| 0 <= i < j < prices.len() implies (#[trigger] prices[i]).mantissa
        > (#[trigger] prices[j]).mantissa by {
        assert(*entries[last - j].0 < *entries[last - i].0);
    }
    assert forall|t: int| #[trigger] levels.contains_key(t) implies listed(prices, t) || (
    prices.len() == depth && (depth > 0 ==> prices[depth - 1].mantissa > t)) by {
        let k = t as u64;
        assert(side.contains_key(k));
        let i = choose|i: int| 0 <= i < entries.len() && *(#[trigger] entries[i]).0 == k;
        if last - i < prices.len() {
            assert(prices[last - i].mantissa == t);
        } else if depth > 0 {
            assert(prices[depth - 1].mantissa == *entries[last - (depth - 1)].0);
        }
    }
}

impl BTreeOrderBook {
    /// An empty book with `price_precision` decimal places per tick.
    pub fn new(price_precision: u64) -> (book: Self)
        ensures
            book.wf(),
            book.model() == BookModel::empty(price_precision, u64::MAX + 1),
    {
        let book = BTreeOrderBook {
            price_precision,
            bids: BTreeMap::new(),
            asks: BTreeMap::new(),
            last_timestamp: 0,
        };
        proof {
            assert(map_levels(book.bids@) =~= Map::empty());
            assert(map_levels(book.asks@) =~= Map::empty());
        }
        book
    }

    /// The tick of a price, `floor(n * 10^precision)`.
    pub fn upscale(n: Decimal, precision: u64) -> (res: Result<u64, BookError>)
        ensures
            res == tick_result(n, precision),
    {
        to_tick(n, precision)
    }

    /// The price of a tick, `n / 10^precision`.
    pub fn downscale(n: u64, precision: u64) -> (price: Decimal)
        ensures
            price == price_of(n as int, precision),
    {
        to_price(n, precision)
    }

    /// Sets the level at tick `price` to `qty`, or removes it when `qty` is zero.
    pub fn update(side: &mut BTreeMap<u64, Decimal>, price: u64, qty: Decimal)
        ensures
            final(side)@ == (if qty.zero() {
                old(side)@.remove(price)
            } else {
                old(side)@.insert(price, qty)
            }),
            map_levels(final(side)@) == put_level(map_levels(old(side)@), price as int, qty),
    {
        proof {
            lemma_tick_keys_lawful();
            lemma_map_levels_insert(side@, price, qty);
            lemma_map_levels_remove(side@, price);
        }
        if qty.is_zero() {
            side.remove(&price);
        } else {
            side.insert(price, qty);
        }
    }
}

/// Every quantity in the map is above zero.
spec fn side_wf(side: Map<u64, Decimal>) -> bool {
    forall|k: u64| #[trigger] side.contains_key(k) ==> side[k].mantissa > 0
}

impl OrderBook for BTreeOrderBook {
    closed spec fn wf(&self) -> bool {
        &&& side_wf(self.bids@)
        &&& side_wf(self.asks@)
    }

    closed spec fn model(&self) -> BookModel {
        BookModel {
            precision: self.price_precision,
            tick_limit: u64::MAX + 1,
            bids: map_levels(self.bids@),
            asks: map_levels(self.asks@),
            last_timestamp: self.last_timestamp,
        }
    }

    proof fn lemma_model_valid(&self) {
    }

    fn add_ask(&mut self, price: Decimal, qty: Decimal, timestamp: u64) -> (res: Result<
        (),
        BookError,
    >) {
        if price.is_negative() {
            return Err(BookError::NegativePrice);
        }
        if qty.is_negative() {
            return Err(BookError::NegativeQuantity);
        }
        proof {
            lemma_tick_nonnegative(price, self.price_precision);
        }
        let price_upscale: u64 = match BTreeOrderBook::upscale(price, self.price_precision) {
            Ok(tick) => tick,
            Err(e) => {
                return Err(e);
            },
        };
        BTreeOrderBook::update(&mut self.asks, price_upscale, qty);
        self.last_timestamp = timestamp;
        Ok(())
    }

    fn add_bid(&mut self, price: Decimal, qty: Decimal, timestamp: u64) -> (res: Result<
        (),
        BookError,
    >) {
        if price.is_negative() {
            return Err(BookError::NegativePrice);
        }
        if qty.is_negative() {
            return Err(BookError::NegativeQuantity);
        }
        proof {
            lemma_tick_nonnegative(price, self.price_precision);
        }
        let price_upscale: u64 = match BTreeOrderBook::upscale(price, self.price_precision) {
            Ok(tick) => tick,
            Err(e) => {
                return Err(e);
            },
        };
        BTreeOrderBook::update(&mut self.bids, price_upscale, qty);
        self.last_timestamp = timestamp;
        Ok(())
    }

    fn get_snapshot(&self, n: usize) -> (snap: OrderBookSnapshot) {
        let precision: u64 = self.price_precision;

        // bids: from the highest key down
        let mut bid_prices: Vec<Decimal> = Vec::new();
        let mut bid_quantities: Vec<Decimal> = Vec::new();
        let mut bid_iter = self.bids.iter();
        let ghost bid_entries = bid_iter.remaining();
        proof {
            lemma_tick_keys_lawful();
            lemma_iter_entries(&self.bids, bid_iter);
        }
        let mut exhausted: bool = false;
        while bid_prices.len() < n && !exhausted
            invariant
                entries_of(self.bids@, bid_entries),
                bid_prices.len() == bid_quantities.len(),
                bid_prices.len() <= n,
                bid_prices.len() <= bid_entries.len(),
                bid_iter.remaining() == bid_entries.subrange(
                    0,
                    bid_entries.len() - bid_prices.len(),
                ),
                exhausted ==> bid_prices.len() == bid_entries.len(),
                forall|i: int|
                    0 <= i < bid_prices.len() ==> {
                        &&& (#[trigger] bid_prices[i]) == price_of(
                            *bid_entries[bid_entries.len() - 1 - i].0 as int,
                            precision,
                        )
                        &&& bid_quantities[i] == *bid_entries[bid_entries.len() - 1 - i].1
                    },
            decreases
                    (if exhausted {
                        0int
                    } else {
                        n - bid_prices.len() + 1
                    }),
        {
            match bid_iter.next_back() {
                Some(entry) => {
                    bid_prices.push(BTreeOrderBook::downscale(*entry.0, precision));
                    bid_quantities.push(*entry.1);
                },
                None => {
                    exhausted = true;
                },
            }
        }

        // asks: from the lowest key up
        let mut ask_prices: Vec<Decimal> = Vec::new();
        let mut ask_quantities: Vec<Decimal> = Vec::new();
        let ghost ask_entries = spec_btree_map_iter(&self.asks).remaining();
        let ask_iter = self.asks.iter();
        proof {
            lemma_iter_entries(&self.asks, ask_iter);
        }
        if n > 0 {
            for entry in it: ask_iter
                invariant_except_break
                    ask_prices.len() == it.index(),
                    ask_prices.len() < n,
                invariant
                    it.seq() == ask_entries,
                    ask_prices.len() == ask_quantities.len(),
                    ask_prices.len() <= n,
                    ask_prices.len() <= ask_entries.len(),
                    forall|i: int|
                        0 <= i < ask_prices.len() ==> {
                            &&& (#[trigger] ask_prices[i]) == price_of(
                                *ask_entries[i].0 as int,
                                precision,
                            )
                            &&& ask_quantities[i] == *ask_entries[i].1
                        },
                ensures
                    ask_prices.len() == n || ask_prices.len() == ask_entries.len(),
            {
                ask_prices.push(BTreeOrderBook::downscale(*entry.0, precision));
                ask_quantities.push(*entry.1);
                if ask_prices.len() >= n {
                    break;
                }
            }
        }

        proof {
            lemma_back_is_ladder(
                self.bids@,
                bid_entries,
                precision,
                n as nat,
                bid_prices@,
                bid_quantities@,
            );
            lemma_front_is_ladder(
                self.asks@,
                ask_entries,
                precision,
                n as nat,
                ask_prices@,
                ask_quantities@,
            );
        }
        OrderBookSnapshot {
            ts: self.last_timestamp,
            bid_prices,
            bid_quantities,
            ask_prices,
            ask_quantities,
        }
    }

    fn best_bid(&self) -> (best: Option<u64>) {
        let mut it = self.bids.iter();
        proof {
            lemma_tick_keys_lawful();
            lemma_iter_entries(&self.bids, it);
        }
        match it.next_back() {
            Some(entry) => Some(*entry.0),
            None => None,
        }
    }

    fn best_ask(&self) -> (best: Option<u64>) {
        let ghost entries = spec_btree_map_iter(&self.asks).remaining();
        let ask_iter = self.asks.iter();
        proof {
            lemma_tick_keys_lawful();
            lemma_iter_entries(&self.asks, ask_iter);
        }
        // the first entry, if there is one
        let mut best: Option<u64> = None;
        for entry in it: ask_iter
            invariant_except_break
                it.index() == 0,
                best is None,
            invariant
                it.seq() == entries,
            ensures
                match best {
                    Some(tick) => entries.len() > 0 && tick == *entries[0].0,
                    None => entries.len() == 0,
                },
        {
            best = Some(*entry.0);
            break;
        }
        best
    }
}

} // verus!
