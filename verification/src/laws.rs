//! What follows from the book contract, whatever engine stands behind it.

use crate::decimal::Decimal;
use crate::ob::better;
use crate::ob::is_best;
use crate::ob::is_ladder;
use crate::ob::levels_valid;
use crate::ob::listed;
use crate::ob::BookModel;
use crate::ob::OrderBookSnapshot;
use crate::ob::Side;
use crate::scaling::lemma_tick_nonnegative;
use crate::scaling::tick_of;
use vstd::prelude::*;
use vstd::set_lib::lemma_int_range;
use vstd::set_lib::lemma_len_subset;
use vstd::set_lib::set_int_range;

verus! {

/// One update of the stream that feeds a book.
pub struct Update {
    pub side: Side,
    pub price: Decimal,
    pub qty: Decimal,
    pub ts: u64,
}

/// The book after a stream of updates, applied in order.
pub open spec fn replay(book: BookModel, updates: Seq<Update>) -> BookModel
    decreases updates.len(),
{
    if updates.len() == 0 {
        book
    } else {
        let u = updates.last();
        replay(book, updates.drop_last()).apply(u.side, u.price, u.qty, u.ts)
    }
}

/// Whether two books hold the same levels and timestamp at the same
/// precision. Their tick limits may differ.
pub open spec fn same_book(a: BookModel, b: BookModel) -> bool {
    &&& a.precision == b.precision
    &&& a.bids == b.bids
    &&& a.asks == b.asks
    &&& a.last_timestamp == b.last_timestamp
}

/// An update leaves a valid book valid: no level rests at quantity zero or
/// outside the addressable ticks.
pub proof fn lemma_apply_keeps_valid(
    book: BookModel,
    side: Side,
    price: Decimal,
    qty: Decimal,
    ts: u64,
)
    requires
        book.valid(),
    ensures
        book.apply(side, price, qty, ts).valid(),
{
    if book.check(price, qty) is Ok {
        lemma_tick_nonnegative(price, book.precision);
    }
}

/// A stream of updates leaves a valid book valid.
pub proof fn lemma_replay_keeps_valid(book: BookModel, updates: Seq<Update>)
    requires
        book.valid(),
    ensures
        replay(book, updates).valid(),
    decreases updates.len(),
{
    if updates.len() > 0 {
        let u = updates.last();
        lemma_replay_keeps_valid(book, updates.drop_last());
        lemma_apply_keeps_valid(replay(book, updates.drop_last()), u.side, u.price, u.qty, u.ts);
    }
}

/// Two books that start alike and are fed the same stream end alike, as long
/// as both can address every tick of the stream.
pub proof fn lemma_replay_agrees(a: BookModel, b: BookModel, updates: Seq<Update>)
    requires
        same_book(a, b),
        forall|i: int|
            0 <= i < updates.len() ==> {
                &&& tick_of((#[trigger] updates[i]).price, a.precision) < a.tick_limit
                &&& tick_of(updates[i].price, a.precision) < b.tick_limit
            },
    ensures
        same_book(replay(a, updates), replay(b, updates)),
        replay(a, updates).tick_limit == a.tick_limit,
        replay(b, updates).tick_limit == b.tick_limit,
    decreases updates.len(),
{
    if updates.len() > 0 {
        let rest = updates.drop_last();
        assert forall|i: int| 0 <= i < rest.len() implies {
            &&& tick_of((#[trigger] rest[i]).price, a.precision) < a.tick_limit
            &&& tick_of(rest[i].price, a.precision) < b.tick_limit
        } by {
            assert(rest[i] == updates[i]);
        }
        lemma_replay_agrees(a, b, rest);
        lemma_replay_keeps_precision(a, rest);
        lemma_replay_keeps_precision(b, rest);
        assert(updates.last() == updates[updates.len() - 1]);
    }
}

/// Updates change neither the precision nor the tick limit of a book.
pub proof fn lemma_replay_keeps_precision(book: BookModel, updates: Seq<Update>)
    ensures
        replay(book, updates).precision == book.precision,
        replay(book, updates).tick_limit == book.tick_limit,
    decreases updates.len(),
{
    if updates.len() > 0 {
        lemma_replay_keeps_precision(book, updates.drop_last());
    }
}

/// A side has one best tick at most: two answers that both name the best
/// occupied tick are the same answer.
pub proof fn lemma_best_unique(
    levels: Map<int, Decimal>,
    side: Side,
    a: Option<u64>,
    b: Option<u64>,
)
    requires
        is_best(levels, side, a),
        is_best(levels, side, b),
    ensures
        a == b,
{
    match (a, b) {
        (Some(x), Some(y)) => {
            assert(levels.contains_key(x as int));
            assert(levels.contains_key(y as int));
        },
        (Some(x), None) => {
            assert(levels.contains_key(x as int));
        },
        (None, Some(y)) => {
            assert(levels.contains_key(y as int));
        },
        (None, None) => {},
    }
}

/// The best tick of a side heads every ladder of that side that has room
/// for a level.
pub proof fn lemma_best_heads_ladder(
    levels: Map<int, Decimal>,
    precision: u64,
    side: Side,
    depth: nat,
    prices: Seq<Decimal>,
    quantities: Seq<Decimal>,
    best: Option<u64>,
)
    requires
        depth > 0,
        is_best(levels, side, best),
        is_ladder(levels, precision, side, depth, prices, quantities),
    ensures
        match best {
            Some(tick) => prices.len() > 0 && prices[0].mantissa == tick,
            None => prices.len() == 0,
        },
{
    match best {
        Some(tick) => {
            let t = tick as int;
            assert(levels.contains_key(t));
            if listed(prices, t) {
                let i = choose|i: int| 0 <= i < prices.len() && (#[trigger] prices[i]).mantissa == t;
                if i > 0 {
                    assert(better(side, prices[0].mantissa as int, prices[i].mantissa as int));
                    assert(levels.contains_key(prices[0].mantissa as int));
                }
            } else {
                assert(levels.contains_key(prices[depth - 1].mantissa as int));
            }
        },
        None => {
            if prices.len() > 0 {
                assert(levels.contains_key(prices[0].mantissa as int));
            }
        },
    }
}

/// In two ladders of one side that agree before position `i`, the first
/// ladder's entry at `i` is not better than the second's.
proof fn lemma_entry_not_better(
    levels: Map<int, Decimal>,
    precision: u64,
    side: Side,
    depth: nat,
    prices_a: Seq<Decimal>,
    qtys_a: Seq<Decimal>,
    prices_b: Seq<Decimal>,
    qtys_b: Seq<Decimal>,
    i: int,
)
    requires
        is_ladder(levels, precision, side, depth, prices_a, qtys_a),
        is_ladder(levels, precision, side, depth, prices_b, qtys_b),
        0 <= i < prices_a.len(),
        i < prices_b.len(),
        forall|j: int| 0 <= j < i ==> prices_a[j] == prices_b[j],
    ensures
        !better(side, prices_a[i].mantissa as int, prices_b[i].mantissa as int),
{
    let a = prices_a[i].mantissa as int;
    assert(levels.contains_key(a));
    if listed(prices_b, a) {
        let j = choose|j: int| 0 <= j < prices_b.len() && (#[trigger] prices_b[j]).mantissa == a;
        if j < i {
            assert(prices_a[j] == prices_b[j]);
            assert(better(side, prices_a[j].mantissa as int, prices_a[i].mantissa as int));
        } else if j > i {
            assert(better(side, prices_b[i].mantissa as int, prices_b[j].mantissa as int));
        }
    } else {
        if i < depth - 1 {
            assert(better(side, prices_b[i].mantissa as int, prices_b[depth - 1].mantissa as int));
        }
    }
}

/// Two ladders of one side agree on their first `k` entries.
proof fn lemma_ladder_prefix(
    levels: Map<int, Decimal>,
    precision: u64,
    side: Side,
    depth: nat,
    prices_a: Seq<Decimal>,
    qtys_a: Seq<Decimal>,
    prices_b: Seq<Decimal>,
    qtys_b: Seq<Decimal>,
    k: int,
)
    requires
        is_ladder(levels, precision, side, depth, prices_a, qtys_a),
        is_ladder(levels, precision, side, depth, prices_b, qtys_b),
        0 <= k <= prices_a.len(),
        k <= prices_b.len(),
    ensures
        forall|j: int| 0 <= j < k ==> prices_a[j] == prices_b[j] && qtys_a[j] == qtys_b[j],
    decreases k,
{
    if k > 0 {
        lemma_ladder_prefix(levels, precision, side, depth, prices_a, qtys_a, prices_b, qtys_b, k - 1);
        lemma_entry_not_better(levels, precision, side, depth, prices_a, qtys_a, prices_b, qtys_b, k - 1);
        lemma_entry_not_better(levels, precision, side, depth, prices_b, qtys_b, prices_a, qtys_a, k - 1);
        assert(prices_a[k - 1].mantissa == prices_b[k - 1].mantissa);
        assert(prices_a[k - 1].scale == prices_b[k - 1].scale);
    }
}

/// Of two ladders of one side, the first is not the shorter.
proof fn lemma_ladder_not_shorter(
    levels: Map<int, Decimal>,
    precision: u64,
    side: Side,
    depth: nat,
    prices_a: Seq<Decimal>,
    qtys_a: Seq<Decimal>,
    prices_b: Seq<Decimal>,
    qtys_b: Seq<Decimal>,
)
    requires
        is_ladder(levels, precision, side, depth, prices_a, qtys_a),
        is_ladder(levels, precision, side, depth, prices_b, qtys_b),
    ensures
        prices_a.len() >= prices_b.len(),
{
    if prices_a.len() < prices_b.len() {
        let k = prices_a.len() as int;
        lemma_ladder_prefix(levels, precision, side, depth, prices_a, qtys_a, prices_b, qtys_b, k);
        let b = prices_b[k].mantissa as int;
        assert(levels.contains_key(b));
        assert(listed(prices_a, b));
        let j = choose|j: int| 0 <= j < prices_a.len() && (#[trigger] prices_a[j]).mantissa == b;
        assert(prices_a[j] == prices_b[j]);
        assert(better(side, prices_b[j].mantissa as int, prices_b[k].mantissa as int));
    }
}

/// A side has exactly one ladder at a given depth.
pub proof fn lemma_ladder_unique(
    levels: Map<int, Decimal>,
    precision: u64,
    side: Side,
    depth: nat,
    prices_a: Seq<Decimal>,
    qtys_a: Seq<Decimal>,
    prices_b: Seq<Decimal>,
    qtys_b: Seq<Decimal>,
)
    requires
        is_ladder(levels, precision, side, depth, prices_a, qtys_a),
        is_ladder(levels, precision, side, depth, prices_b, qtys_b),
    ensures
        prices_a == prices_b,
        qtys_a == qtys_b,
{
    lemma_ladder_not_shorter(levels, precision, side, depth, prices_a, qtys_a, prices_b, qtys_b);
    lemma_ladder_not_shorter(levels, precision, side, depth, prices_b, qtys_b, prices_a, qtys_a);
    lemma_ladder_prefix(levels, precision, side, depth, prices_a, qtys_a, prices_b, qtys_b, prices_a.len() as int);
    assert(prices_a =~= prices_b);
    assert(qtys_a =~= qtys_b);
}

/// Books that hold the same levels give the same snapshot, whichever engine
/// each of them is.
pub proof fn lemma_snapshot_unique(
    a: BookModel,
    b: BookModel,
    depth: nat,
    snap_a: OrderBookSnapshot,
    snap_b: OrderBookSnapshot,
)
    requires
        same_book(a, b),
        a.has_snapshot(depth, snap_a),
        b.has_snapshot(depth, snap_b),
    ensures
        snap_a.ts == snap_b.ts,
        snap_a.bid_prices@ == snap_b.bid_prices@,
        snap_a.bid_quantities@ == snap_b.bid_quantities@,
        snap_a.ask_prices@ == snap_b.ask_prices@,
        snap_a.ask_quantities@ == snap_b.ask_quantities@,
{
    lemma_ladder_unique(
        a.bids,
        a.precision,
        Side::Bid,
        depth,
        snap_a.bid_prices@,
        snap_a.bid_quantities@,
        snap_b.bid_prices@,
        snap_b.bid_quantities@,
    );
    lemma_ladder_unique(
        a.asks,
        a.precision,
        Side::Ask,
        depth,
        snap_a.ask_prices@,
        snap_a.ask_quantities@,
        snap_b.ask_prices@,
        snap_b.ask_quantities@,
    );
}

/// An accepted update with quantity zero leaves no level at its tick,
/// whether or not one was there, and a ladder taken from the side
/// afterwards does not list that tick.
pub proof fn lemma_zero_quantity_removes(
    book: BookModel,
    side: Side,
    price: Decimal,
    qty: Decimal,
    ts: u64,
    depth: nat,
    prices: Seq<Decimal>,
    quantities: Seq<Decimal>,
)
    requires
        qty.zero(),
        book.check(price, qty) is Ok,
        is_ladder(
            book.apply(side, price, qty, ts).levels(side),
            book.precision,
            side,
            depth,
            prices,
            quantities,
        ),
    ensures
        !book.apply(side, price, qty, ts).levels(side).contains_key(tick_of(price, book.precision)),
        !listed(prices, tick_of(price, book.precision)),
{
    let tick = tick_of(price, book.precision);
    lemma_tick_nonnegative(price, book.precision);
    assert forall|i: int| 0 <= i < prices.len() implies (#[trigger] prices[i]).mantissa
        != tick by {
        assert(book.apply(side, price, qty, ts).levels(side).contains_key(
            prices[i].mantissa as int,
        ));
    }
}

/// The ticks that a ladder lists.
pub open spec fn ladder_ticks(prices: Seq<Decimal>) -> Seq<int> {
    Seq::new(prices.len(), |i: int| prices[i].mantissa as int)
}

/// A ladder is as long as its depth allows and the side has levels: it
/// holds `depth` entries, or every level of a side that has fewer.
pub proof fn lemma_ladder_length(
    levels: Map<int, Decimal>,
    tick_limit: int,
    precision: u64,
    side: Side,
    depth: nat,
    prices: Seq<Decimal>,
    quantities: Seq<Decimal>,
)
    requires
        levels_valid(levels, tick_limit),
        is_ladder(levels, precision, side, depth, prices, quantities),
    ensures
        levels.dom().finite(),
        prices.len() == (if depth <= levels.dom().len() {
            depth
        } else {
            levels.dom().len()
        }),
{
    let dom = levels.dom();
    if tick_limit > 0 {
        lemma_int_range(0, tick_limit);
        assert(dom.subset_of(set_int_range(0, tick_limit))) by {
            assert forall|t: int| dom.contains(t) implies set_int_range(0, tick_limit).contains(
                t,
            ) by {
                assert(levels.contains_key(t));
            }
        }
        lemma_len_subset(dom, set_int_range(0, tick_limit));
    } else {
        assert(dom =~= Set::empty()) by {
            assert forall|t: int| !dom.contains(t) by {
                if dom.contains(t) {
                    assert(levels.contains_key(t));
                }
            }
        }
    }
    let ticks = ladder_ticks(prices);
    assert(ticks.no_duplicates()) by {
        assert forall|i: int, j: int| 0 <= i < ticks.len() && 0 <= j < ticks.len() && i != j implies ticks[i]
            != ticks[j] by {
            if i < j {
                assert(better(side, prices[i].mantissa as int, prices[j].mantissa as int));
            } else {
                assert(better(side, prices[j].mantissa as int, prices[i].mantissa as int));
            }
        }
    }
    ticks.unique_seq_to_set();
    let listed_ticks = ticks.to_set();
    assert(listed_ticks.subset_of(dom)) by {
        assert forall|t: int| listed_ticks.contains(t) implies dom.contains(t) by {
            let i = choose|i: int| 0 <= i < ticks.len() && ticks[i] == t;
            assert(levels.contains_key(prices[i].mantissa as int));
        }
    }
    lemma_len_subset(listed_ticks, dom);
    if prices.len() < depth {
        assert(dom.subset_of(listed_ticks)) by {
            assert forall|t: int| dom.contains(t) implies listed_ticks.contains(t) by {
                assert(levels.contains_key(t));
                assert(listed(prices, t));
                let i = choose|i: int| 0 <= i < prices.len() && (#[trigger] prices[i]).mantissa == t;
                assert(ticks[i] == t);
            }
        }
        assert(dom =~= listed_ticks);
    }
}

} // verus!
