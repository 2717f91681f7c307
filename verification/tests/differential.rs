use order_book::btree_ob::BTreeOrderBook;
use order_book::decimal::Decimal;
use order_book::ob::OrderBook;
use order_book::stable_ob::StableOrderBook;

/// A fixed stream of pseudo-random numbers, the same on every run.
struct Stream {
    state: u64,
}

impl Stream {
    fn next(&mut self) -> u64 {
        self.state = self
            .state
            .wrapping_mul(6364136223846793005)
            .wrapping_add(1442695040888963407);
        self.state >> 33
    }
}

fn assert_same_view(a: &BTreeOrderBook, b: &StableOrderBook, depth: usize) {
    assert_eq!(a.best_bid(), b.best_bid());
    assert_eq!(a.best_ask(), b.best_ask());
    let sa = a.get_snapshot(depth);
    let sb = b.get_snapshot(depth);
    assert_eq!(sa.ts, sb.ts);
    assert_eq!(sa.bid_prices, sb.bid_prices);
    assert_eq!(sa.bid_quantities, sb.bid_quantities);
    assert_eq!(sa.ask_prices, sb.ask_prices);
    assert_eq!(sa.ask_quantities, sb.ask_quantities);
}

#[test]
fn engines_agree_on_a_long_stream() {
    let mut rng = Stream { state: 42 };
    let mut a = BTreeOrderBook::new(2);
    let mut b = StableOrderBook::new(2, 64);
    for ts in 1..=3000u64 {
        let tick = (rng.next() % 64) as i128;
        // one update in three removes the level
        let qty = if rng.next() % 3 == 0 { 0 } else { (rng.next() % 1000 + 1) as i128 };
        let price = Decimal::new(tick, 2);
        let qty = Decimal::new(qty, 3);
        if rng.next() % 2 == 0 {
            assert_eq!(a.add_bid(price, qty, ts), Ok(()));
            assert_eq!(b.add_bid(price, qty, ts), Ok(()));
        } else {
            assert_eq!(a.add_ask(price, qty, ts), Ok(()));
            assert_eq!(b.add_ask(price, qty, ts), Ok(()));
        }
        assert_same_view(&a, &b, (ts % 7) as usize);
    }
    assert_same_view(&a, &b, 64);
    assert_same_view(&a, &b, 1000);
}

#[test]
fn snapshots_are_strictly_ordered_and_bounded() {
    let mut rng = Stream { state: 7 };
    let mut a = BTreeOrderBook::new(0);
    let mut b = StableOrderBook::new(0, 500);
    for ts in 1..=800u64 {
        let price = Decimal::new((rng.next() % 500) as i128, 0);
        let qty = Decimal::new((rng.next() % 4) as i128, 0);
        if rng.next() % 2 == 0 {
            a.add_bid(price, qty, ts).unwrap();
            b.add_bid(price, qty, ts).unwrap();
        } else {
            a.add_ask(price, qty, ts).unwrap();
            b.add_ask(price, qty, ts).unwrap();
        }
    }
    for depth in [1usize, 2, 5, 50, 1000] {
        for snap in [a.get_snapshot(depth), b.get_snapshot(depth)] {
            assert!(snap.bid_prices.len() <= depth);
            assert!(snap.ask_prices.len() <= depth);
            assert_eq!(snap.bid_prices.len(), snap.bid_quantities.len());
            assert_eq!(snap.ask_prices.len(), snap.ask_quantities.len());
            for w in snap.bid_prices.windows(2) {
                assert!(w[0].mantissa > w[1].mantissa);
            }
            for w in snap.ask_prices.windows(2) {
                assert!(w[0].mantissa < w[1].mantissa);
            }
            for q in snap.bid_quantities.iter().chain(snap.ask_quantities.iter()) {
                assert!(q.mantissa > 0);
            }
            for p in snap.bid_prices.iter().chain(snap.ask_prices.iter()) {
                assert_eq!(p.scale, 0);
            }
        }
    }
}

#[test]
fn best_tick_heads_the_snapshot() {
    let mut rng = Stream { state: 99 };
    let mut a = BTreeOrderBook::new(1);
    let mut b = StableOrderBook::new(1, 300);
    for ts in 1..=500u64 {
        let price = Decimal::new((rng.next() % 300) as i128, 1);
        let qty = Decimal::new((rng.next() % 3) as i128, 0);
        if rng.next() % 2 == 0 {
            a.add_bid(price, qty, ts).unwrap();
            b.add_bid(price, qty, ts).unwrap();
        } else {
            a.add_ask(price, qty, ts).unwrap();
            b.add_ask(price, qty, ts).unwrap();
        }
        let sa = a.get_snapshot(1);
        let sb = b.get_snapshot(1);
        assert_eq!(a.best_bid(), sa.bid_prices.first().map(|p| p.mantissa as u64));
        assert_eq!(a.best_ask(), sa.ask_prices.first().map(|p| p.mantissa as u64));
        assert_eq!(b.best_bid(), sb.bid_prices.first().map(|p| p.mantissa as u64));
        assert_eq!(b.best_ask(), sb.ask_prices.first().map(|p| p.mantissa as u64));
    }
}

#[test]
fn zero_quantity_removes_whether_present_or_not() {
    let mut a = BTreeOrderBook::new(2);
    let mut b = StableOrderBook::new(2, 20_000);
    let price = Decimal::new(10012, 2);
    let other = Decimal::new(10000, 2);
    let zero = Decimal::new(0, 0);
    // the level was never there
    a.add_bid(other, Decimal::new(1, 0), 1).unwrap();
    b.add_bid(other, Decimal::new(1, 0), 1).unwrap();
    a.add_bid(price, zero, 2).unwrap();
    b.add_bid(price, zero, 2).unwrap();
    assert!(!a.get_snapshot(10).bid_prices.contains(&price));
    assert!(!b.get_snapshot(10).bid_prices.contains(&price));
    // the level is there
    a.add_bid(price, Decimal::new(5, 0), 3).unwrap();
    b.add_bid(price, Decimal::new(5, 0), 3).unwrap();
    assert!(a.get_snapshot(10).bid_prices.contains(&price));
    assert!(b.get_snapshot(10).bid_prices.contains(&price));
    a.add_bid(price, zero, 4).unwrap();
    b.add_bid(price, zero, 4).unwrap();
    assert!(!a.get_snapshot(10).bid_prices.contains(&price));
    assert!(!b.get_snapshot(10).bid_prices.contains(&price));
    assert_eq!(a.get_snapshot(10).bid_prices, vec![other]);
    assert_eq!(b.get_snapshot(10).bid_prices, vec![other]);
}

#[test]
fn snapshot_length_is_depth_or_level_count() {
    let mut a = BTreeOrderBook::new(0);
    let mut b = StableOrderBook::new(0, 100);
    for tick in [10i128, 20, 30, 40] {
        a.add_ask(Decimal::new(tick, 0), Decimal::new(1, 0), 1).unwrap();
        b.add_ask(Decimal::new(tick, 0), Decimal::new(1, 0), 1).unwrap();
    }
    for (depth, expected) in [(0usize, 0usize), (1, 1), (3, 3), (4, 4), (5, 4), (99, 4)] {
        assert_eq!(a.get_snapshot(depth).ask_prices.len(), expected);
        assert_eq!(b.get_snapshot(depth).ask_prices.len(), expected);
        assert_eq!(a.get_snapshot(depth).bid_prices.len(), 0);
        assert_eq!(b.get_snapshot(depth).bid_prices.len(), 0);
    }
}
