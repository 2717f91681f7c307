use order_book::btree_ob::BTreeOrderBook;
use order_book::decimal::Decimal;
use order_book::ob::OrderBook;
use order_book::stable_ob::StableOrderBook;

fn dec(mantissa: i128, scale: u64) -> Decimal {
    Decimal::new(mantissa, scale)
}

#[test]
fn btree_removed_bid_leaves_only_the_ask() {
    let mut book = BTreeOrderBook::new(2);
    assert_eq!(book.add_bid(dec(10012, 2), dec(15, 1), 1), Ok(()));
    assert_eq!(book.add_ask(dec(10015, 2), dec(20, 1), 2), Ok(()));
    assert_eq!(book.add_bid(dec(10012, 2), dec(0, 1), 3), Ok(()));
    let snap = book.get_snapshot(5);
    assert_eq!(snap.ts, 3);
    assert_eq!(snap.bid_prices, Vec::<Decimal>::new());
    assert_eq!(snap.bid_quantities, Vec::<Decimal>::new());
    assert_eq!(snap.ask_prices, vec![dec(10015, 2)]);
    assert_eq!(snap.ask_quantities, vec![dec(20, 1)]);
}

#[test]
fn stable_removed_bid_leaves_only_the_ask() {
    let mut book = StableOrderBook::new(2, 20_000);
    assert_eq!(book.add_bid(dec(10012, 2), dec(15, 1), 1), Ok(()));
    assert_eq!(book.add_ask(dec(10015, 2), dec(20, 1), 2), Ok(()));
    assert_eq!(book.add_bid(dec(10012, 2), dec(0, 1), 3), Ok(()));
    let snap = book.get_snapshot(5);
    assert_eq!(snap.ts, 3);
    assert_eq!(snap.bid_prices, Vec::<Decimal>::new());
    assert_eq!(snap.bid_quantities, Vec::<Decimal>::new());
    assert_eq!(snap.ask_prices, vec![dec(10015, 2)]);
    assert_eq!(snap.ask_quantities, vec![dec(20, 1)]);
}
