use order_book::btree_ob::BTreeOrderBook;
use order_book::decimal::Decimal;
use order_book::ob::BookError;
use order_book::scaling::to_price;
use order_book::scaling::to_tick;
use order_book::stable_ob::StableOrderBook;

#[test]
fn tick_of_exact_price() {
    assert_eq!(to_tick(Decimal::new(10012, 2), 2), Ok(10012));
    assert_eq!(BTreeOrderBook::upscale(Decimal::new(10012, 2), 2), Ok(10012));
    assert_eq!(StableOrderBook::upscale(Decimal::new(10012, 2), 2), Ok(10012));
}

#[test]
fn tick_fills_missing_places_with_zeros() {
    assert_eq!(to_tick(Decimal::new(10, 0), 2), Ok(1000));
    assert_eq!(to_tick(Decimal::new(1001, 1), 3), Ok(100100));
    assert_eq!(StableOrderBook::upscale(Decimal::new(7, 0), 1), Ok(70));
}

#[test]
fn tick_cuts_surplus_places() {
    assert_eq!(to_tick(Decimal::new(100129, 3), 2), Ok(10012));
    assert_eq!(to_tick(Decimal::new(1, 3), 2), Ok(0));
    assert_eq!(to_tick(Decimal::new(999, 3), 0), Ok(0));
    assert_eq!(to_tick(Decimal::new(1999, 3), 0), Ok(1));
}

#[test]
fn tick_of_zero_at_any_precision() {
    assert_eq!(to_tick(Decimal::new(0, 0), u64::MAX), Ok(0));
    assert_eq!(to_tick(Decimal::new(0, u64::MAX), 0), Ok(0));
    assert_eq!(to_tick(Decimal::new(5, u64::MAX), 0), Ok(0));
}

#[test]
fn negative_price_has_no_tick() {
    assert_eq!(to_tick(Decimal::new(-1, 0), 0), Err(BookError::NegativePrice));
    assert_eq!(
        BTreeOrderBook::upscale(Decimal::new(-10012, 2), 2),
        Err(BookError::NegativePrice)
    );
    assert_eq!(
        StableOrderBook::upscale(Decimal::new(-10012, 2), 2),
        Err(BookError::NegativePrice)
    );
}

#[test]
fn tick_beyond_64_bits_is_out_of_range() {
    let max = u64::MAX as i128;
    assert_eq!(to_tick(Decimal::new(max, 0), 0), Ok(u64::MAX));
    assert_eq!(to_tick(Decimal::new(max + 1, 0), 0), Err(BookError::TickOutOfRange));
    assert_eq!(to_tick(Decimal::new(2, 0), 20), Err(BookError::TickOutOfRange));
    assert_eq!(to_tick(Decimal::new(1, 0), 19), Ok(10_000_000_000_000_000_000));
    assert_eq!(to_tick(Decimal::new(max, 0), 1), Err(BookError::TickOutOfRange));
    assert_eq!(to_tick(Decimal::new(i128::MAX, 0), 0), Err(BookError::TickOutOfRange));
    assert_eq!(to_tick(Decimal::new(i128::MAX, 30), 0), Ok(170141183));
}

#[test]
fn price_of_tick() {
    assert_eq!(to_price(10015, 2), Decimal::new(10015, 2));
    assert_eq!(BTreeOrderBook::downscale(10015, 2), Decimal::new(10015, 2));
    assert_eq!(StableOrderBook::downscale(10015, 2), Decimal::new(10015, 2));
    assert_eq!(BTreeOrderBook::downscale(0, 0), Decimal::new(0, 0));
}

#[test]
fn price_survives_round_trip() {
    let price = Decimal::new(10012, 2);
    let tick = BTreeOrderBook::upscale(price, 2).unwrap();
    assert_eq!(BTreeOrderBook::downscale(tick, 2), price);
    let index = StableOrderBook::upscale(price, 2).unwrap();
    assert_eq!(StableOrderBook::downscale(index, 2), price);
}

#[test]
fn coarser_price_round_trips_to_same_value() {
    // 100.1 at precision 2 comes back as 100.10: the same number.
    let tick = BTreeOrderBook::upscale(Decimal::new(1001, 1), 2).unwrap();
    assert_eq!(tick, 10010);
    let back = BTreeOrderBook::downscale(tick, 2);
    assert_eq!(back, Decimal::new(10010, 2));
    assert_eq!(back.mantissa * 10, 1001 * 100);
}

#[test]
fn tick_survives_round_trip() {
    for tick in [0u64, 1, 99, 10012, u64::MAX] {
        assert_eq!(BTreeOrderBook::upscale(BTreeOrderBook::downscale(tick, 2), 2), Ok(tick));
    }
}

#[test]
fn decimal_sign_and_zero() {
    assert!(Decimal::new(0, 3).is_zero());
    assert!(!Decimal::new(1, 3).is_zero());
    assert!(Decimal::new(-1, 0).is_negative());
    assert!(!Decimal::new(0, 0).is_negative());
    assert!(!Decimal::new(5, 0).is_negative());
    let d = Decimal::new(-42, 7);
    assert_eq!(d.mantissa, -42);
    assert_eq!(d.scale, 7);
}
