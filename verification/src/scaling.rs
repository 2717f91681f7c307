//! Fixed-point scaling between decimal prices and integer ticks.

use crate::decimal::lemma_pow10_adds;
use crate::decimal::lemma_pow10_positive;
use crate::decimal::pow10;
use crate::decimal::Decimal;
use crate::ob::BookError;
use vstd::arithmetic::div_mod::lemma_div_denominator;
use vstd::arithmetic::div_mod::lemma_div_multiples_vanish;
use vstd::arithmetic::div_mod::lemma_div_pos_is_pos;
use vstd::arithmetic::div_mod::lemma_div_multiples_vanish_quotient;
use vstd::arithmetic::div_mod::lemma_fundamental_div_mod;
use vstd::prelude::*;

verus! {

/// The largest tick a 64-bit unsigned integer can hold.
pub const MAX_TICK: i128 = 0xFFFF_FFFF_FFFF_FFFF;

/// The tick of a non-negative price: `floor(price * 10^precision)`.
pub open spec fn tick_of(price: Decimal, precision: u64) -> int {
    (price.mantissa * pow10(precision as nat)) / pow10(price.scale as nat)
}

/// The price that a tick stands for: `tick / 10^precision`.
pub open spec fn price_of(tick: int, precision: u64) -> Decimal {
    Decimal { mantissa: tick as i128, scale: precision }
}

/// Whether a price has no digits beyond `precision` decimal places.
pub open spec fn exact_at(price: Decimal, precision: u64) -> bool {
    ((price.mantissa * pow10(precision as nat)) % pow10(price.scale as nat)) == 0
}

/// What scaling a price to a tick yields: the tick, or the reason there is none.
pub open spec fn tick_result(price: Decimal, precision: u64) -> Result<u64, BookError> {
    if price.negative() {
        Err(BookError::NegativePrice)
    } else if tick_of(price, precision) > u64::MAX {
        Err(BookError::TickOutOfRange)
    } else {
        Ok(tick_of(price, precision) as u64)
    }
}

/// The tick of a price that is not negative is not negative either.
pub proof fn lemma_tick_nonnegative(price: Decimal, precision: u64)
    requires
        !price.negative(),
    ensures
        tick_of(price, precision) >= 0,
{
    lemma_pow10_positive(precision as nat);
    lemma_pow10_positive(price.scale as nat);
    let x = price.mantissa * pow10(precision as nat);
    assert(x >= 0) by (nonlinear_arith)
        requires
            x == price.mantissa * pow10(precision as nat),
            price.mantissa >= 0,
            pow10(precision as nat) >= 1,
    ;
    lemma_div_pos_is_pos(x, pow10(price.scale as nat));
}

/// When the price has no more decimal places than the precision, its tick is
/// the mantissa with the missing places filled by zeros.
proof fn lemma_tick_of_widening(price: Decimal, precision: u64)
    requires
        price.scale <= precision,
    ensures
        tick_of(price, precision) == price.mantissa * pow10((precision - price.scale) as nat),
{
    let s = price.scale as nat;
    let k = (precision - price.scale) as nat;
    lemma_pow10_adds(s, k);
    lemma_pow10_positive(s);
    let m = price.mantissa as int;
    let ps = pow10(s);
    let pk = pow10(k);
    assert(m * (ps * pk) == ps * (m * pk)) by (nonlinear_arith);
    lemma_div_multiples_vanish(m * pk, ps);
}

/// When the price has more decimal places than the precision, its tick is the
/// mantissa with the surplus places cut off.
proof fn lemma_tick_of_narrowing(price: Decimal, precision: u64)
    requires
        price.scale > precision,
        price.mantissa >= 0,
    ensures
        tick_of(price, precision) == (price.mantissa as int) / pow10((price.scale - precision) as nat),
{
    let p = precision as nat;
    let k = (price.scale - precision) as nat;
    lemma_pow10_adds(p, k);
    lemma_pow10_positive(p);
    lemma_pow10_positive(k);
    lemma_div_multiples_vanish_quotient(pow10(p), price.mantissa as int, pow10(k));
    assert(price.mantissa * pow10(p) == pow10(p) * price.mantissa) by (nonlinear_arith);
}

/// Scales a decimal price to its tick, `floor(price * 10^precision)`.
///
/// A negative price has no tick, nor has one whose tick exceeds 64 bits.
pub fn to_tick(price: Decimal, precision: u64) -> (res: Result<u64, BookError>)
    ensures
        res == tick_result(price, precision),
{
    if price.mantissa < 0 {
        return Err(BookError::NegativePrice);
    }
    let mut t: i128 = price.mantissa;
    if price.scale <= precision {
        let places: u64 = precision - price.scale;
        let mut k: u64 = places;
        proof {
            lemma_tick_of_widening(price, precision);
            lemma_pow10_positive(places as nat);
            assert(t * pow10(places as nat) >= t) by (nonlinear_arith)
                requires
                    t >= 0,
                    pow10(places as nat) >= 1,
            ;
        }
        if t > MAX_TICK {
            return Err(BookError::TickOutOfRange);
        }
        while k > 0 && t > 0
            invariant
                0 <= t <= MAX_TICK,
                k <= places,
                t * pow10(k as nat) == price.mantissa * pow10(places as nat),
                tick_of(price, precision) == price.mantissa * pow10(places as nat),
                !price.negative(),
            decreases k,
        {
            proof {
                lemma_pow10_positive((k - 1) as nat);
                let rest = pow10((k - 1) as nat);
                assert(t * (10 * rest) == (t * 10) * rest) by (nonlinear_arith);
                assert((t * 10) * rest >= t * 10) by (nonlinear_arith)
                    requires
                        t >= 0,
                        rest >= 1,
                ;
            }
            if t > MAX_TICK / 10 {
                return Err(BookError::TickOutOfRange);
            }
            t = t * 10;
            k = k - 1;
        }
        proof {
            if k == 0 {
                assert(t * pow10(0) == t);
            } else {
                assert(t == 0);
                assert(0 * pow10(k as nat) == 0);
            }
        }
    } else {
        let places: u64 = price.scale - precision;
        let mut k: u64 = places;
        proof {
            lemma_tick_of_narrowing(price, precision);
        }
        while k > 0 && t > 0
            invariant
                0 <= t,
                k <= places,
                (t as int) / pow10(k as nat) == (price.mantissa as int) / pow10(places as nat),
            decreases k,
        {
            proof {
                lemma_pow10_positive((k - 1) as nat);
                lemma_div_denominator(t as int, 10, pow10((k - 1) as nat));
            }
            t = t / 10;
            k = k - 1;
        }
        proof {
            if k == 0 {
                assert((t as int) / pow10(0) == t);
            } else {
                lemma_pow10_positive(k as nat);
                assert(0int / pow10(k as nat) == 0);
            }
        }
        if t > MAX_TICK {
            return Err(BookError::TickOutOfRange);
        }
    }
    Ok(t as u64)
}

/// The decimal price of a tick, `tick / 10^precision`.
pub fn to_price(tick: u64, precision: u64) -> (price: Decimal)
    ensures
        price == price_of(tick as int, precision),
{
    Decimal { mantissa: tick as i128, scale: precision }
}

/// Scaling a price that is exact at the precision to its tick and back gives
/// the same number.
pub proof fn lemma_price_round_trip(price: Decimal, precision: u64)
    requires
        exact_at(price, precision),
        tick_result(price, precision) is Ok,
    ensures
        price_of(tick_of(price, precision), precision).same_value(price),
{
    lemma_pow10_positive(price.scale as nat);
    lemma_fundamental_div_mod(
        price.mantissa * pow10(precision as nat),
        pow10(price.scale as nat),
    );
    lemma_tick_nonnegative(price, precision);
    let t = tick_of(price, precision);
    let d = pow10(price.scale as nat);
    assert(d * t == t * d) by (nonlinear_arith);
}

/// Turning a tick into a price and scaling that price again gives the tick.
pub proof fn lemma_tick_round_trip(tick: u64, precision: u64)
    ensures
        tick_result(price_of(tick as int, precision), precision) == Ok::<u64, BookError>(tick),
{
    lemma_pow10_positive(precision as nat);
    let d = pow10(precision as nat);
    assert(tick * d == d * tick) by (nonlinear_arith);
    lemma_div_multiples_vanish(tick as int, d);
}

} // verus!
