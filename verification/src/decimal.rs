//! Exact decimal numbers for prices and quantities.

use vstd::prelude::*;

verus! {

/// The decimal number `mantissa / 10^scale`.
///
/// Two decimals are equal with `==` when both fields agree; `1.50` and `1.5`
/// are different representations of one value (see [`Decimal::same_value`]).
#[derive(Clone, Copy, Debug, PartialEq, Eq, Structural)]
pub struct Decimal {
    pub mantissa: i128,
    pub scale: u64,
}

/// `10^e`.
pub open spec fn pow10(e: nat) -> int
    decreases e,
{
    if e == 0 {
        1
    } else {
        10 * pow10((e - 1) as nat)
    }
}

/// Every power of ten is at least one.
pub proof fn lemma_pow10_positive(e: nat)
    ensures
        pow10(e) >= 1,
    decreases e,
{
    if e > 0 {
        lemma_pow10_positive((e - 1) as nat);
    }
}

/// `10^(a + b) == 10^a * 10^b`.
pub proof fn lemma_pow10_adds(a: nat, b: nat)
    ensures
        pow10(a + b) == pow10(a) * pow10(b),
    decreases a,
{
    if a == 0 {
        assert(pow10(0) == 1);
        assert(1 * pow10(b) == pow10(b));
    } else {
        lemma_pow10_adds((a - 1) as nat, b);
        let x = pow10((a - 1) as nat);
        let y = pow10(b);
        assert(pow10(a + b) == 10 * pow10((a - 1 + b) as nat));
        assert(10 * (x * y) == (10 * x) * y) by (nonlinear_arith);
    }
}

impl Decimal {
    /// Whether the value is exactly zero.
    pub open spec fn zero(self) -> bool {
        self.mantissa == 0
    }

    /// Whether the value is below zero.
    pub open spec fn negative(self) -> bool {
        self.mantissa < 0
    }

    /// Whether two decimals denote the same number, whatever their scales.
    pub open spec fn same_value(self, other: Decimal) -> bool {
        self.mantissa * pow10(other.scale as nat) == other.mantissa * pow10(self.scale as nat)
    }

    pub fn new(mantissa: i128, scale: u64) -> (d: Decimal)
        ensures
            d.mantissa == mantissa,
            d.scale == scale,
    {
        Decimal { mantissa, scale }
    }

    pub fn is_zero(&self) -> (z: bool)
        ensures
            z == self.zero(),
    {
        self.mantissa == 0
    }

    pub fn is_negative(&self) -> (neg: bool)
        ensures
            neg == self.negative(),
    {
        self.mantissa < 0
    }
}

} // verus!
