//! Fixed-point value type used for prices, liquidity and fee accumulators.
//!
//! A `Decimal` stores `value * 10^12` in an unsigned 128-bit integer. All
//! arithmetic is checked: callers must show that no operation overflows or
//! underflows, so a verified caller can never wrap silently.

use vstd::prelude::*;

verus! {

/// Scale factor of the fixed-point representation: one whole unit.
pub const DENOMINATOR: u128 = 1_000_000_000_000;

/// Number of decimal places carried by the representation.
pub const SCALE: u8 = 12;

/// Fixed-point number with `SCALE` decimal places, backed by a `u128`.
#[derive(Clone, Copy, PartialEq, Eq, Structural, Debug)]
pub struct Decimal {
    pub v: u128,
}

/// `10^e`, the spec-level power of ten.
pub open spec fn pow10(e: nat) -> int
    decreases e,
{
    if e == 0 {
        1
    } else {
        10 * pow10((e - 1) as nat)
    }
}

/// `10^e` for small exponents, as an executable value.
pub fn pow10_exec(e: u8) -> (r: u128)
    requires
        e <= SCALE,
    ensures
        r == pow10(e as nat),
{
    let mut r: u128 = 1;
    let mut i: u8 = 0;
    while i < e
        invariant
            i <= e,
            e <= SCALE,
            r == pow10(i as nat),
        decreases e - i,
    {
        proof {
            lemma_pow10_bounded((i + 1) as nat);
        }
        r = r * 10;
        i = i + 1;
    }
    r
}

/// Powers of ten are positive.
pub proof fn lemma_pow10_pos(e: nat)
    ensures
        pow10(e) >= 1,
    decreases e,
{
    if e > 0 {
        lemma_pow10_pos((e - 1) as nat);
    }
}

/// Powers of ten grow with the exponent.
pub proof fn lemma_pow10_increases(a: nat, b: nat)
    requires
        a <= b,
    ensures
        pow10(a) <= pow10(b),
    decreases b,
{
    if a < b {
        lemma_pow10_increases(a, (b - 1) as nat);
        lemma_pow10_pos((b - 1) as nat);
    }
}

/// `10^e` never exceeds `10^SCALE` for the exponents the crate uses.
pub proof fn lemma_pow10_bounded(e: nat)
    requires
        e <= 12,
    ensures
        1 <= pow10(e) <= 1_000_000_000_000,
{
    lemma_pow10_pos(e);
    lemma_pow10_increases(e, 12);
    reveal_with_fuel(pow10, 13);
    assert(pow10(12) == 1_000_000_000_000);
}

impl Decimal {
    /// Wraps a raw fixed-point value.
    pub fn new(v: u128) -> (r: Decimal)
        ensures
            r.v == v,
    {
        Decimal { v }
    }

    /// The fixed-point form of the integer `i`.
    pub fn from_integer(i: u128) -> (r: Decimal)
        requires
            i * DENOMINATOR <= u128::MAX,
        ensures
            r.v == i * DENOMINATOR,
    {
        Decimal { v: i * DENOMINATOR }
    }

    /// Reads `val` as a number with `scale` decimal places.
    pub fn from_decimal(val: u128, scale: u8) -> (r: Decimal)
        requires
            scale <= SCALE,
            val * pow10((SCALE - scale) as nat) <= u128::MAX,
        ensures
            r.v == val * pow10((SCALE - scale) as nat),
    {
        let factor = pow10_exec(SCALE - scale);
        Decimal { v: val * factor }
    }

    /// Truncates to a whole number of units.
    pub fn to_u64(self) -> (r: u64)
        requires
            self.v / DENOMINATOR <= u64::MAX,
        ensures
            r == self.v / DENOMINATOR,
    {
        (self.v / DENOMINATOR) as u64
    }

    /// Checked addition.
    pub fn add(self, other: Decimal) -> (r: Decimal)
        requires
            self.v + other.v <= u128::MAX,
        ensures
            r.v == self.v + other.v,
    {
        Decimal { v: self.v + other.v }
    }

    /// Checked subtraction.
    pub fn sub(self, other: Decimal) -> (r: Decimal)
        requires
            other.v <= self.v,
        ensures
            r.v == self.v - other.v,
    {
        Decimal { v: self.v - other.v }
    }

    /// Fixed-point division: scales the dividend up before dividing, so the
    /// result keeps `SCALE` decimal places.
    pub fn div(self, other: Decimal) -> (r: Decimal)
        requires
            other.v > 0,
            self.v * DENOMINATOR <= u128::MAX,
        ensures
            r.v == ((self.v * DENOMINATOR) as u128) / other.v,
    {
        Decimal { v: (self.v * DENOMINATOR) / other.v }
    }

    /// Strict order on the underlying fixed-point values.
    pub fn lt(&self, other: &Decimal) -> (r: bool)
        ensures
            r == (self.v < other.v),
    {
        self.v < other.v
    }

    /// Strict order on the underlying fixed-point values.
    pub fn gt(&self, other: &Decimal) -> (r: bool)
        ensures
            r == (self.v > other.v),
    {
        self.v > other.v
    }
}

} // verus!
