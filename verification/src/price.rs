//! Conversion between tick indices and square-root prices.
//!
//! The rest of the core relies only on two properties of this conversion: it
//! is strictly increasing in the tick, and converting a tick's price back
//! yields the same tick. The mapping here is affine on the fixed-point scale,
//! with the price of tick zero equal to one whole unit.

use vstd::prelude::*;
use vstd::arithmetic::div_mod::{lemma_fundamental_div_mod, lemma_fundamental_div_mod_converse};
use vstd::arithmetic::mul::lemma_mul_inequality;
use crate::decimal::{Decimal, DENOMINATOR};
use crate::tickmap::MAX_TICK;

verus! {

/// Fixed-point price increase per tick step.
pub const TICK_PRICE_STEP: u128 = 4_000_000;

/// The square-root price of a tick, as a raw fixed-point value.
pub open spec fn spec_price_sqrt(tick: int) -> int {
    DENOMINATOR as int + tick * (TICK_PRICE_STEP as int)
}

/// The conversion is strictly increasing: a higher tick always has a higher
/// square-root price.
pub proof fn lemma_price_sqrt_monotonic(a: int, b: int)
    requires
        a < b,
    ensures
        spec_price_sqrt(a) < spec_price_sqrt(b),
{
}

/// A square-root price brackets exactly one tick: if `spec_price_sqrt(t)`
/// falls in the unit interval at `r`, the two ticks are the same. Together
/// with `get_tick_at_sqrt_price`, an exact tick price round-trips.
pub proof fn lemma_price_tick_round_trip(t: int, r: int)
    requires
        spec_price_sqrt(r) <= spec_price_sqrt(t) < spec_price_sqrt(r + 1),
    ensures
        r == t,
{
}

/// The square-root price of `tick_index`.
pub fn calculate_price_sqrt(tick_index: i32) -> (r: Decimal)
    requires
        -MAX_TICK <= tick_index <= MAX_TICK,
    ensures
        r.v == spec_price_sqrt(tick_index as int),
{
    proof {
        lemma_mul_inequality(tick_index as int, MAX_TICK as int, TICK_PRICE_STEP as int);
        lemma_mul_inequality(-(MAX_TICK as int), tick_index as int, TICK_PRICE_STEP as int);
        vstd::arithmetic::mul::lemma_mul_unary_negation(MAX_TICK as int, TICK_PRICE_STEP as int);
    }
    let offset: i128 = (tick_index as i128) * (TICK_PRICE_STEP as i128);
    let value: i128 = (DENOMINATOR as i128) + offset;
    Decimal { v: value as u128 }
}

/// The tick whose unit price interval contains `price`: the greatest tick
/// whose square-root price does not exceed it.
pub fn get_tick_at_sqrt_price(price: Decimal) -> (r: i32)
    requires
        spec_price_sqrt(-MAX_TICK as int) <= price.v <= spec_price_sqrt(MAX_TICK as int),
    ensures
        spec_price_sqrt(r as int) <= price.v < spec_price_sqrt(r as int + 1),
        -MAX_TICK <= r <= MAX_TICK,
{
    let diff: i128 = (price.v as i128) - (DENOMINATOR as i128);
    let step: i128 = TICK_PRICE_STEP as i128;
    let quotient: i128 = if diff >= 0 {
        let q = diff.checked_div(step).unwrap();
        proof {
            lemma_fundamental_div_mod(diff as int, step as int);
        }
        q
    } else {
        let negated: i128 = -diff;
        let ceiling: i128 = (negated + step - 1).checked_div(step).unwrap();
        proof {
            lemma_fundamental_div_mod(negated + step - 1, step as int);
            let c = (negated + step - 1) / (step as int);
            let r2 = (negated + step - 1) % (step as int);
            vstd::arithmetic::mul::lemma_mul_unary_negation(c, step as int);
            assert(diff as int == (-c) * (step as int) + ((step as int) - 1 - r2));
            lemma_fundamental_div_mod_converse(
                diff as int,
                step as int,
                -c,
                (step as int) - 1 - r2,
            );
        }
        -ceiling
    };
    proof {
        lemma_fundamental_div_mod(diff as int, step as int);
    }
    quotient as i32
}

} // verus!
