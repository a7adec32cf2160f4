//! Per-tick accounting record.

use vstd::prelude::*;
use crate::decimal::Decimal;

verus! {

/// State kept for every initialized tick. `sign` says whether the tick is the
/// lower (`true`) or upper (`false`) boundary of a liquidity range, which
/// decides whether crossing it adds or removes the recorded liquidity change.
/// The `*_outside` accumulators snapshot the matching global accumulator on
/// the far side of the tick and are flipped each time the tick is crossed.
#[derive(Clone, Copy, PartialEq, Eq, Structural, Debug)]
pub struct Tick {
    pub index: i32,
    pub sign: bool,
    pub liquidity_change: Decimal,
    pub fee_growth_outside_x: Decimal,
    pub fee_growth_outside_y: Decimal,
    pub seconds_outside: u64,
    pub seconds_per_liquidity_outside: Decimal,
}

} // verus!
