//! The core operations: tick validation, boundary resolution for a trade
//! step, tick-crossing accounting, and price-to-tick search.

use vstd::prelude::*;
use vstd::arithmetic::mul::{lemma_mul_inequality, lemma_mul_strict_inequality};
use vstd::arithmetic::div_mod::{lemma_fundamental_div_mod, lemma_fundamental_div_mod_converse};
use crate::decimal::{Decimal, DENOMINATOR};
use crate::errors::InvariantErrorCode;
use crate::pool::Pool;
use crate::price::{calculate_price_sqrt, get_tick_at_sqrt_price, spec_price_sqrt};
use crate::tick::Tick;
use crate::tickmap::{
    get_search_limit, lemma_exact_div, spec_next_initialized, spec_prev_initialized,
    spec_search_limit, valid_tick, Tickmap, MAX_TICK, TICK_LIMIT,
};

verus! {

/// Negating the dividend keeps exact divisibility.
proof fn lemma_neg_mod_zero(t: int, s: int)
    requires
        s >= 1,
    ensures
        ((-t) % s == 0) <==> (t % s == 0),
{
    if t % s == 0 {
        lemma_exact_div(t, s);
        vstd::arithmetic::mul::lemma_mul_unary_negation(t / s, s);
        lemma_fundamental_div_mod_converse(-t, s, -(t / s), 0);
    } else if (-t) % s == 0 {
        lemma_exact_div(-t, s);
        vstd::arithmetic::mul::lemma_mul_unary_negation((-t) / s, s);
        lemma_fundamental_div_mod_converse(t, s, -((-t) / s), 0);
    }
}

/// An exact quotient lies between zero and its dividend.
proof fn lemma_quotient_within(t: int, s: int)
    requires
        s >= 1,
        t % s == 0,
    ensures
        t >= 0 ==> 0 <= t / s <= t,
        t < 0 ==> t <= t / s < 0,
{
    lemma_exact_div(t, s);
    let q = t / s;
    if q >= 0 {
        assert(q <= q * s) by (nonlinear_arith)
            requires
                q >= 0,
                s >= 1,
        ;
    } else {
        assert(q * s <= q) by (nonlinear_arith)
            requires
                q < 0,
                s >= 1,
        ;
    }
}

/// Rejects a tick unless it is aligned to the spacing, its quantized index is
/// strictly inside the bitmap's range, and the tick itself is strictly inside
/// the representable price range.
pub fn check_tick(tick_index: i32, tick_spacing: u16) -> (r: Result<(), InvariantErrorCode>)
    ensures
        r.is_ok() <==> valid_tick(tick_index as int, tick_spacing as int),
        r.is_err() ==> r == Err::<(), InvariantErrorCode>(InvariantErrorCode::InvalidTickIndex),
{
    let spacing: i32 = tick_spacing as i32;
    let rem = tick_index.checked_rem(spacing);
    let aligned: bool = match rem {
        Some(r0) => r0 == 0,
        None => false,
    };
    proof {
        if tick_spacing >= 1 {
            lemma_neg_mod_zero(tick_index as int, tick_spacing as int);
        }
    }
    if !aligned {
        return Err(InvariantErrorCode::InvalidTickIndex);
    }
    proof {
        if tick_index == 0 {
            vstd::arithmetic::div_mod::lemma_small_mod(0nat, tick_spacing as nat);
        }
        lemma_exact_div(tick_index as int, tick_spacing as int);
    }
    let tickmap_index: i32 = tick_index.checked_div(spacing).unwrap();
    if !(tickmap_index > -TICK_LIMIT) {
        return Err(InvariantErrorCode::InvalidTickIndex);
    }
    if !(tickmap_index < TICK_LIMIT - 1) {
        return Err(InvariantErrorCode::InvalidTickIndex);
    }
    if !(tick_index > -MAX_TICK) {
        return Err(InvariantErrorCode::InvalidTickIndex);
    }
    if !(tick_index < MAX_TICK) {
        return Err(InvariantErrorCode::InvalidTickIndex);
    }
    Ok(())
}

/// Validates a range's bounds: they must be ordered, and each must pass
/// `check_tick`.
pub fn check_ticks(tick_lower: i32, tick_upper: i32, tick_spacing: u16) -> (r: Result<
    (),
    InvariantErrorCode,
>)
    ensures
        r.is_ok() <==> (tick_lower < tick_upper && valid_tick(
            tick_lower as int,
            tick_spacing as int,
        ) && valid_tick(tick_upper as int, tick_spacing as int)),
        r.is_err() ==> r == Err::<(), InvariantErrorCode>(InvariantErrorCode::InvalidTickIndex),
{
    if !(tick_lower < tick_upper) {
        return Err(InvariantErrorCode::InvalidTickIndex);
    }
    match check_tick(tick_lower, tick_spacing) {
        Err(e) => {
            return Err(e);
        },
        Ok(()) => {},
    }
    match check_tick(tick_upper, tick_spacing) {
        Err(e) => {
            return Err(e);
        },
        Ok(()) => {},
    }
    Ok(())
}

/// What `get_closer_limit` must return: the nearest initialized tick in the
/// trade's direction is priced and compared against the caller's limit; the
/// more restrictive of the two wins. With no tick inside the window, the
/// window's edge takes the tick's place (tagged `false`: crossing accounting
/// must not be applied there), and a window that cannot move at all is a
/// `LimitReached` error.
pub open spec fn spec_closer_limit(
    bm: Seq<u8>,
    sqrt_price_limit: Decimal,
    x_to_y: bool,
    current_tick: int,
    s: int,
) -> Result<(Decimal, Option<(i32, bool)>), InvariantErrorCode> {
    let found = if x_to_y {
        spec_prev_initialized(bm, current_tick, s)
    } else {
        spec_next_initialized(bm, current_tick, s)
    };
    match found {
        Some(index) => {
            let price = Decimal { v: spec_price_sqrt(index as int) as u128 };
            if (x_to_y && price.v > sqrt_price_limit.v) || (!x_to_y && price.v
                < sqrt_price_limit.v) {
                Ok((price, Some((index, true))))
            } else {
                Ok((sqrt_price_limit, None))
            }
        },
        None => {
            let edge = spec_search_limit(current_tick, s, !x_to_y);
            if edge == current_tick {
                Err(InvariantErrorCode::LimitReached)
            } else {
                let price = Decimal { v: spec_price_sqrt(edge) as u128 };
                if (x_to_y && price.v > sqrt_price_limit.v) || (!x_to_y && price.v
                    < sqrt_price_limit.v) {
                    Ok((price, Some((edge as i32, false))))
                } else {
                    Ok((sqrt_price_limit, None))
                }
            }
        },
    }
}

/// Finds the closest initialized tick in the trade's direction and compares
/// its price to the trade's price limit; returns the boundary the current
/// step must stop at, and whether stopping there crosses a real tick.
pub fn get_closer_limit(
    sqrt_price_limit: Decimal,
    x_to_y: bool,
    current_tick: i32,
    tick_spacing: u16,
    tickmap: &Tickmap,
) -> (r: Result<(Decimal, Option<(i32, bool)>), InvariantErrorCode>)
    requires
        tickmap.wf(),
        valid_tick(current_tick as int, tick_spacing as int),
    ensures
        r == spec_closer_limit(
            tickmap.bitmap@,
            sqrt_price_limit,
            x_to_y,
            current_tick as int,
            tick_spacing as int,
        ),
{
    let closest_tick_index: Option<i32> = if x_to_y {
        tickmap.prev_initialized(current_tick, tick_spacing)
    } else {
        tickmap.next_initialized(current_tick, tick_spacing)
    };

    match closest_tick_index {
        Some(index) => {
            let price = calculate_price_sqrt(index);
            if x_to_y && price.gt(&sqrt_price_limit) {
                Ok((price, Some((index, true))))
            } else if !x_to_y && price.lt(&sqrt_price_limit) {
                Ok((price, Some((index, true))))
            } else {
                Ok((sqrt_price_limit, None))
            }
        },
        None => {
            let index = get_search_limit(current_tick, tick_spacing, !x_to_y);
            let price = calculate_price_sqrt(index);

            if current_tick == index {
                return Err(InvariantErrorCode::LimitReached);
            }
            if x_to_y && price.gt(&sqrt_price_limit) {
                Ok((price, Some((index, false))))
            } else if !x_to_y && price.lt(&sqrt_price_limit) {
                Ok((price, Some((index, false))))
            } else {
                Ok((sqrt_price_limit, None))
            }
        },
    }
}

/// Subtraction on the 64-bit accounting clock, wrapping below zero. The two
/// snapshot flips in `cross_tick` rely on this modular behaviour; everywhere
/// else, underflow is an error.
pub open spec fn spec_wrapping_sub_u64(a: int, b: int) -> int {
    if a >= b {
        a - b
    } else {
        a - b + 0x1_0000_0000_0000_0000
    }
}

/// Flipping a seconds-outside snapshot twice against the same elapsed time
/// restores the original value: the wrap-around subtraction is an involution.
pub proof fn lemma_seconds_outside_round_trip(seconds_passed: int, original: int)
    requires
        0 <= seconds_passed < 0x1_0000_0000_0000_0000,
        0 <= original < 0x1_0000_0000_0000_0000,
    ensures
        spec_wrapping_sub_u64(
            seconds_passed,
            spec_wrapping_sub_u64(seconds_passed, original),
        ) == original,
{
}

/// Whether crossing `tick` while the pool stands at `current_tick_index` adds
/// the tick's liquidity change to the pool (otherwise it is subtracted).
pub open spec fn spec_cross_adds(current_tick_index: int, tick_index: int, sign: bool) -> bool {
    (current_tick_index >= tick_index) != sign
}

/// Applies the bookkeeping of a trade step crossing an initialized tick: the
/// fee-growth-outside and seconds-per-liquidity-outside snapshots flip against
/// their global accumulators, the seconds-outside clock flips with wrap-around
/// allowed, the time-weighted accumulator absorbs the elapsed time (unless no
/// liquidity is active), and the pool's liquidity takes the tick's signed
/// change.
pub fn cross_tick(tick: &mut Tick, pool: &mut Pool, current_timestamp: u64)
    requires
        old(tick).fee_growth_outside_x.v <= old(pool).fee_growth_global_x.v,
        old(tick).fee_growth_outside_y.v <= old(pool).fee_growth_global_y.v,
        current_timestamp >= old(pool).start_timestamp,
        current_timestamp >= old(pool).last_timestamp,
        old(pool).liquidity.v > 0 ==> (current_timestamp - old(pool).last_timestamp)
            * DENOMINATOR * DENOMINATOR <= u128::MAX,
        old(pool).liquidity.v > 0 ==> old(pool).seconds_per_liquidity_global.v + ((
        current_timestamp - old(pool).last_timestamp) * DENOMINATOR * DENOMINATOR)
            / (old(pool).liquidity.v as int) <= u128::MAX,
        old(tick).seconds_per_liquidity_outside.v <= old(pool).seconds_per_liquidity_global.v,
        spec_cross_adds(
            old(pool).current_tick_index as int,
            old(tick).index as int,
            old(tick).sign,
        ) ==> old(pool).liquidity.v + old(tick).liquidity_change.v <= u128::MAX,
        !spec_cross_adds(
            old(pool).current_tick_index as int,
            old(tick).index as int,
            old(tick).sign,
        ) ==> old(tick).liquidity_change.v <= old(pool).liquidity.v,
    ensures
        final(tick).index == old(tick).index,
        final(tick).sign == old(tick).sign,
        final(tick).liquidity_change == old(tick).liquidity_change,
        final(tick).fee_growth_outside_x.v == old(pool).fee_growth_global_x.v
            - old(tick).fee_growth_outside_x.v,
        final(tick).fee_growth_outside_y.v == old(pool).fee_growth_global_y.v
            - old(tick).fee_growth_outside_y.v,
        final(tick).seconds_outside == spec_wrapping_sub_u64(
            current_timestamp - old(pool).start_timestamp,
            old(tick).seconds_outside as int,
        ),
        final(pool).seconds_per_liquidity_global.v == (if old(pool).liquidity.v > 0 {
            old(pool).seconds_per_liquidity_global.v + ((current_timestamp
                - old(pool).last_timestamp) * DENOMINATOR * DENOMINATOR)
                / (old(pool).liquidity.v as int)
        } else {
            old(pool).seconds_per_liquidity_global.v as int
        }),
        final(tick).seconds_per_liquidity_outside.v == final(pool).seconds_per_liquidity_global.v
            - old(tick).seconds_per_liquidity_outside.v,
        final(pool).last_timestamp == current_timestamp,
        final(pool).liquidity.v == (if spec_cross_adds(
            old(pool).current_tick_index as int,
            old(tick).index as int,
            old(tick).sign,
        ) {
            old(pool).liquidity.v + old(tick).liquidity_change.v
        } else {
            old(pool).liquidity.v - old(tick).liquidity_change.v
        }),
        final(pool).current_tick_index == old(pool).current_tick_index,
        final(pool).fee_growth_global_x == old(pool).fee_growth_global_x,
        final(pool).fee_growth_global_y == old(pool).fee_growth_global_y,
        final(pool).start_timestamp == old(pool).start_timestamp,
        final(pool).fee_protocol_token_x == old(pool).fee_protocol_token_x,
        final(pool).fee_protocol_token_y == old(pool).fee_protocol_token_y,
{
    tick.fee_growth_outside_x = pool.fee_growth_global_x.sub(tick.fee_growth_outside_x);
    tick.fee_growth_outside_y = pool.fee_growth_global_y.sub(tick.fee_growth_outside_y);

    let seconds_passed: u64 = current_timestamp - pool.start_timestamp;
    // the snapshot clock wraps on purpose: flipping twice restores it
    tick.seconds_outside = if seconds_passed >= tick.seconds_outside {
        seconds_passed - tick.seconds_outside
    } else {
        (u64::MAX - tick.seconds_outside) + seconds_passed + 1
    };

    if pool.liquidity.v != 0 {
        pool.update_seconds_per_liquidity_global(current_timestamp);
    } else {
        pool.last_timestamp = current_timestamp;
    }
    tick.seconds_per_liquidity_outside = pool.seconds_per_liquidity_global.sub(
        tick.seconds_per_liquidity_outside,
    );

    // moving to a higher tick adds the net liquidity; moving lower removes it
    if (pool.current_tick_index >= tick.index) ^ tick.sign {
        pool.liquidity = pool.liquidity.add(tick.liquidity_change);
    } else {
        pool.liquidity = pool.liquidity.sub(tick.liquidity_change);
    }
}

/// The tick whose unit price interval contains `price`. The current tick must
/// be aligned, as everywhere in the core; the direction flag plays no role in
/// the conversion.
pub fn get_tick_from_price(current_tick: i32, tick_spacing: u16, price: Decimal, x_to_y: bool) -> (r:
    i32)
    requires
        tick_spacing >= 1,
        (current_tick as int) % (tick_spacing as int) == 0,
        spec_price_sqrt(-MAX_TICK as int) <= price.v <= spec_price_sqrt(MAX_TICK as int),
    ensures
        spec_price_sqrt(r as int) <= price.v < spec_price_sqrt(r as int + 1),
        -MAX_TICK <= r <= MAX_TICK,
{
    get_tick_at_sqrt_price(price)
}

/// Monotone binary search over the quantized ticks in `[low, high]` for the
/// tick whose price equals the target; an inexact target lands on the nearest
/// searched tick below it.
#[verifier::loop_isolation(false)]
pub fn price_to_tick_in_range(price: Decimal, low: i32, high: i32, step: i32) -> (r: i32)
    requires
        step >= 1,
        (low as int) % (step as int) == 0,
        (high as int) % (step as int) == 0,
        low <= high,
        -MAX_TICK <= low,
        high <= MAX_TICK,
    ensures
        (r as int) % (step as int) == 0,
        low <= r <= high,
        forall|i: int|
            (low as int) / (step as int) <= i < (high as int) / (step as int) + 1
                && #[trigger] spec_price_sqrt(i * (step as int)) == price.v ==> r == i * (
            step as int),
        spec_price_sqrt(r as int) <= price.v || r == low,
{
    proof {
        lemma_exact_div(low as int, step as int);
        lemma_exact_div(high as int, step as int);
        vstd::arithmetic::div_mod::lemma_div_is_ordered(low as int, high as int, step as int);
        lemma_quotient_within(low as int, step as int);
        lemma_quotient_within(high as int, step as int);
    }
    let mut lo: i32 = low.checked_div(step).unwrap();
    let mut hi: i32 = high.checked_div(step).unwrap().checked_add(1).unwrap();
    let ghost lo0 = (low as int) / (step as int);
    let ghost hi0 = (high as int) / (step as int) + 1;
    let ghost s = step as int;
    let target_value = price;

    while hi - lo > 1
        invariant
            lo0 <= lo < hi <= hi0,
            forall|i: int|
                lo0 <= i < hi0 && #[trigger] spec_price_sqrt(i * s) == price.v ==> lo <= i < hi,
            spec_price_sqrt(lo * s) < price.v || lo == lo0,
        decreases hi - lo,
    {
        let mid: i32 = (hi - lo).checked_div(2).unwrap().checked_add(lo).unwrap();
        proof {
            lemma_fundamental_div_mod((hi - lo) as int, 2);
            lemma_mul_inequality(lo0, mid as int, s);
            lemma_mul_inequality(mid as int, hi0 - 1, s);
        }
        let val = calculate_price_sqrt(mid.checked_mul(step).unwrap());

        if val == target_value {
            proof {
                assert forall|i: int|
                    lo0 <= i < hi0 && #[trigger] spec_price_sqrt(i * s) == price.v implies i
                    == (mid as int) by {
                    if i < mid as int {
                        lemma_mul_strict_inequality(i, mid as int, s);
                    }
                    if i > mid as int {
                        lemma_mul_strict_inequality(mid as int, i, s);
                    }
                };
                lemma_fundamental_div_mod_converse(
                    (mid as int) * s,
                    s,
                    mid as int,
                    0,
                );
            }
            return mid.checked_mul(step).unwrap();
        }
        if val.lt(&target_value) {
            proof {
                assert forall|i: int|
                    lo0 <= i < hi0 && #[trigger] spec_price_sqrt(i * s) == price.v implies (mid as int)
                    < i by {
                    if i <= mid as int {
                        lemma_mul_inequality(i, mid as int, s);
                    }
                };
            }
            lo = mid;
        }
        if val.gt(&target_value) {
            proof {
                assert forall|i: int|
                    lo0 <= i < hi0 && #[trigger] spec_price_sqrt(i * s) == price.v implies i
                    < (mid as int) by {
                    if i >= mid as int {
                        lemma_mul_inequality(mid as int, i, s);
                    }
                };
            }
            hi = mid;
        }
    }
    proof {
        lemma_mul_inequality(lo0, lo as int, s);
        lemma_mul_inequality(lo as int, hi0 - 1, s);
        lemma_fundamental_div_mod_converse((lo as int) * s, s, lo as int, 0);
    }
    lo.checked_mul(step).unwrap()
}

} // verus!
