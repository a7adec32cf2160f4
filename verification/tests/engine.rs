//! Behaviour of the bitmap searches, boundary resolution and tick crossing.

use invariant_core::decimal::Decimal;
use invariant_core::errors::InvariantErrorCode;
use invariant_core::pool::Pool;
use invariant_core::price::calculate_price_sqrt;
use invariant_core::price::get_tick_at_sqrt_price;
use invariant_core::tick::Tick;
use invariant_core::tickmap::get_search_limit;
use invariant_core::tickmap::Tickmap;
use invariant_core::util::cross_tick;
use invariant_core::util::get_closer_limit;
use invariant_core::util::price_to_tick_in_range;

#[test]
fn test_price_to_tick_in_range() {
    // Exact
    {
        let target_tick = 4;
        let result = price_to_tick_in_range(calculate_price_sqrt(target_tick), 0, 8, 2);
        let tick = get_tick_at_sqrt_price(calculate_price_sqrt(target_tick));
        assert_eq!(tick, target_tick);
        assert_eq!(result, target_tick);
    }
}

#[test]
fn test_get_closer_limit() {
    let tickmap = &mut Tickmap::default();
    tickmap.flip(true, 0, 1);

    // tick limit closer
    {
        let (result, from_tick) =
            get_closer_limit(Decimal::from_integer(5), true, 100, 1, tickmap).unwrap();

        let expected = Decimal::from_integer(5);
        assert_eq!(result, expected);
        assert_eq!(from_tick, None);
    }
    // trade limit closer
    {
        let (result, from_tick) =
            get_closer_limit(Decimal::from_decimal(1, 1), true, 100, 1, tickmap).unwrap();
        let expected = Decimal::from_integer(1);
        assert_eq!(result, expected);
        assert_eq!(from_tick, Some((0, true)));
    }
    // other direction
    {
        let (result, from_tick) =
            get_closer_limit(Decimal::from_integer(2), false, -5, 1, tickmap).unwrap();
        let expected = Decimal::from_integer(1);
        assert_eq!(result, expected);
        assert_eq!(from_tick, Some((0, true)));
    }
    // other direction
    {
        let (result, from_tick) =
            get_closer_limit(Decimal::from_decimal(1, 1), false, -100, 10, tickmap).unwrap();
        let expected = Decimal::from_decimal(1, 1);
        assert_eq!(result, expected);
        assert_eq!(from_tick, None);
    }
}

#[test]
fn closer_limit_reports_window_exhaustion() {
    // At the lower edge of the bitmap with nothing initialized, the window
    // edge equals the current tick and no progress is possible.
    let tickmap = Tickmap::default();
    let r = get_closer_limit(Decimal::from_integer(1), true, -44_363, 1, &tickmap);
    assert_eq!(r, Err(InvariantErrorCode::LimitReached));
}

#[test]
fn closer_limit_stops_at_window_edge_tick() {
    // No initialized tick within reach: the search window's edge is returned,
    // tagged as a synthetic boundary (no crossing accounting).
    let tickmap = Tickmap::default();
    let (price, from_tick) =
        get_closer_limit(Decimal::from_decimal(1, 1), true, 0, 1, &tickmap).unwrap();
    assert_eq!(from_tick, Some((-256, false)));
    assert_eq!(price, calculate_price_sqrt(-256));
}

#[test]
fn flip_is_visible_to_both_searches() {
    let mut tickmap = Tickmap::default();
    tickmap.flip(true, 30, 1);
    // an upward search from below finds the flipped tick
    assert_eq!(tickmap.next_initialized(0, 1), Some(30));
    assert_eq!(tickmap.next_initialized(29, 1), Some(30));
    // a downward search from at-or-above finds it, inclusively
    assert_eq!(tickmap.prev_initialized(30, 1), Some(30));
    assert_eq!(tickmap.prev_initialized(100, 1), Some(30));
    // the upward search excludes its own starting tick
    assert_eq!(tickmap.next_initialized(30, 1), None);
    // below the only set bit there is nothing
    assert_eq!(tickmap.prev_initialized(29, 1), None);
    // clearing the bit hides it again
    tickmap.flip(false, 30, 1);
    assert_eq!(tickmap.next_initialized(0, 1), None);
    assert_eq!(tickmap.get(30, 1), false);
}

#[test]
fn searches_respect_spacing_and_window() {
    let mut tickmap = Tickmap::default();
    tickmap.flip(true, 50, 10);
    assert_eq!(tickmap.next_initialized(0, 10), Some(50));
    assert_eq!(tickmap.prev_initialized(50, 10), Some(50));
    // a set bit farther than the search range is not found
    let mut far = Tickmap::default();
    far.flip(true, 3000, 10);
    assert_eq!(far.next_initialized(0, 10), None);
}

#[test]
fn search_limit_values() {
    assert_eq!(get_search_limit(0, 1, true), 256);
    assert_eq!(get_search_limit(0, 1, false), -256);
    assert_eq!(get_search_limit(0, 10, true), 2560);
    // near the array bound, the bitmap's edge binds first
    assert_eq!(get_search_limit(-44_363, 1, false), -44_363);
}

fn sample_pool() -> Pool {
    Pool {
        current_tick_index: 100,
        liquidity: Decimal::from_integer(2),
        fee_growth_global_x: Decimal::new(1_000),
        fee_growth_global_y: Decimal::new(2_000),
        seconds_per_liquidity_global: Decimal::new(0),
        last_timestamp: 100,
        start_timestamp: 100,
        fee_protocol_token_x: 7,
        fee_protocol_token_y: 9,
    }
}

fn sample_tick() -> Tick {
    Tick {
        index: 50,
        sign: false,
        liquidity_change: Decimal::from_integer(1),
        fee_growth_outside_x: Decimal::new(300),
        fee_growth_outside_y: Decimal::new(400),
        seconds_outside: 30,
        seconds_per_liquidity_outside: Decimal::new(0),
    }
}

#[test]
fn cross_tick_flips_snapshots_and_moves_liquidity() {
    let mut tick = sample_tick();
    let mut pool = sample_pool();
    cross_tick(&mut tick, &mut pool, 104);

    // fee snapshots flip against the globals
    assert_eq!(tick.fee_growth_outside_x, Decimal::new(700));
    assert_eq!(tick.fee_growth_outside_y, Decimal::new(1_600));
    // seconds outside flips against the time since pool start, wrapping
    assert_eq!(tick.seconds_outside, 4u64.wrapping_sub(30));
    // current tick (100) >= tick.index (50) and sign is false: liquidity grows
    assert_eq!(pool.liquidity, Decimal::from_integer(3));
    // four seconds elapsed over liquidity 2: two fixed-point units per unit
    assert_eq!(
        pool.seconds_per_liquidity_global,
        Decimal::from_integer(2)
    );
    assert_eq!(tick.seconds_per_liquidity_outside, Decimal::from_integer(2));
    assert_eq!(pool.last_timestamp, 104);
}

#[test]
fn cross_tick_seconds_outside_round_trips() {
    // crossing twice with the same elapsed time restores the snapshot
    let mut tick = sample_tick();
    let mut pool = sample_pool();
    let original = tick.seconds_outside;
    cross_tick(&mut tick, &mut pool, 104);
    assert_eq!(tick.seconds_outside, 4u64.wrapping_sub(original));
    cross_tick(&mut tick, &mut pool, 104);
    assert_eq!(tick.seconds_outside, original);
}

#[test]
fn cross_tick_wraps_seconds_outside_below_zero() {
    let mut tick = sample_tick();
    tick.seconds_outside = 10;
    let mut pool = sample_pool();
    // only four seconds have passed since pool start, fewer than the snapshot
    cross_tick(&mut tick, &mut pool, 104);
    assert_eq!(tick.seconds_outside, 4u64.wrapping_sub(10));
}

#[test]
fn cross_tick_subtracts_when_leaving_range() {
    let mut tick = sample_tick();
    tick.sign = true;
    let mut pool = sample_pool();
    cross_tick(&mut tick, &mut pool, 104);
    assert_eq!(pool.liquidity, Decimal::from_integer(1));
}

#[test]
fn cross_tick_with_zero_liquidity_only_advances_clock() {
    let mut tick = sample_tick();
    let mut pool = sample_pool();
    pool.liquidity = Decimal::new(0);
    cross_tick(&mut tick, &mut pool, 104);
    assert_eq!(pool.seconds_per_liquidity_global, Decimal::new(0));
    assert_eq!(pool.last_timestamp, 104);
}

#[test]
fn withdraw_protocol_fee_hands_out_and_resets() {
    let mut pool = sample_pool();
    let (x, y) = pool.withdraw_protocol_fee();
    assert_eq!((x, y), (7, 9));
    assert_eq!(pool.fee_protocol_token_x, 0);
    assert_eq!(pool.fee_protocol_token_y, 0);
}
