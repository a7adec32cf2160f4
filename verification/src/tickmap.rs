//! Presence bitmap over the quantized tick axis.
//!
//! Bit `b` of byte `n` records whether the quantized tick `8*n + b - TICK_LIMIT`
//! holds a liquidity boundary. The two directional searches scan the bitmap
//! byte by byte, then bit by bit, inside a bounded window; `get_search_limit`
//! computes that window's edge independently of the bitmap's contents.

use vstd::prelude::*;
use vstd::arithmetic::div_mod::{
    lemma_fundamental_div_mod, lemma_fundamental_div_mod_converse,
};
use vstd::arithmetic::mul::{
    lemma_mul_inequality, lemma_mul_is_distributive_add_other_way,
    lemma_mul_is_distributive_sub_other_way, lemma_mul_strict_inequality,
};

verus! {

/// Half the number of quantized positions the bitmap can address.
pub const TICK_LIMIT: i32 = 44_364;

/// How many quantized steps a directional search may scan past its start.
pub const TICK_SEARCH_RANGE: i32 = 256;

/// Bound on raw tick indices; keeps the square-root price below `2^64` units.
pub const MAX_TICK: i32 = 221_818;

/// Highest addressable quantized position (offset form).
pub const TICKMAP_SIZE: i32 = 2 * TICK_LIMIT - 1;

/// Length of the bitmap in bytes: one bit per quantized position.
pub const TICKMAP_BYTES: usize = 11_091;

/// Whether bit `pos` is set, reading positions across the byte array in
/// little-endian bit order.
pub open spec fn bit_at(bm: Seq<u8>, pos: int) -> bool {
    ((bm[pos / 8] >> ((pos % 8) as u8)) & 1u8) == 1u8
}

/// A tick a caller may hand to the core: aligned to the spacing, strictly
/// inside the bitmap's quantized range and inside the representable price
/// range.
pub open spec fn valid_tick(tick: int, s: int) -> bool {
    &&& s >= 1
    &&& tick % s == 0
    &&& -TICK_LIMIT < tick / s < TICK_LIMIT - 1
    &&& -MAX_TICK < tick < MAX_TICK
}

/// The lesser of two integers.
pub open spec fn min_int(a: int, b: int) -> int {
    if a < b {
        a
    } else {
        b
    }
}

/// The greater of two integers.
pub open spec fn max_int(a: int, b: int) -> int {
    if a > b {
        a
    } else {
        b
    }
}

/// The tick at which a directional search stops: the most restrictive of the
/// bitmap's array bound, the search range around `tick`, and the price bound.
pub open spec fn spec_search_limit(tick: int, s: int, up: bool) -> int {
    let index = tick / s;
    let limit_index = if up {
        min_int(min_int((TICK_LIMIT - 1) as int, index + TICK_SEARCH_RANGE), MAX_TICK as int / s)
    } else {
        max_int(max_int((-TICK_LIMIT + 1) as int, index - TICK_SEARCH_RANGE), -(MAX_TICK as int / s))
    };
    limit_index * s
}

/// The lowest set bit in positions `lo..=hi`, if any.
pub open spec fn first_set_above(bm: Seq<u8>, lo: int, hi: int) -> Option<int>
    decreases hi - lo,
{
    if lo > hi {
        None
    } else if bit_at(bm, lo) {
        Some(lo)
    } else if lo == hi {
        None
    } else {
        first_set_above(bm, lo + 1, hi)
    }
}

/// The highest set bit in positions `lo..=hi`, if any.
pub open spec fn first_set_below(bm: Seq<u8>, hi: int, lo: int) -> Option<int>
    decreases hi - lo,
{
    if hi < lo {
        None
    } else if bit_at(bm, hi) {
        Some(hi)
    } else if hi == lo {
        None
    } else {
        first_set_below(bm, hi - 1, lo)
    }
}

/// An upward scan that finds nothing means every bit in the window is clear,
/// and finding `q` means `q` is set with everything below it clear.
pub proof fn lemma_first_set_above_spec(bm: Seq<u8>, lo: int, hi: int)
    ensures
        match first_set_above(bm, lo, hi) {
            None => forall|p: int| lo <= p <= hi ==> !bit_at(bm, p),
            Some(q) => lo <= q <= hi && bit_at(bm, q) && forall|p: int|
                lo <= p < q ==> !bit_at(bm, p),
        },
    decreases hi - lo,
{
    if lo > hi {
    } else if bit_at(bm, lo) {
    } else if lo == hi {
    } else {
        lemma_first_set_above_spec(bm, lo + 1, hi);
    }
}

/// Converse: a set bit with a clear run below it is what the upward scan finds.
pub proof fn lemma_first_set_above_is(bm: Seq<u8>, lo: int, hi: int, q: int)
    requires
        lo <= q <= hi,
        bit_at(bm, q),
        forall|p: int| lo <= p < q ==> !bit_at(bm, p),
    ensures
        first_set_above(bm, lo, hi) == Some(q),
    decreases hi - lo,
{
    if lo < q {
        lemma_first_set_above_is(bm, lo + 1, hi, q);
    }
}

/// Converse: a fully clear window makes the upward scan return nothing.
pub proof fn lemma_first_set_above_none(bm: Seq<u8>, lo: int, hi: int)
    requires
        forall|p: int| lo <= p <= hi ==> !bit_at(bm, p),
    ensures
        first_set_above(bm, lo, hi) == None::<int>,
    decreases hi - lo,
{
    if lo <= hi && lo < hi {
        lemma_first_set_above_none(bm, lo + 1, hi);
    }
}

/// A downward scan that finds nothing means every bit in the window is clear,
/// and finding `q` means `q` is set with everything above it clear.
pub proof fn lemma_first_set_below_spec(bm: Seq<u8>, hi: int, lo: int)
    ensures
        match first_set_below(bm, hi, lo) {
            None => forall|p: int| lo <= p <= hi ==> !bit_at(bm, p),
            Some(q) => lo <= q <= hi && bit_at(bm, q) && forall|p: int|
                q < p <= hi ==> !bit_at(bm, p),
        },
    decreases hi - lo,
{
    if hi < lo {
    } else if bit_at(bm, hi) {
    } else if hi == lo {
    } else {
        lemma_first_set_below_spec(bm, hi - 1, lo);
    }
}

/// Converse: a set bit with a clear run above it is what the downward scan
/// finds.
pub proof fn lemma_first_set_below_is(bm: Seq<u8>, hi: int, lo: int, q: int)
    requires
        lo <= q <= hi,
        bit_at(bm, q),
        forall|p: int| q < p <= hi ==> !bit_at(bm, p),
    ensures
        first_set_below(bm, hi, lo) == Some(q),
    decreases hi - lo,
{
    if q < hi {
        lemma_first_set_below_is(bm, hi - 1, lo, q);
    }
}

/// Converse: a fully clear window makes the downward scan return nothing.
pub proof fn lemma_first_set_below_none(bm: Seq<u8>, hi: int, lo: int)
    requires
        forall|p: int| lo <= p <= hi ==> !bit_at(bm, p),
    ensures
        first_set_below(bm, hi, lo) == None::<int>,
    decreases hi - lo,
{
    if lo <= hi && lo < hi {
        lemma_first_set_below_none(bm, hi - 1, lo);
    }
}

/// For an exactly divisible dividend, truncating and floor division agree,
/// and the quotient reconstructs the dividend.
pub proof fn lemma_exact_div(t: int, s: int)
    requires
        s >= 1,
        t % s == 0,
    ensures
        s * (t / s) == t,
        (t / s) * s == t,
        t >= 0 ==> t / s >= 0,
        t < 0 ==> t / s < 0 && (-t) / s == -(t / s),
        t > 0 ==> t / s > 0,
{
    lemma_fundamental_div_mod(t, s);
    vstd::arithmetic::mul::lemma_mul_is_commutative(s, t / s);
    if t < 0 {
        vstd::arithmetic::mul::lemma_mul_unary_negation(t / s, s);
        assert(-t == (-(t / s)) * s + 0);
        lemma_fundamental_div_mod_converse(-t, s, -(t / s), 0);
    }
}

/// Byte and bit coordinates of a tick's position in the bitmap.
pub fn tick_to_position(tick: i32, tick_spacing: u16) -> (r: (usize, u8))
    requires
        tick_spacing >= 1,
        (tick as int) % (tick_spacing as int) == 0,
        0 <= (tick as int) / (tick_spacing as int) + TICK_LIMIT <= TICKMAP_SIZE,
    ensures
        8 * r.0 + r.1 == (tick as int) / (tick_spacing as int) + TICK_LIMIT,
        r.1 < 8,
        r.0 < TICKMAP_BYTES,
{
    proof {
        lemma_exact_div(tick as int, tick_spacing as int);
    }
    let quotient: i32 = tick.checked_div(tick_spacing as i32).unwrap();
    assert(quotient == tick as int / (tick_spacing as int));
    let bitmap_index: i32 = quotient + TICK_LIMIT;
    let byte_index: usize = (bitmap_index / 8) as usize;
    let bit_index: u8 = (bitmap_index % 8) as u8;
    proof {
        lemma_fundamental_div_mod(bitmap_index as int, 8);
        if byte_index >= TICKMAP_BYTES {
            lemma_mul_inequality(TICKMAP_BYTES as int, bitmap_index as int / 8, 8);
        }
    }
    (byte_index, bit_index)
}

/// The farthest tick a directional search may reach from `tick`: the most
/// restrictive of the bitmap's bound, a fixed window of quantized steps, and
/// the price-representability bound.
pub fn get_search_limit(tick: i32, tick_spacing: u16, up: bool) -> (r: i32)
    requires
        tick_spacing >= 1,
        (tick as int) % (tick_spacing as int) == 0,
        -MAX_TICK < tick < MAX_TICK,
    ensures
        r == spec_search_limit(tick as int, tick_spacing as int, up),
        (r as int) % (tick_spacing as int) == 0,
        -MAX_TICK <= r <= MAX_TICK,
{
    proof {
        lemma_exact_div(tick as int, tick_spacing as int);
    }
    let spacing: i32 = tick_spacing as i32;
    let index: i32 = tick.checked_div(spacing).unwrap();
    assert(index == tick as int / (tick_spacing as int));
    let price_quotient: i32 = MAX_TICK / spacing;
    assert(price_quotient == MAX_TICK as int / (tick_spacing as int));

    let limit_index: i32 = if up {
        let array_limit: i32 = TICK_LIMIT - 1;
        let range_limit: i32 = index + TICK_SEARCH_RANGE;
        let price_limit: i32 = price_quotient;
        let m1: i32 = if array_limit < range_limit {
            array_limit
        } else {
            range_limit
        };
        if m1 < price_limit {
            m1
        } else {
            price_limit
        }
    } else {
        let array_limit: i32 = -TICK_LIMIT + 1;
        let range_limit: i32 = index - TICK_SEARCH_RANGE;
        let price_limit: i32 = -price_quotient;
        let m1: i32 = if array_limit > range_limit {
            array_limit
        } else {
            range_limit
        };
        if m1 > price_limit {
            m1
        } else {
            price_limit
        }
    };
    proof {
        lemma_search_limit_product(tick as int, tick_spacing as int, limit_index as int, up);
    }
    let limit: i32 = limit_index * spacing;
    proof {
        lemma_fundamental_div_mod_converse(
            limit as int,
            tick_spacing as int,
            limit_index as int,
            0,
        );
    }
    limit
}

/// The chosen window-edge index, multiplied back by the spacing, stays inside
/// the representable tick range.
proof fn lemma_search_limit_product(tick: int, s: int, limit_index: int, up: bool)
    requires
        s >= 1,
        tick % s == 0,
        -MAX_TICK < tick < MAX_TICK,
        limit_index == (if up {
            min_int(min_int((TICK_LIMIT - 1) as int, tick / s + TICK_SEARCH_RANGE), MAX_TICK as int / s)
        } else {
            max_int(max_int((-TICK_LIMIT + 1) as int, tick / s - TICK_SEARCH_RANGE), -(MAX_TICK as int / s))
        }),
    ensures
        -MAX_TICK <= limit_index * s <= MAX_TICK,
        limit_index * s == spec_search_limit(tick, s, up),
{
    let index = tick / s;
    let pq = MAX_TICK as int / s;
    lemma_exact_div(tick, s);
    lemma_fundamental_div_mod(MAX_TICK as int, s);
    assert(pq * s <= MAX_TICK) by {
        vstd::arithmetic::mul::lemma_mul_is_commutative(s, pq);
    };
    assert((-pq) * s >= -MAX_TICK) by {
        vstd::arithmetic::mul::lemma_mul_unary_negation(pq, s);
    };
    if up {
        if limit_index == index + TICK_SEARCH_RANGE {
            // the window edge lies above tick but below the price bound
            lemma_mul_is_distributive_add_other_way(s, index, TICK_SEARCH_RANGE as int);
            lemma_mul_inequality(index, limit_index, s);
            lemma_mul_inequality(limit_index, pq, s);
        } else {
            lemma_mul_inequality(limit_index, pq, s);
            if limit_index >= 0 {
                vstd::arithmetic::mul::lemma_mul_nonnegative(limit_index, s);
            } else {
                lemma_mul_inequality(index, limit_index, s);
            }
        }
    } else {
        if limit_index == index - TICK_SEARCH_RANGE {
            lemma_mul_is_distributive_sub_other_way(s, index, TICK_SEARCH_RANGE as int);
            lemma_mul_inequality(limit_index, index, s);
            lemma_mul_inequality(-pq, limit_index, s);
        } else {
            lemma_mul_inequality(-pq, limit_index, s);
            if limit_index <= 0 {
                vstd::arithmetic::mul::lemma_mul_nonnegative(-limit_index, s);
                vstd::arithmetic::mul::lemma_mul_unary_negation(limit_index, s);
            } else {
                lemma_mul_inequality(limit_index, index, s);
            }
        }
    }
}

/// Division by a positive divisor keeps order; stated for multiples where the
/// quotient is exact.
pub proof fn lemma_div_exact_ordered(a: int, b: int, s: int)
    requires
        s >= 1,
        a % s == 0,
        b % s == 0,
    ensures
        a < b <==> a / s < b / s,
        a == b <==> a / s == b / s,
{
    lemma_exact_div(a, s);
    lemma_exact_div(b, s);
    if a / s < b / s {
        lemma_mul_inequality(a / s + 1, b / s, s);
        lemma_mul_is_distributive_add_other_way(s, a / s, 1);
    }
    if b / s < a / s {
        lemma_mul_inequality(b / s + 1, a / s, s);
        lemma_mul_is_distributive_add_other_way(s, b / s, 1);
    }
}

/// For a valid tick the search window's edge index lies between the tick's
/// own quantized index and the bitmap's bounds, in both directions.
pub proof fn lemma_limit_index_bounds(tick: int, s: int)
    requires
        valid_tick(tick, s),
    ensures
        tick / s <= min_int(
            min_int((TICK_LIMIT - 1) as int, tick / s + TICK_SEARCH_RANGE),
            MAX_TICK as int / s,
        ) <= TICK_LIMIT - 1,
        (-TICK_LIMIT + 1) as int <= max_int(
            max_int((-TICK_LIMIT + 1) as int, tick / s - TICK_SEARCH_RANGE),
            -(MAX_TICK as int / s),
        ) <= tick / s,
{
    let k = tick / s;
    let pq = MAX_TICK as int / s;
    lemma_exact_div(tick, s);
    vstd::arithmetic::div_mod::lemma_div_is_ordered(tick, MAX_TICK as int, s);
    lemma_fundamental_div_mod(MAX_TICK as int, s);
    vstd::arithmetic::mul::lemma_mul_is_commutative(s, pq);
    if k < -pq {
        lemma_mul_inequality(k, -pq - 1, s);
        assert((-pq - 1) * s == (-pq) * s + (-1) * s) by {
            lemma_mul_is_distributive_add_other_way(s, -pq, -1);
        };
        assert((-pq) * s == -(pq * s)) by {
            vstd::arithmetic::mul::lemma_mul_unary_negation(pq, s);
        };
        assert((-1) * s == -s) by {
            vstd::arithmetic::mul::lemma_mul_basics(s);
            vstd::arithmetic::mul::lemma_mul_unary_negation(1, s);
        };
        assert(false);
    }
}

/// Fixed-capacity presence set over the quantized tick axis.
pub struct Tickmap {
    pub bitmap: Vec<u8>,
}

/// The search result of an upward scan, as a mathematical value: the tick of
/// the lowest set bit strictly above `tick` and no farther than the search
/// window's edge.
pub open spec fn spec_next_initialized(bm: Seq<u8>, tick: int, s: int) -> Option<i32> {
    let lo = tick / s + 1 + TICK_LIMIT;
    let hi = spec_search_limit(tick, s, true) / s + TICK_LIMIT;
    match first_set_above(bm, lo, hi) {
        Some(p) => Some(((p - TICK_LIMIT) * s) as i32),
        None => None,
    }
}

/// The search result of a downward scan, as a mathematical value: the tick of
/// the highest set bit at or below `tick` and no farther than the search
/// window's edge.
pub open spec fn spec_prev_initialized(bm: Seq<u8>, tick: int, s: int) -> Option<i32> {
    let hi = tick / s + TICK_LIMIT;
    let lo = spec_search_limit(tick, s, false) / s + TICK_LIMIT;
    match first_set_below(bm, hi, lo) {
        Some(p) => Some(((p - TICK_LIMIT) * s) as i32),
        None => None,
    }
}

impl Tickmap {
    /// The bitmap has its fixed capacity.
    pub open spec fn wf(&self) -> bool {
        self.bitmap@.len() == TICKMAP_BYTES
    }

    /// Whether the (aligned) tick's position holds a set bit.
    pub open spec fn tick_set(&self, tick: int, s: int) -> bool {
        bit_at(self.bitmap@, tick / s + TICK_LIMIT)
    }

    /// An empty map: no tick is initialized.
    pub fn empty() -> (r: Tickmap)
        ensures
            r.wf(),
            forall|p: int| 0 <= p < 8 * TICKMAP_BYTES ==> !bit_at(r.bitmap@, p),
    {
        let mut bitmap: Vec<u8> = Vec::new();
        let mut i: usize = 0;
        while i < TICKMAP_BYTES
            invariant
                i == bitmap@.len(),
                i <= TICKMAP_BYTES,
                forall|k: int| 0 <= k < i ==> bitmap@[k] == 0u8,
            decreases TICKMAP_BYTES - i,
        {
            bitmap.push(0u8);
            i = i + 1;
        }
        let r = Tickmap { bitmap };
        proof {
            assert forall|p: int| 0 <= p < 8 * TICKMAP_BYTES implies !bit_at(r.bitmap@, p) by {
                lemma_fundamental_div_mod(p, 8);
                let k = (p % 8) as u8;
                assert(((0u8 >> k) & 1u8) != 1u8) by (bit_vector);
            };
        }
        r
    }

    /// Reads the presence bit for `tick`.
    pub fn get(&self, tick: i32, tick_spacing: u16) -> (r: bool)
        requires
            self.wf(),
            tick_spacing >= 1,
            (tick as int) % (tick_spacing as int) == 0,
            0 <= (tick as int) / (tick_spacing as int) + TICK_LIMIT <= TICKMAP_SIZE,
        ensures
            r == self.tick_set(tick as int, tick_spacing as int),
    {
        let (byte_index, bit_index) = tick_to_position(tick, tick_spacing);
        let value: u8 = self.bitmap[byte_index];
        let r = (value >> bit_index) % 2 == 1;
        proof {
            let pos = (tick as int) / (tick_spacing as int) + TICK_LIMIT;
            lemma_fundamental_div_mod_converse(pos, 8, byte_index as int, bit_index as int);
            let b = bit_index;
            assert(((value >> b) % 2 == 1) == (((value >> b) & 1u8) == 1u8)) by (bit_vector);
        }
        r
    }

    /// Finds the nearest initialized tick strictly above `tick`, within the
    /// search window. The scan is exclusive of `tick` itself: an upward-moving
    /// trade looks past the tick it stands on.
    #[verifier::loop_isolation(false)]
    pub fn next_initialized(&self, tick: i32, tick_spacing: u16) -> (r: Option<i32>)
        requires
            self.wf(),
            valid_tick(tick as int, tick_spacing as int),
        ensures
            r == spec_next_initialized(self.bitmap@, tick as int, tick_spacing as int),
            match r {
                Some(t) => -MAX_TICK <= t <= MAX_TICK,
                None => true,
            },
    {
        let ghost s = tick_spacing as int;
        let ghost k = (tick as int) / s;
        proof {
            lemma_exact_div(tick as int, s);
            lemma_limit_index_bounds(tick as int, s);
        }
        let limit: i32 = get_search_limit(tick, tick_spacing, true);
        let ghost limit_index = (limit as int) / s;
        proof {
            lemma_exact_div(limit as int, s);
            let li = min_int(
                min_int((TICK_LIMIT - 1) as int, k + TICK_SEARCH_RANGE),
                MAX_TICK as int / s,
            );
            lemma_fundamental_div_mod_converse(limit as int, s, li, 0);
        }
        let start_tick: i32 = tick + (tick_spacing as i32);
        proof {
            lemma_mul_is_distributive_add_other_way(s, k, 1);
            lemma_fundamental_div_mod_converse(start_tick as int, s, k + 1, 0);
        }
        let (byte_start, bit_start) = tick_to_position(start_tick, tick_spacing);
        let (limiting_byte, limiting_bit) = tick_to_position(limit, tick_spacing);
        let ghost lo = k + 1 + TICK_LIMIT;
        let ghost hi = limit_index + TICK_LIMIT;
        let mut byte_index: usize = byte_start;
        let mut bit_index: u8 = bit_start;
        let ghost bm = self.bitmap@;

        while byte_index < limiting_byte || (byte_index == limiting_byte && bit_index
            <= limiting_bit)
            invariant
                bit_index < 8,
                lo <= 8 * byte_index + bit_index,
                forall|p: int| lo <= p < 8 * byte_index + bit_index ==> !bit_at(bm, p),
            decreases 8 * TICKMAP_BYTES - 8 * byte_index,
        {
            let mut shifted: u8 = self.bitmap[byte_index] >> bit_index;
            let ghost byte_val = self.bitmap@[byte_index as int];
            if shifted != 0 {
                while shifted % 2 == 0
                    invariant
                        bit_index < 8,
                        shifted == byte_val >> bit_index,
                        shifted != 0,
                        lo <= 8 * byte_index + bit_index,
                        forall|p: int| lo <= p < 8 * byte_index + bit_index ==> !bit_at(bm, p),
                    decreases 8 - bit_index,
                {
                    proof {
                        let x = byte_val;
                        let bi = bit_index;
                        assert((x >> bi) != 0 && (x >> bi) % 2 == 0 && bi < 8 ==> bi < 7 && ((x
                            >> bi) >> 1u8) != 0 && ((x >> bi) & 1u8) == 0u8) by (bit_vector);
                        let bj = (bi + 1) as u8;
                        assert(bj == bi + 1 && bi < 7 ==> (x >> bj) == ((x >> bi) >> 1u8)) by (bit_vector);
                        lemma_fundamental_div_mod_converse(
                            8 * (byte_index as int) + bi as int,
                            8,
                            byte_index as int,
                            bi as int,
                        );
                        assert(!bit_at(bm, 8 * (byte_index as int) + bi as int));
                    }
                    shifted = shifted >> 1u8;
                    bit_index = bit_index + 1;
                }
                proof {
                    let x = byte_val;
                    let bi = bit_index;
                    assert((x >> bi) % 2 != 0 ==> ((x >> bi) & 1u8) == 1u8) by (bit_vector);
                    lemma_fundamental_div_mod_converse(
                        8 * (byte_index as int) + bi as int,
                        8,
                        byte_index as int,
                        bi as int,
                    );
                    assert(bit_at(bm, 8 * (byte_index as int) + bi as int));
                }
                if byte_index < limiting_byte || (byte_index == limiting_byte && bit_index
                    <= limiting_bit) {
                    let found: usize = byte_index * 8 + (bit_index as usize);
                    let tick_index: i32 = (found as i32) - TICK_LIMIT;
                    proof {
                        let cur = 8 * (byte_index as int) + bit_index as int;
                        lemma_first_set_above_is(bm, lo, hi, cur);
                        lemma_mul_inequality(k + 1, cur - TICK_LIMIT, s);
                        lemma_mul_inequality(cur - TICK_LIMIT, limit_index, s);
                    }
                    let result: i32 = tick_index * (tick_spacing as i32);
                    return Some(result);
                } else {
                    proof {
                        lemma_first_set_above_none(bm, lo, hi);
                    }
                    return None;
                }
            }
            proof {
                let x = byte_val;
                let bi = bit_index;
                assert(x >> bi == 0 && bi < 8 ==> forall|k2: u8|
                    bi <= k2 < 8 ==> ((x >> k2) & 1u8) == 0u8) by (bit_vector);
                assert forall|p: int|
                    8 * byte_index + bit_index <= p < 8 * (byte_index + 1) implies !bit_at(
                    bm,
                    p,
                ) by {
                    lemma_fundamental_div_mod_converse(p, 8, byte_index as int, p - 8 * (
                    byte_index as int));
                };
            }
            byte_index = byte_index + 1;
            bit_index = 0;
        }
        proof {
            if lo <= hi {
                lemma_first_set_above_none(bm, lo, hi);
            }
        }
        None
    }

    /// Finds the nearest initialized tick at or below `tick`, within the
    /// search window. The scan includes `tick` itself: a downward-moving trade
    /// may stop exactly where it stands if that tick is a boundary.
    #[verifier::loop_isolation(false)]
    pub fn prev_initialized(&self, tick: i32, tick_spacing: u16) -> (r: Option<i32>)
        requires
            self.wf(),
            valid_tick(tick as int, tick_spacing as int),
        ensures
            r == spec_prev_initialized(self.bitmap@, tick as int, tick_spacing as int),
            match r {
                Some(t) => -MAX_TICK <= t <= MAX_TICK,
                None => true,
            },
    {
        let ghost s = tick_spacing as int;
        let ghost k = (tick as int) / s;
        proof {
            lemma_exact_div(tick as int, s);
            lemma_limit_index_bounds(tick as int, s);
        }
        let limit: i32 = get_search_limit(tick, tick_spacing, false);
        let ghost limit_index = (limit as int) / s;
        proof {
            lemma_exact_div(limit as int, s);
            let li = max_int(
                max_int((-TICK_LIMIT + 1) as int, k - TICK_SEARCH_RANGE),
                -(MAX_TICK as int / s),
            );
            lemma_fundamental_div_mod_converse(limit as int, s, li, 0);
        }
        let (byte_start, bit_start) = tick_to_position(tick, tick_spacing);
        let (limiting_byte, limiting_bit) = tick_to_position(limit, tick_spacing);
        let ghost hi = k + TICK_LIMIT;
        let ghost lo = limit_index + TICK_LIMIT;
        let mut byte_index: usize = byte_start;
        let mut bit_index: u8 = bit_start;
        let ghost bm = self.bitmap@;

        while byte_index > limiting_byte || (byte_index == limiting_byte && bit_index
            >= limiting_bit)
            invariant
                bit_index < 8,
                byte_index <= byte_start,
                8 * byte_index + bit_index <= hi,
                forall|p: int| 8 * byte_index + bit_index < p <= hi ==> !bit_at(bm, p),
            decreases 8 * byte_index + bit_index,
        {
            let mut mask: u16 = 1u16 << bit_index;
            let value: u16 = self.bitmap[byte_index] as u16;
            let ghost byte_val = self.bitmap@[byte_index as int];
            proof {
                let bi = bit_index;
                assert(bi < 8 ==> ((1u16 << bi) << 1u8) != 0) by (bit_vector);
            }
            if value % (mask << 1u8) > 0 {
                while value & mask == 0
                    invariant
                        bit_index < 8,
                        mask == 1u16 << bit_index,
                        (byte_val as u16) % ((1u16 << bit_index) << 1u8) > 0,
                        8 * byte_index + bit_index <= hi,
                        forall|p: int| 8 * byte_index + bit_index < p <= hi ==> !bit_at(bm, p),
                    decreases bit_index,
                {
                    proof {
                        let x = byte_val;
                        let bi = bit_index;
                        assert((x as u16) & (1u16 << bi) == 0 && (x as u16) % ((1u16 << bi)
                            << 1u8) > 0 && bi < 8 ==> bi >= 1) by (bit_vector);
                        let bj = (bi - 1) as u8;
                        assert(bj == bi - 1 && 1 <= bi < 8 && (x as u16) & (1u16 << bi) == 0 && (
                        x as u16) % ((1u16 << bi) << 1u8) > 0 ==> ((1u16 << bi) >> 1u8) == (1u16
                            << bj) && (x as u16) % ((1u16 << bj) << 1u8) > 0 && ((x >> bi) & 1u8)
                            == 0u8) by (bit_vector);
                        lemma_fundamental_div_mod_converse(
                            8 * (byte_index as int) + bi as int,
                            8,
                            byte_index as int,
                            bi as int,
                        );
                        assert(!bit_at(bm, 8 * (byte_index as int) + bi as int));
                    }
                    mask = mask >> 1u8;
                    bit_index = bit_index - 1;
                }
                proof {
                    let x = byte_val;
                    let bi = bit_index;
                    assert((x as u16) & (1u16 << bi) != 0 && bi < 8 ==> ((x >> bi) & 1u8) == 1u8)
                        by (bit_vector);
                    lemma_fundamental_div_mod_converse(
                        8 * (byte_index as int) + bi as int,
                        8,
                        byte_index as int,
                        bi as int,
                    );
                    assert(bit_at(bm, 8 * (byte_index as int) + bi as int));
                }
                if byte_index > limiting_byte || (byte_index == limiting_byte && bit_index
                    >= limiting_bit) {
                    let found: usize = byte_index * 8 + (bit_index as usize);
                    let tick_index: i32 = (found as i32) - TICK_LIMIT;
                    proof {
                        let cur = 8 * (byte_index as int) + bit_index as int;
                        lemma_first_set_below_is(bm, hi, lo, cur);
                        lemma_mul_inequality(limit_index, cur - TICK_LIMIT, s);
                        lemma_mul_inequality(cur - TICK_LIMIT, k, s);
                    }
                    let result: i32 = tick_index * (tick_spacing as i32);
                    return Some(result);
                } else {
                    proof {
                        lemma_first_set_below_none(bm, hi, lo);
                    }
                    return None;
                }
            }
            proof {
                let x = byte_val;
                let bi = bit_index;
                assert((x as u16) % ((1u16 << bi) << 1u8) == 0 && bi < 8 ==> forall|k2: u8|
                    k2 <= bi ==> ((x >> k2) & 1u8) == 0u8) by (bit_vector);
                assert forall|p: int|
                    8 * byte_index <= p <= 8 * byte_index + bit_index implies !bit_at(bm, p) by {
                    lemma_fundamental_div_mod_converse(p, 8, byte_index as int, p - 8 * (
                    byte_index as int));
                };
            }
            if byte_index == 0 {
                proof {
                    lemma_first_set_below_none(bm, hi, lo);
                }
                return None;
            }
            byte_index = byte_index - 1;
            bit_index = 7;
        }
        proof {
            if lo <= hi {
                lemma_first_set_below_none(bm, hi, lo);
            }
        }
        None
    }

    /// Sets (`value == true`) or clears (`value == false`) the presence bit
    /// for `tick`, leaving every other position untouched.
    pub fn flip(&mut self, value: bool, tick: i32, tick_spacing: u16)
        requires
            old(self).wf(),
            tick_spacing >= 1,
            (tick as int) % (tick_spacing as int) == 0,
            0 <= (tick as int) / (tick_spacing as int) + TICK_LIMIT <= TICKMAP_SIZE,
        ensures
            final(self).wf(),
            final(self).tick_set(tick as int, tick_spacing as int) == value,
            forall|p: int|
                0 <= p < 8 * TICKMAP_BYTES && p != (tick as int) / (tick_spacing as int)
                    + TICK_LIMIT ==> bit_at(final(self).bitmap@, p) == bit_at(old(self).bitmap@, p),
            forall|u: int|
                valid_tick(u, tick_spacing as int) && u != tick ==> final(self).tick_set(
                    u,
                    tick_spacing as int,
                ) == old(self).tick_set(u, tick_spacing as int),
    {
        let (byte_index, bit_index) = tick_to_position(tick, tick_spacing);
        let b: u8 = self.bitmap[byte_index];
        let nb: u8 = if value {
            b | (1u8 << bit_index)
        } else {
            b & !(1u8 << bit_index)
        };
        self.bitmap.set(byte_index, nb);
        proof {
            let s = tick_spacing as int;
            let pos = (tick as int) / s + TICK_LIMIT;
            lemma_fundamental_div_mod_converse(pos, 8, byte_index as int, bit_index as int);
            let bi = bit_index;
            if value {
                assert(forall|k: u8|
                    k < 8 && bi < 8 ==> ((b | (1u8 << bi)) >> k) & 1u8 == (if k == bi {
                        1u8
                    } else {
                        (b >> k) & 1u8
                    })) by (bit_vector);
            } else {
                assert(forall|k: u8|
                    k < 8 && bi < 8 ==> ((b & !(1u8 << bi)) >> k) & 1u8 == (if k == bi {
                        0u8
                    } else {
                        (b >> k) & 1u8
                    })) by (bit_vector);
            }
            assert(self.bitmap@[pos / 8] == nb);
            assert((pos % 8) as u8 == bi);
            if value {
                assert(((b | (1u8 << bi)) >> bi) & 1u8 == 1u8) by (bit_vector)
                    requires
                        bi < 8,
                ;
            } else {
                assert(((b & !(1u8 << bi)) >> bi) & 1u8 == 0u8) by (bit_vector)
                    requires
                        bi < 8,
                ;
            }
            assert(bit_at(self.bitmap@, pos) == value);
            assert forall|p: int| 0 <= p < 8 * TICKMAP_BYTES && p != pos implies bit_at(
                self.bitmap@,
                p,
            ) == bit_at(old(self).bitmap@, p) by {
                lemma_fundamental_div_mod(p, 8);
                if p / 8 == byte_index as int {
                    assert((p % 8) as u8 != bi);
                }
            };
            assert forall|u: int| valid_tick(u, s) && u != tick implies self.tick_set(u, s)
                == old(self).tick_set(u, s) by {
                lemma_div_exact_ordered(u, tick as int, s);
            };
        }
    }
}


/// Ticks reconstructed from bitmap positions are aligned and divide back.
proof fn lemma_pos_tick(p: int, s: int)
    requires
        s >= 1,
    ensures
        ((p - TICK_LIMIT) * s) % s == 0,
        ((p - TICK_LIMIT) * s) / s == p - TICK_LIMIT,
{
    lemma_fundamental_div_mod_converse((p - TICK_LIMIT) * s, s, p - TICK_LIMIT, 0);
}

/// With tick `t` initialized and nothing else set between them, an upward
/// search from any aligned tick below `t` and within window reach of it
/// returns exactly `t`. This is what makes a freshly flipped-on tick visible
/// to every upward search beneath it.
pub proof fn lemma_flip_then_next_initialized(bm: Seq<u8>, t: int, from: int, s: int)
    requires
        valid_tick(t, s),
        valid_tick(from, s),
        bit_at(bm, t / s + TICK_LIMIT),
        from < t,
        t <= spec_search_limit(from, s, true),
        forall|u: int| from < u < t && u % s == 0 ==> !bit_at(bm, #[trigger] (u / s) + TICK_LIMIT),
    ensures
        spec_next_initialized(bm, from, s) == Some(t as i32),
{
    let kf = from / s;
    let kt = t / s;
    let limit = spec_search_limit(from, s, true);
    lemma_exact_div(from, s);
    lemma_exact_div(t, s);
    lemma_limit_index_bounds(from, s);
    let li = min_int(min_int((TICK_LIMIT - 1) as int, kf + TICK_SEARCH_RANGE), MAX_TICK as int / s);
    lemma_fundamental_div_mod_converse(limit, s, li, 0);
    lemma_div_exact_ordered(from, t, s);
    lemma_div_exact_ordered(t, limit, s);
    let lo = kf + 1 + TICK_LIMIT;
    let hi = li + TICK_LIMIT;
    let pos_t = kt + TICK_LIMIT;
    assert forall|p: int| lo <= p < pos_t implies !bit_at(bm, p) by {
        let u = (p - TICK_LIMIT) * s;
        lemma_pos_tick(p, s);
        lemma_mul_strict_inequality(kf, p - TICK_LIMIT, s);
        lemma_mul_strict_inequality(p - TICK_LIMIT, kt, s);
        assert(!bit_at(bm, u / s + TICK_LIMIT));
    };
    lemma_first_set_above_is(bm, lo, hi, pos_t);
}

/// A downward search starting exactly on an initialized tick returns that
/// tick: the scan is inclusive of its starting point.
pub proof fn lemma_prev_initialized_inclusive(bm: Seq<u8>, t: int, s: int)
    requires
        valid_tick(t, s),
        bit_at(bm, t / s + TICK_LIMIT),
    ensures
        spec_prev_initialized(bm, t, s) == Some(t as i32),
{
    let kt = t / s;
    let limit = spec_search_limit(t, s, false);
    lemma_exact_div(t, s);
    lemma_limit_index_bounds(t, s);
    let li = max_int(
        max_int((-TICK_LIMIT + 1) as int, kt - TICK_SEARCH_RANGE),
        -(MAX_TICK as int / s),
    );
    lemma_fundamental_div_mod_converse(limit, s, li, 0);
    lemma_first_set_below_is(bm, kt + TICK_LIMIT, li + TICK_LIMIT, kt + TICK_LIMIT);
}

/// An upward search starting exactly on a tick does not see that tick: with
/// nothing set above it inside the window, the search finds nothing.
pub proof fn lemma_next_initialized_exclusive(bm: Seq<u8>, t: int, s: int)
    requires
        valid_tick(t, s),
        forall|u: int|
            t < u <= spec_search_limit(t, s, true) && u % s == 0 ==> !bit_at(
                bm,
                #[trigger] (u / s) + TICK_LIMIT,
            ),
    ensures
        spec_next_initialized(bm, t, s) == None::<i32>,
{
    let kt = t / s;
    let limit = spec_search_limit(t, s, true);
    lemma_exact_div(t, s);
    lemma_limit_index_bounds(t, s);
    let li = min_int(min_int((TICK_LIMIT - 1) as int, kt + TICK_SEARCH_RANGE), MAX_TICK as int / s);
    lemma_fundamental_div_mod_converse(limit, s, li, 0);
    let lo = kt + 1 + TICK_LIMIT;
    let hi = li + TICK_LIMIT;
    assert forall|p: int| lo <= p <= hi implies !bit_at(bm, p) by {
        let u = (p - TICK_LIMIT) * s;
        lemma_pos_tick(p, s);
        lemma_mul_strict_inequality(kt, p - TICK_LIMIT, s);
        lemma_mul_inequality(p - TICK_LIMIT, li, s);
        assert(!bit_at(bm, u / s + TICK_LIMIT));
    };
    if lo <= hi {
        lemma_first_set_above_none(bm, lo, hi);
    }
}

impl Default for Tickmap {
    /// An empty map: no tick is initialized.
    fn default() -> (r: Tickmap)
        ensures
            r.wf(),
            forall|p: int| 0 <= p < 8 * TICKMAP_BYTES ==> !bit_at(r.bitmap@, p),
    {
        Tickmap::empty()
    }
}

} // verus!
