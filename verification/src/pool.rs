//! Pool-level accounting state.

use vstd::prelude::*;
use crate::decimal::{Decimal, DENOMINATOR};

verus! {

/// The slice of pool state the indexing core reads and writes: the last
/// resolved boundary, the liquidity active at the current price, the global
/// fee and time-weighted accumulators, and the protocol's accrued fees.
#[derive(Clone, Copy, PartialEq, Eq, Structural, Debug)]
pub struct Pool {
    pub current_tick_index: i32,
    pub liquidity: Decimal,
    pub fee_growth_global_x: Decimal,
    pub fee_growth_global_y: Decimal,
    pub seconds_per_liquidity_global: Decimal,
    pub last_timestamp: u64,
    pub start_timestamp: u64,
    pub fee_protocol_token_x: u64,
    pub fee_protocol_token_y: u64,
}

impl Pool {
    /// Folds the time elapsed since the last update into the time-weighted
    /// seconds-per-liquidity accumulator, dividing by the active liquidity.
    /// Callers must rule out zero liquidity; with none active, only the
    /// timestamp may advance.
    pub fn update_seconds_per_liquidity_global(&mut self, current_timestamp: u64)
        requires
            old(self).liquidity.v > 0,
            current_timestamp >= old(self).last_timestamp,
            (current_timestamp - old(self).last_timestamp) * DENOMINATOR * DENOMINATOR
                <= u128::MAX,
            old(self).seconds_per_liquidity_global.v + ((current_timestamp - old(
            self,
            ).last_timestamp) * DENOMINATOR * DENOMINATOR) / (old(self).liquidity.v as int)
                <= u128::MAX,
        ensures
            *final(self) == (Pool {
                seconds_per_liquidity_global: Decimal {
                    v: (old(self).seconds_per_liquidity_global.v + ((current_timestamp - old(
                    self,
                    ).last_timestamp) * DENOMINATOR * DENOMINATOR) / (old(
                    self,
                    ).liquidity.v as int)) as u128,
                },
                last_timestamp: current_timestamp,
                ..*old(self)
            }),
    {
        let delta: u64 = current_timestamp - self.last_timestamp;
        let elapsed = Decimal::from_integer(delta as u128);
        let quotient = elapsed.div(self.liquidity);
        self.seconds_per_liquidity_global = self.seconds_per_liquidity_global.add(quotient);
        self.last_timestamp = current_timestamp;
    }

    /// Hands out the protocol fees accrued in both tokens and resets them to
    /// zero; the caller transfers the returned amounts.
    pub fn withdraw_protocol_fee(&mut self) -> (r: (u64, u64))
        ensures
            r.0 == old(self).fee_protocol_token_x,
            r.1 == old(self).fee_protocol_token_y,
            *final(self) == (Pool {
                fee_protocol_token_x: 0u64,
                fee_protocol_token_y: 0u64,
                ..*old(self)
            }),
    {
        let fee_x = self.fee_protocol_token_x;
        let fee_y = self.fee_protocol_token_y;
        self.fee_protocol_token_x = 0;
        self.fee_protocol_token_y = 0;
        (fee_x, fee_y)
    }
}

} // verus!
