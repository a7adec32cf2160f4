//! Price/liquidity indexing core of a concentrated-liquidity market maker.
//!
//! The crate maps a continuous square-root-price axis onto a discrete,
//! spacing-quantized tick axis, keeps a compact bitmap of the ticks that carry
//! liquidity boundaries, and answers, for each trade step, where the step must
//! stop and what bookkeeping a tick crossing entails.

pub mod decimal;
pub mod errors;
pub mod incentive;
pub mod pool;
pub mod price;
pub mod tick;
pub mod tickmap;
pub mod util;
