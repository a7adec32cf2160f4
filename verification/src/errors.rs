//! User-facing failure codes of the indexing core.

use vstd::prelude::*;

verus! {

/// Errors surfaced to callers of the core operations. Everything else that can
/// go wrong is an invariant violation, ruled out by the functions' contracts.
#[derive(Clone, Copy, PartialEq, Eq, Structural, Debug)]
pub enum InvariantErrorCode {
    /// A tick index is misaligned, out of the bitmap's range, or a range's
    /// bounds are out of order.
    InvalidTickIndex,
    /// A directional search exhausted its whole window without movement.
    LimitReached,
}

} // verus!
