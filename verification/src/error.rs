//! Error taxonomy of the engine.
//!
//! Every validation or arithmetic failure aborts the whole operation that
//! raised it; no partial state change is observable. `PoolLocked` is the one
//! error a caller is expected to retry.

use vstd::prelude::*;

verus! {

/// One error kind for every way an engine operation can fail.
#[derive(Clone, Copy, Debug, PartialEq, Eq, Structural)]
pub enum PoolError {
    /// The asset is not part of the pool.
    InvalidAsset,
    /// A hop trades an asset against itself.
    DoublingAssetsPath,
    /// The hop sequence is empty, too long, or two adjacent hops do not
    /// share an asset.
    InvalidPathOperations,
    /// A direct native-to-native conversion was requested.
    NativeSwapUnsupported,
    /// The realized spread of a swap exceeds the caller's limit.
    ExcessiveSpread,
    /// A liquidity provision moved the price beyond the caller's tolerance.
    SlippageToleranceExceeded,
    /// A swap chain returned less than the caller's minimum.
    MinimumReceiveNotMet,
    /// A deposit side is zero where a non-zero amount is required.
    InvalidZeroAmount,
    /// An initial deposit is too small to cover the burned minimum share.
    MinimumLiquidityAmountError,
    /// A checked fixed-point operation overflowed.
    ArithmeticOverflow,
    /// The iterative invariant solver did not converge.
    InvariantDidNotConverge,
    /// The pool is already locked by an operation in flight.
    PoolLocked,
    /// A stored record was not found.
    NotFound,
    /// A pool parameter lies outside its permitted range.
    IncorrectPoolParam,
    /// The invariant per share dropped: the action would make a loss for
    /// liquidity providers.
    XcpProfitDropped,
}

impl PoolError {
    /// A short stable name of the error kind, for host-side reporting.
    pub fn as_str(&self) -> (r: &'static str) {
        match self {
            PoolError::InvalidAsset => "invalid asset",
            PoolError::DoublingAssetsPath => "doubling assets path",
            PoolError::InvalidPathOperations => "invalid path operations",
            PoolError::NativeSwapUnsupported => "native swap unsupported",
            PoolError::ExcessiveSpread => "excessive spread",
            PoolError::SlippageToleranceExceeded => "slippage tolerance exceeded",
            PoolError::MinimumReceiveNotMet => "minimum receive not met",
            PoolError::InvalidZeroAmount => "invalid zero amount",
            PoolError::MinimumLiquidityAmountError => "minimum liquidity amount error",
            PoolError::ArithmeticOverflow => "arithmetic overflow",
            PoolError::InvariantDidNotConverge => "invariant did not converge",
            PoolError::PoolLocked => "pool locked",
            PoolError::NotFound => "not found",
            PoolError::IncorrectPoolParam => "incorrect pool param",
            PoolError::XcpProfitDropped => "xcp profit dropped",
        }
    }
}

} // verus!
