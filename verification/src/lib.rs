//! Pricing and settlement engine of a two-asset concentrated-liquidity
//! automated market maker.
//!
//! The engine works on plain integer values: amounts are fixed-point
//! decimals held in `u128` atomics, asset identifiers are `u64` numbers,
//! and time is a `u64` count of seconds. The host environment converts its
//! own asset and storage types to these values at the boundary.
//!
//! Layer by layer: [`wide`] holds the double-width integer arithmetic,
//! [`dec`] and [`sdec`] the fixed-point decimals over it, [`math`] the
//! Newton solver for the curve invariant, [`params`] and [`pool`] the pool
//! parameters and the price state with its repeg rule, [`swap`] and
//! [`liquidity`] the two settlement engines, [`manager`] the keyed pool
//! registry with its locks, and [`router`] the validated, atomic multi-hop
//! chain.

pub mod dec;
pub mod error;
pub mod liquidity;
pub mod manager;
pub mod math;
pub mod params;
pub mod pool;
pub mod router;
pub mod sdec;
pub mod swap;
pub mod wide;

pub use error::PoolError;
