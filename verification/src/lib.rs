//! A continuous weighted average over fixed-point decimals.
//!
//! The crate maintains the weighted mean of a stream of `(weight, value)`
//! contributions under incremental add and remove, without retaining any
//! per-contribution history. State lives in a single scalar cell that is
//! either absent or holds the pair `(total weight, current average)`.

pub mod cell;
pub mod continuous_average;
pub mod decimal;
pub mod error;
pub mod facade;
pub mod laws;
pub mod msg;
