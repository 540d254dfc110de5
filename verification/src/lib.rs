//! Kernel-weighted interpolation over remembered probability distributions.
//!
//! All scalar quantities (coordinates, densities, kernel weights) are carried
//! as Q47.16 fixed-point values: an `i64` holding `round(value * 65536)`.
//! This keeps every operation of the core exact and provable; conversion from
//! and to floating point happens only at the edges, outside this crate.

use vstd::prelude::*;

pub mod fixed;
pub mod scan;
pub mod distribution;
pub mod rng;
pub mod blend;
pub mod spike;
pub mod kernel;
pub mod bmd;
pub mod laws;

verus! {

/// Errors a blend construction or query can report.
#[derive(Clone, Copy, Debug, PartialEq, Eq, Structural)]
pub enum DistError {
    /// An interval with `low >= high`, or a value outside the coordinate range.
    ConfigurationError,
    /// A categorical blend was given no strictly positive weight.
    EmptyWeightSet,
    /// `evaluate` was asked of a representation that only supports `sample`.
    UnsupportedOperation,
    /// A zero total weight would force a division by zero.
    NumericDegeneracy,
}

} // verus!
