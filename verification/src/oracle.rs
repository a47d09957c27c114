//! The three-level differential oracle hierarchy.
//!
//! Each level compares two final statevectors with strictly less
//! information than the level below it:
//!
//! - **N1 Amplitude**: equality of amplitudes modulo one global phase.
//! - **N2 Probability**: equality of |amplitude|² only, everything any
//!   sampling benchmark (QV, XEB, mirror, RB, QPE histograms) can see.
//! - **N3 Observable**: equality of single-qubit ⟨Z⟩ expectations.
//!
//! The distances themselves are floating-point computations and are
//! evaluated outside this crate.

use vstd::prelude::*;

verus! {

/// Oracle strictness level.
#[derive(Debug, Clone, Copy, PartialEq, Eq, Structural)]
pub enum OracleLevel {
    /// N1: amplitude equality modulo global phase.
    Amplitude,
    /// N2: probability (|amplitude|²) equality.
    Probability,
    /// N3: per-qubit ⟨Z⟩ expectation equality.
    Observable,
}

impl OracleLevel {
    /// Short label of the level, e.g. `N1-amplitude`.
    pub fn label(&self) -> (s: &'static str)
        ensures
            s@ == (match *self {
                OracleLevel::Amplitude => "N1-amplitude"@,
                OracleLevel::Probability => "N2-probability"@,
                OracleLevel::Observable => "N3-observable"@,
            }),
    {
        match self {
            OracleLevel::Amplitude => "N1-amplitude",
            OracleLevel::Probability => "N2-probability",
            OracleLevel::Observable => "N3-observable",
        }
    }
}

} // verus!
