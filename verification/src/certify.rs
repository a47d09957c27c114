//! Outcomes of the QGCS conformance checks.

use vstd::prelude::*;

verus! {

/// The outcome of one conformance check.
pub enum CheckStatus {
    Pass,
    Fail { expected: String, got: String },
    Skip { reason: String },
}

/// One conformance check: what it checks, along which convention
/// dimension, and how it came out.
pub struct CheckResult {
    pub name: &'static str,
    pub dimension: &'static str,
    pub status: CheckStatus,
}

impl CheckResult {
    /// Whether the check passed.
    pub fn passed(&self) -> (b: bool)
        ensures
            b == (self.status is Pass),
    {
        match self.status {
            CheckStatus::Pass => true,
            _ => false,
        }
    }

    /// Whether the check was skipped.
    pub fn skipped(&self) -> (b: bool)
        ensures
            b == (self.status is Skip),
    {
        match self.status {
            CheckStatus::Skip { .. } => true,
            _ => false,
        }
    }
}

} // verus!
