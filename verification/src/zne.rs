//! Zero-noise extrapolation settings.

use vstd::prelude::*;

verus! {

/// How measurements at several noise scales are extrapolated back to
/// zero noise.
#[derive(Debug, Clone, Copy)]
pub enum ExtrapolationMethod {
    Linear,
    Exponential,
    Richardson,
}

} // verus!
