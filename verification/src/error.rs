//! The failures of the engine.

use vstd::prelude::*;

verus! {

/// Why a run could not start or had to be aborted.
#[derive(Debug, Clone, Copy, PartialEq, Eq, Structural)]
pub enum SimError {
    /// The configuration is malformed or inconsistent; nothing was simulated.
    ConfigError,
    /// More identities were requested than the pool holds; the run is aborted.
    SamplingError,
}

} // verus!
