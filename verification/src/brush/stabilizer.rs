//! Stroke stabilizer configuration and per-push results.
//!
//! The stabilizer reshapes the whole stroke history before dabs are placed;
//! brushes choose the algorithm and its parameters, and each push reports
//! how far back the stabilized polyline changed.

use vstd::prelude::*;

use crate::params::ParamValue;

verus! {

/// Result of pushing a new point through the stabilizer.
#[derive(Clone, Copy, Debug, PartialEq, Eq)]
pub struct StabilizeResult {
    /// Earliest dab index that needs re-rendering (everything from here to
    /// the tip has changed). `None` means nothing diverged: only new points
    /// were appended.
    pub divergence_index: Option<usize>,
}

/// Per-brush stabilizer configuration.
#[derive(Debug, PartialEq)]
pub struct StabilizerConfig {
    /// Algorithm type id. Empty or `"none"` means pass-through.
    pub algorithm: String,
    /// Algorithm-specific parameter values.
    pub params: Vec<ParamValue>,
}

impl StabilizerConfig {
    /// Whether this is the pass-through default: no algorithm named and no
    /// parameters.
    pub open spec fn is_default(&self) -> bool {
        self.algorithm@.len() == 0 && self.params@.len() == 0
    }
}

impl Clone for StabilizerConfig {
    fn clone(&self) -> (r: Self)
        ensures
            r.algorithm@ == self.algorithm@,
            r.params@ == self.params@,
    {
        let params = self.params.clone();
        assert(params@ =~= self.params@);
        StabilizerConfig { algorithm: self.algorithm.clone(), params }
    }
}

impl Default for StabilizerConfig {
    /// No stabilization: an empty algorithm and no parameters.
    fn default() -> (r: Self)
        ensures
            r.algorithm@.len() == 0,
            r.params@.len() == 0,
    {
        StabilizerConfig { algorithm: String::new(), params: Vec::new() }
    }
}

} // verus!
