//! Node parameter values and definitions.

use vstd::prelude::*;

verus! {

/// A node parameter value. Real-valued parameters are carried as their
/// IEEE-754 single-precision bit pattern: the library stores and compares
/// them, and never computes with them.
#[derive(Clone, Copy, Debug, PartialEq, Eq, Structural)]
pub enum ParamValue {
    Int(i32),
    Bool(bool),
    FloatBits(u32),
}

/// A parameter a node type declares: its name and default value.
#[derive(Clone, Copy, Debug, PartialEq, Eq)]
pub struct ParamDef {
    pub name: &'static str,
    pub default: ParamValue,
}

impl ParamDef {
    /// The value a fresh node instance starts with.
    pub fn default_value(&self) -> (r: ParamValue)
        ensures
            r == self.default,
    {
        self.default
    }
}

} // verus!
