//! The per-node context a node's footprint (extent) is computed from.

use vstd::prelude::*;

use crate::brush::wire::BrushWireType;
use crate::nodegraph::{NodeId, PortDef};
use crate::params::ParamValue;

verus! {

/// What a node sees when its contribution to the dab footprint is worked
/// out: its id, its parameter values, its port definitions, and the names
/// of its input ports that have an inbound wire (each listed once).
pub struct ExtentCtx<'a> {
    pub node_id: NodeId,
    pub params: &'a [ParamValue],
    pub port_defs: &'a [PortDef<BrushWireType>],
    pub wired_inputs: Vec<String>,
}

} // verus!
