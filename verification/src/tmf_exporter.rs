//! Per-export context handed to the segment encoders.

use vstd::prelude::*;

use crate::UNIT;

verus! {

/// What the segment encoders need to know about the mesh being written:
/// the shortest-edge reference length that position quantization scales
/// to.
#[derive(Debug, Clone, Copy, PartialEq, Eq, Structural)]
pub struct EncodeInfo {
    pub shortest_edge: u64,
}

impl Default for EncodeInfo {
    /// With nothing measured, one unit: the spacing assumed for a mesh
    /// with no triangle to measure.
    fn default() -> (r: EncodeInfo)
        ensures
            r == (EncodeInfo { shortest_edge: UNIT as u64 }),
    {
        EncodeInfo { shortest_edge: UNIT as u64 }
    }
}

} // verus!
