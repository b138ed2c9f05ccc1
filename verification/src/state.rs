use vstd::prelude::*;

verus! {

/// Where a chunk is in its streaming life cycle.
#[derive(Debug, Clone, Copy, PartialEq, Eq, Structural)]
pub enum ChunkState {
    Requested,
    Generating,
    Meshing,
    Resident,
    Evicting,
}

} // verus!
