use crate::coords::ChunkCoord;
use vstd::prelude::*;

verus! {

/// Bookkeeping for one loaded chunk column.
#[derive(Debug, Clone, Copy, PartialEq, Eq, Structural)]
pub struct Chunk {
    pub coord: ChunkCoord,
    pub dirty: bool,
}

/// A freshly created, clean chunk at `coord`.
pub open spec fn fresh_chunk(coord: ChunkCoord) -> Chunk {
    Chunk { coord, dirty: false }
}

impl Chunk {
    /// A clean chunk at `coord`.
    pub fn new(coord: ChunkCoord) -> (c: Self)
        ensures
            c == fresh_chunk(coord),
    {
        Self { coord, dirty: false }
    }
}

} // verus!
