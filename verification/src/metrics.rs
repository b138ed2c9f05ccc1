use vstd::prelude::*;

verus! {

/// The phases of per-frame world work that are timed separately.
#[derive(Debug, Clone, Copy, PartialEq, Eq, Hash, Structural)]
pub enum WorkPhase {
    Generate,
    Mesh,
    Upload,
    Save,
    Load,
}

/// How many tracked chunks are in each streaming state.
#[derive(Debug, Clone, Copy, PartialEq, Eq, Structural)]
pub struct WorldCounters {
    pub requested: usize,
    pub generating: usize,
    pub meshing: usize,
    pub resident: usize,
    pub evicting: usize,
}

impl Default for WorldCounters {
    fn default() -> (c: Self)
        ensures
            c == (WorldCounters { requested: 0, generating: 0, meshing: 0, resident: 0, evicting: 0 }),
    {
        WorldCounters { requested: 0, generating: 0, meshing: 0, resident: 0, evicting: 0 }
    }
}

} // verus!
