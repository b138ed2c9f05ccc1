use vstd::prelude::*;

verus! {

/// Shape of the world.
#[derive(Debug, Clone, Copy, PartialEq, Eq, Structural)]
pub struct WorldConfig {
    pub vertical_height: i32,
    pub sea_level: i32,
    pub region_size: i32,
}

impl Default for WorldConfig {
    fn default() -> (c: Self)
        ensures
            c == (WorldConfig { vertical_height: 256, sea_level: 64, region_size: 8 }),
    {
        Self { vertical_height: 256, sea_level: 64, region_size: 8 }
    }
}

/// Limits on how many chunks are loaded and how much streaming work is done per frame.
#[derive(Debug, Clone, Copy, PartialEq, Eq, Structural)]
pub struct StreamingConfig {
    pub load_radius: i32,
    pub keep_radius: i32,
    pub max_active_chunks: usize,
    pub max_generation_jobs_per_frame: usize,
    pub max_mesh_jobs_per_frame: usize,
}

impl Default for StreamingConfig {
    fn default() -> (c: Self)
        ensures
            c == (StreamingConfig {
                load_radius: 5,
                keep_radius: 7,
                max_active_chunks: 128,
                max_generation_jobs_per_frame: 4,
                max_mesh_jobs_per_frame: 4,
            }),
    {
        Self {
            load_radius: 5,
            keep_radius: 7,
            max_active_chunks: 128,
            max_generation_jobs_per_frame: 4,
            max_mesh_jobs_per_frame: 4,
        }
    }
}

} // verus!
