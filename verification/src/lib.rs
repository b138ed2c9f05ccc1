//! Voxel world engine core: coordinates, frame budgets, terrain, chunk
//! streaming state, meshing of visible faces and region file framing.

pub mod budget;
pub mod coords;
pub mod item;
pub mod metrics;
pub mod config;
pub mod voxel;
pub mod chunk;
pub mod state;
pub mod generator;
pub mod fxmap;
pub mod manager;
pub mod order;
pub mod visibility;
pub mod text;
pub mod region;
pub mod world;
pub mod mesh;
pub mod physics;
pub mod input;
pub mod quads;
