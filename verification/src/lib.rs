//! Procedural dungeon generation: room packing, terrain rasterisation and
//! wall connectivity, with machine-checked contracts.

pub mod lifeform;
pub mod tile_data;
pub mod utils;
pub mod worldgen;
