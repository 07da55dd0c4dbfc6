use crate::tile_data::TileTextureData;
use crate::worldgen::terrain::TerrainData;
use vstd::prelude::*;

verus! {

/// A cell of the map by its column and row.
#[derive(Clone, Copy, Debug, Eq, PartialEq, Structural)]
pub struct GridPosition {
    pub x: u32,
    pub y: u32,
}

/// A creature on the map.
#[derive(Clone, Copy, Debug, Eq, PartialEq, Structural)]
pub struct Lifeform {
    pub texture: TerrainData,
    pub position: GridPosition,
    pub health: u32,
    pub strength: u32,
    pub defense: u32,
    pub level: u32,
    pub experience: u32,
}

impl Lifeform {
    /// The creature is of the given kind, stands on `(x, y)`, and has the
    /// texture, level and experience that every creature starts with and
    /// health, strength and defense within the ranges they are drawn from.
    pub open spec fn is_fresh(self, kind: TileTextureData, x: int, y: int) -> bool {
        &&& self.texture == (TerrainData { texture: 0, tile_data: kind })
        &&& self.position.x == x
        &&& self.position.y == y
        &&& 48 <= self.health < 61
        &&& 5 <= self.strength < 16
        &&& 0 <= self.defense < 6
        &&& self.level == 0
        &&& self.experience == 1
    }
}

} // verus!
