use crate::tile_data::TileTextureData;
use crate::worldgen::raster::Cells;
use vstd::prelude::*;

verus! {

/// One cell of the map: what it holds and the texture chosen for it.
#[derive(Clone, Copy, Debug, Eq, PartialEq, Structural)]
pub struct TerrainData {
    pub texture: u32,
    pub tile_data: TileTextureData,
}

/// The tiles of a map, column by column.
pub open spec fn terrain_tiles(map: Vec<Vec<TerrainData>>) -> Cells {
    Seq::new(
        map.len() as nat,
        |x: int| Seq::new(map[x].len() as nat, |y: int| map[x][y].tile_data),
    )
}

/// The textures of a map, column by column.
pub open spec fn terrain_textures(map: Vec<Vec<TerrainData>>) -> Seq<Seq<u32>> {
    Seq::new(map.len() as nat, |x: int| Seq::new(map[x].len() as nat, |y: int| map[x][y].texture))
}

/// Two maps of one shape that hold the same textures.
pub open spec fn same_textures(before: Vec<Vec<TerrainData>>, after: Vec<Vec<TerrainData>>) -> bool {
    &&& after.len() == before.len()
    &&& forall|x: int| 0 <= x < before.len() ==> (#[trigger] after[x]).len() == before[x].len()
    &&& forall|x: int, y: int|
        0 <= x < before.len() && 0 <= y < before[x].len() ==> (#[trigger] after[x][y]).texture
            == before[x][y].texture
}

} // verus!
