use crate::tile_data::TileError;
use crate::tile_data::TileTextureData;
use crate::worldgen::generator::RoomGenerator;
use crate::worldgen::raster::blit_failure_at;
use crate::worldgen::raster::blit_fails_with;
use crate::worldgen::raster::blit_succeeds;
use crate::worldgen::raster::blit_tile;
use crate::worldgen::raster::blitted;
use crate::worldgen::raster::fits;
use crate::worldgen::raster::no_failure_before;
use crate::worldgen::raster::tiles;
use crate::worldgen::terrain::same_textures;
use crate::worldgen::terrain::terrain_tiles;
use crate::worldgen::terrain::TerrainData;
use vstd::prelude::*;

verus! {

impl RoomGenerator {
    /// Writes `input` into the map with its first cell at `(x, y)`. Empty
    /// tiles of the patch are passed over; every other tile is written only
    /// where it may replace what is there. Textures stay as they are.
    ///
    /// Fails, and changes nothing, where a creature of the patch meets a cell
    /// of which the replacement is not defined; the failure is that of the
    /// first such tile, the patch read column by column.
    pub fn blit(
        output: &mut Vec<Vec<TerrainData>>,
        input: Vec<Vec<TileTextureData>>,
        x: usize,
        y: usize,
    ) -> (done: Result<(), TileError>)
        requires
            fits(terrain_tiles(*old(output)), tiles(input), x as int, y as int),
        ensures
            done is Ok <==> blit_succeeds(
                terrain_tiles(*old(output)),
                tiles(input),
                x as int,
                y as int,
                true,
            ),
            done matches Err(failure) ==> blit_fails_with(
                terrain_tiles(*old(output)),
                tiles(input),
                x as int,
                y as int,
                true,
                failure,
            ) && *final(output) == *old(output),
            done is Ok ==> terrain_tiles(*final(output)) == blitted(
                terrain_tiles(*old(output)),
                tiles(input),
                x as int,
                y as int,
                true,
            ),
            same_textures(*old(output), *final(output)),
    {
        let ghost dest = terrain_tiles(*output);
        let ghost patch = tiles(input);
        let ghost ox = x as int;
        let ghost oy = y as int;
        for input_x in 0..input.len()
            invariant
                dest == terrain_tiles(*output),
                patch == tiles(input),
                *output == *old(output),
                ox == x,
                oy == y,
                fits(dest, patch, ox, oy),
                no_failure_before(dest, patch, ox, oy, true, input_x as int, 0),
        {
            assert(patch[input_x as int] == input[input_x as int]@);
            assert(dest[ox + input_x].len() == output[ox + input_x].len());
            let column_len = input[input_x].len();
            for input_y in 0..column_len
                invariant
                    column_len == input[input_x as int].len(),
                    dest == terrain_tiles(*output),
                    patch == tiles(input),
                    *output == *old(output),
                    ox == x,
                    oy == y,
                    input_x < input.len(),
                    fits(dest, patch, ox, oy),
                    patch[input_x as int] == input[input_x as int]@,
                    dest[ox + input_x].len() == output[ox + input_x].len(),
                    no_failure_before(dest, patch, ox, oy, true, input_x as int, input_y as int),
            {
                assert(oy + patch[input_x as int].len() <= output[ox + input_x].len());
                assert(dest[ox + input_x][oy + input_y] == output[ox + input_x][oy
                    + input_y].tile_data);
                if input[input_x][input_y] != TileTextureData::Empty {
                    match input[input_x][input_y].can_replace(
                        output[input_x + x][input_y + y].tile_data,
                    ) {
                        Ok(_) => {},
                        Err(failure) => {
                            assert(blit_failure_at(
                                dest,
                                patch,
                                ox,
                                oy,
                                true,
                                input_x as int,
                                input_y as int,
                            ) == Some(failure));
                            return Err(failure);
                        },
                    }
                }
                assert(blit_failure_at(dest, patch, ox, oy, true, input_x as int, input_y as int)
                    is None);
            }
        }
        for input_x in 0..input.len()
            invariant
                dest == terrain_tiles(*old(output)),
                patch == tiles(input),
                ox == x,
                oy == y,
                fits(dest, patch, ox, oy),
                blit_succeeds(dest, patch, ox, oy, true),
                same_textures(*old(output), *output),
                forall|cx: int, cy: int|
                    0 <= cx < dest.len() && 0 <= cy < dest[cx].len() ==> (
                    #[trigger] output[cx][cy]).tile_data == if cx - ox < input_x {
                        blit_tile(dest, patch, ox, oy, true, cx, cy)
                    } else {
                        dest[cx][cy]
                    },
        {
            assert(patch[input_x as int] == input[input_x as int]@);
            assert(dest[ox + input_x].len() == output[ox + input_x].len());
            let column_len = input[input_x].len();
            for input_y in 0..column_len
                invariant
                    column_len == input[input_x as int].len(),
                    dest == terrain_tiles(*old(output)),
                    patch == tiles(input),
                    ox == x,
                    oy == y,
                    input_x < input.len(),
                    fits(dest, patch, ox, oy),
                    blit_succeeds(dest, patch, ox, oy, true),
                    patch[input_x as int] == input[input_x as int]@,
                    same_textures(*old(output), *output),
                    forall|cx: int, cy: int|
                        0 <= cx < dest.len() && 0 <= cy < dest[cx].len() ==> (
                        #[trigger] output[cx][cy]).tile_data == if cx - ox < input_x || (cx - ox
                            == input_x && cy - oy < input_y) {
                            blit_tile(dest, patch, ox, oy, true, cx, cy)
                        } else {
                            dest[cx][cy]
                        },
            {
                let new = input[input_x][input_y];
                assert(dest[ox + input_x].len() == output[ox + input_x].len());
                assert(oy + patch[input_x as int].len() <= output[ox + input_x].len());
                assert(output[ox + input_x][oy + input_y].tile_data == dest[ox + input_x][oy
                    + input_y]);
                assert(blit_failure_at(dest, patch, ox, oy, true, input_x as int, input_y as int)
                    is None);
                if new != TileTextureData::Empty {
                    let replace = match new.can_replace(output[input_x + x][input_y + y].tile_data) {
                        Ok(decision) => decision,
                        Err(_) => false,
                    };
                    if replace {
                        output[input_x + x][input_y + y].tile_data = new;
                    }
                }
            }
        }
        proof {
            let after = terrain_tiles(*output);
            let goal = blitted(dest, patch, ox, oy, true);
            assert(after.len() == goal.len());
            assert forall|cx: int| 0 <= cx < goal.len() implies #[trigger] after[cx] == goal[cx] by {
                assert(output[cx].len() == old(output)[cx].len());
                assert forall|cy: int| 0 <= cy < goal[cx].len() implies #[trigger] after[cx][cy]
                    == goal[cx][cy] by {
                    assert(output[cx][cy].tile_data == after[cx][cy]);
                }
                assert(after[cx] =~= goal[cx]);
            }
            assert(after =~= goal);
        }
        Ok(())
    }
}

} // verus!
