use crate::tile_data::TileTextureData;
use crate::worldgen::generator::RoomGenerator;
use crate::worldgen::raster::is_grid;
use crate::worldgen::raster::Cells;
use crate::worldgen::terrain::same_textures;
use crate::worldgen::terrain::terrain_tiles;
use crate::worldgen::terrain::TerrainData;
use vstd::prelude::*;

verus! {

/// The cell `(x, y)` exists.
pub open spec fn in_grid(cells: Cells, x: int, y: int) -> bool {
    0 <= x < cells.len() && 0 <= y < cells[x].len()
}

/// The cell `(x, y)` exists and holds floor or corridor.
pub open spec fn source_at(cells: Cells, x: int, y: int) -> bool {
    in_grid(cells, x, y) && cells[x][y].spec_makes_walls()
}

/// The cell `(x, y)` exists and holds a wall.
pub open spec fn wall_at(cells: Cells, x: int, y: int) -> bool {
    in_grid(cells, x, y) && cells[x][y].spec_connects_to_walls()
}

/// One of the eight neighbours of `(x, y)` holds floor or corridor.
pub open spec fn has_source(cells: Cells, x: int, y: int) -> bool {
    ||| source_at(cells, x - 1, y - 1)
    ||| source_at(cells, x - 1, y)
    ||| source_at(cells, x - 1, y + 1)
    ||| source_at(cells, x, y - 1)
    ||| source_at(cells, x, y + 1)
    ||| source_at(cells, x + 1, y - 1)
    ||| source_at(cells, x + 1, y)
    ||| source_at(cells, x + 1, y + 1)
}

/// Every neighbour of `(x, y)` that exists is empty.
pub open spec fn all_around_empty(cells: Cells, x: int, y: int) -> bool {
    forall|dx: int, dy: int|
        -1 <= dx <= 1 && -1 <= dy <= 1 && !(dx == 0 && dy == 0) && #[trigger] in_grid(
            cells,
            x + dx,
            y + dy,
        ) ==> cells[x + dx][y + dy] is Empty
}

/// The cell `(x, y)` holds a wall that the pass keeps.
pub open spec fn survives(cells: Cells, x: int, y: int) -> bool {
    wall_at(cells, x, y) && has_source(cells, x, y)
}

/// The wall that the neighbours of `(x, y)` call for, as `cells` stands.
pub open spec fn joined_wall(cells: Cells, x: int, y: int) -> TileTextureData {
    TileTextureData::Wall {
        connects_north: wall_at(cells, x, y + 1),
        connects_south: wall_at(cells, x, y - 1),
        connects_east: wall_at(cells, x + 1, y),
        connects_west: wall_at(cells, x - 1, y),
    }
}

/// What one look at the neighbours of `(x, y)` leaves in that cell: a wall
/// where a neighbour holds floor or corridor; nothing in place of a wall
/// without such a neighbour.
pub open spec fn checked_tile(cells: Cells, x: int, y: int) -> TileTextureData {
    if has_source(cells, x, y) {
        joined_wall(cells, x, y)
    } else if cells[x][y] is Wall {
        TileTextureData::Empty
    } else {
        cells[x][y]
    }
}

/// What the pass leaves in the cell `(x, y)`. A wall that is kept connects to
/// the walls that the pass has kept west and south of it, and to the walls
/// that stand east and north of it when the pass comes to it.
pub open spec fn wall_pass_tile(cells: Cells, x: int, y: int) -> TileTextureData {
    if cells[x][y] is Wall {
        if has_source(cells, x, y) {
            TileTextureData::Wall {
                connects_north: wall_at(cells, x, y + 1),
                connects_south: survives(cells, x, y - 1),
                connects_east: wall_at(cells, x + 1, y),
                connects_west: survives(cells, x - 1, y),
            }
        } else {
            TileTextureData::Empty
        }
    } else {
        cells[x][y]
    }
}

/// The map after the pass over all of its cells.
pub open spec fn wall_pass(cells: Cells) -> Cells {
    Seq::new(
        cells.len(),
        |x: int| Seq::new(cells[x].len(), |y: int| wall_pass_tile(cells, x, y)),
    )
}

/// The pass comes to `(cx, cy)` before it comes to `(x, y)`.
pub open spec fn passed(cx: int, cy: int, x: int, y: int) -> bool {
    cx < x || (cx == x && cy < y)
}

/// The pass changes walls only, and leaves walls or nothing in their place:
/// a cell holds floor or corridor afterwards exactly if it did before.
pub proof fn lemma_pass_keeps_sources(cells: Cells, x: int, y: int)
    requires
        in_grid(cells, x, y),
    ensures
        in_grid(wall_pass(cells), x, y),
        wall_pass(cells)[x][y].spec_makes_walls() == cells[x][y].spec_makes_walls(),
        wall_pass(cells)[x][y] is Wall ==> survives(cells, x, y),
{
}

/// After the pass every wall has floor or corridor among its eight
/// neighbours, so its neighbours are not all empty.
pub proof fn lemma_kept_walls_have_a_source(cells: Cells, x: int, y: int)
    requires
        in_grid(cells, x, y),
        wall_pass(cells)[x][y] is Wall,
    ensures
        has_source(wall_pass(cells), x, y),
        !all_around_empty(wall_pass(cells), x, y),
{
    let after = wall_pass(cells);
    assert(has_source(cells, x, y));
    let dx = if source_at(cells, x - 1, y - 1) || source_at(cells, x - 1, y) || source_at(
        cells,
        x - 1,
        y + 1,
    ) {
        -1int
    } else if source_at(cells, x, y - 1) || source_at(cells, x, y + 1) {
        0int
    } else {
        1int
    };
    let dy = if source_at(cells, x + dx, y - 1) {
        -1int
    } else if source_at(cells, x + dx, y) {
        0int
    } else {
        1int
    };
    assert(source_at(cells, x + dx, y + dy));
    lemma_pass_keeps_sources(cells, x + dx, y + dy);
    assert(source_at(after, x + dx, y + dy));
    assert(in_grid(after, x + dx, y + dy) && !(after[x + dx][y + dy] is Empty));
}

/// A wall that the pass keeps and that has neither floor nor corridor on any
/// of its four corners has floor or corridor on one of its four sides.
pub proof fn lemma_kept_walls_without_corner_source(cells: Cells, x: int, y: int)
    requires
        in_grid(cells, x, y),
        wall_pass(cells)[x][y] is Wall,
        !source_at(cells, x - 1, y - 1),
        !source_at(cells, x - 1, y + 1),
        !source_at(cells, x + 1, y - 1),
        !source_at(cells, x + 1, y + 1),
    ensures
        source_at(cells, x - 1, y) || source_at(cells, x + 1, y) || source_at(cells, x, y - 1)
            || source_at(cells, x, y + 1),
{
}

impl RoomGenerator {
    /// Whether walls connect to the cell `(x, y)`, and whether it calls for
    /// walls around it.
    pub fn check_neighbor(data: &Vec<Vec<TerrainData>>, x: usize, y: usize) -> (found: (bool, bool))
        requires
            x < data.len(),
            y < data[x as int].len(),
        ensures
            found.0 == wall_at(terrain_tiles(*data), x as int, y as int),
            found.1 == source_at(terrain_tiles(*data), x as int, y as int),
    {
        (data[x][y].tile_data.connects_to_walls(), data[x][y].tile_data.makes_walls())
    }

    /// Looks at the neighbours of the cell `(x, y)`: with floor or corridor
    /// among them the cell becomes a wall joined to the walls on its four
    /// sides; without, a wall there is taken away.
    ///
    /// Returns whether the wall connects west and south, or `(false, false)`
    /// where no wall was called for.
    pub fn check_neighbors(data: &mut Vec<Vec<TerrainData>>, x: usize, y: usize) -> (joined: (
        bool,
        bool,
    ))
        requires
            is_grid(
                terrain_tiles(*old(data)),
                old(data).len() as int,
                old(data)[x as int].len() as int,
            ),
            x < old(data).len(),
            y < old(data)[x as int].len(),
        ensures
            same_textures(*old(data), *final(data)),
            forall|cx: int, cy: int|
                0 <= cx < old(data).len() && 0 <= cy < old(data)[cx].len() ==> (
                #[trigger] final(data)[cx][cy]).tile_data == if cx == x && cy == y {
                    checked_tile(terrain_tiles(*old(data)), cx, cy)
                } else {
                    old(data)[cx][cy].tile_data
                },
            joined == if has_source(terrain_tiles(*old(data)), x as int, y as int) {
                (
                    wall_at(terrain_tiles(*old(data)), x - 1, y as int),
                    wall_at(terrain_tiles(*old(data)), x as int, y - 1),
                )
            } else {
                (false, false)
            },
    {
        let ghost cells = terrain_tiles(*data);
        let ghost height = data[x as int].len() as int;
        assert forall|cx: int| 0 <= cx < data.len() implies (#[trigger] data[cx]).len()
            == height by {
            assert(cells[cx].len() == height);
        }
        let mut connects_north = false;
        let mut connects_south = false;
        let mut connects_east = false;
        let mut connects_west = false;
        let mut make_wall = false;

        let minus_x = x > 0;
        let minus_y = y > 0;
        let plus_x = x < data.len() - 1;
        let plus_y = y < data[x].len() - 1;

        if minus_x && minus_y {
            let (_, temp_make_wall) = RoomGenerator::check_neighbor(data, x - 1, y - 1);
            make_wall = temp_make_wall || make_wall;
        }
        if minus_x {
            let (inner_connects_west, temp_make_wall) = RoomGenerator::check_neighbor(
                data,
                x - 1,
                y,
            );
            make_wall = make_wall || temp_make_wall;
            connects_west = inner_connects_west;
        }
        if minus_x && plus_y {
            let (_, temp_make_wall) = RoomGenerator::check_neighbor(data, x - 1, y + 1);
            make_wall = make_wall || temp_make_wall;
        }
        if minus_y {
            let (inner_connects_south, temp_make_wall) = RoomGenerator::check_neighbor(
                data,
                x,
                y - 1,
            );
            make_wall = make_wall || temp_make_wall;
            connects_south = inner_connects_south;
        }
        if plus_y {
            let (inner_connects_north, temp_make_wall) = RoomGenerator::check_neighbor(
                data,
                x,
                y + 1,
            );
            make_wall = make_wall || temp_make_wall;
            connects_north = inner_connects_north;
        }
        if plus_x && minus_y {
            let (_, temp_make_wall) = RoomGenerator::check_neighbor(data, x + 1, y - 1);
            make_wall = make_wall || temp_make_wall;
        }
        if plus_x {
            let (inner_connects_east, temp_make_wall) = RoomGenerator::check_neighbor(
                data,
                x + 1,
                y,
            );
            make_wall = make_wall || temp_make_wall;
            connects_east = inner_connects_east;
        }
        if plus_x && plus_y {
            let (_, temp_make_wall) = RoomGenerator::check_neighbor(data, x + 1, y + 1);
            make_wall = make_wall || temp_make_wall;
        }
        assert(make_wall == has_source(cells, x as int, y as int));
        if make_wall {
            data[x][y].tile_data = TileTextureData::Wall {
                connects_north,
                connects_east,
                connects_west,
                connects_south,
            };
            return (connects_west, connects_south);
        } else {
            match data[x][y].tile_data {
                TileTextureData::Wall { .. } => {
                    data[x][y].tile_data = TileTextureData::Empty;
                },
                _ => {},
            }
        }
        (false, false)
    }

    /// Runs the wall pass over the whole map, column by column: every wall
    /// is joined to its neighbours, or taken away where neither floor nor
    /// corridor is next to it.
    pub fn connect_walls(data: &mut Vec<Vec<TerrainData>>)
        requires
            exists|height: int|
                is_grid(terrain_tiles(*old(data)), old(data).len() as int, height),
        ensures
            same_textures(*old(data), *final(data)),
            terrain_tiles(*final(data)) == wall_pass(terrain_tiles(*old(data))),
    {
        let ghost cells = terrain_tiles(*data);
        let ghost height = choose|height: int| is_grid(cells, data.len() as int, height);
        let width = data.len();
        assert forall|cx: int| 0 <= cx < data.len() implies (#[trigger] data[cx]).len()
            == height by {
            assert(cells[cx].len() == height);
        }
        for x in 0..width
            invariant
                cells == terrain_tiles(*old(data)),
                is_grid(cells, width as int, height),
                width == old(data).len(),
                same_textures(*old(data), *data),
                forall|cx: int, cy: int|
                    0 <= cx < width && 0 <= cy < height ==> (#[trigger] data[cx][cy]).tile_data
                        == if cx < x {
                        wall_pass_tile(cells, cx, cy)
                    } else {
                        cells[cx][cy]
                    },
        {
            let column_len = data[x].len();
            assert(cells[x as int].len() == height);
            for y in 0..column_len
                invariant
                    cells == terrain_tiles(*old(data)),
                    is_grid(cells, width as int, height),
                    width == old(data).len(),
                    x < width,
                    column_len == height,
                    same_textures(*old(data), *data),
                    forall|cx: int, cy: int|
                        0 <= cx < width && 0 <= cy < height ==> (#[trigger] data[cx][cy]).tile_data
                            == if passed(cx, cy, x as int, y as int) {
                            wall_pass_tile(cells, cx, cy)
                        } else {
                            cells[cx][cy]
                        },
            {
                let ghost now = terrain_tiles(*data);
                proof {
                    assert(now.len() == width);
                    assert forall|cx: int| 0 <= cx < width implies (#[trigger] now[cx]).len()
                        == height by {
                        assert(data[cx].len() == old(data)[cx].len());
                        assert(cells[cx].len() == height);
                    }
                    assert forall|cx: int, cy: int|
                        0 <= cx < width && 0 <= cy < height implies #[trigger] now[cx][cy]
                        == if passed(cx, cy, x as int, y as int) {
                        wall_pass_tile(cells, cx, cy)
                    } else {
                        cells[cx][cy]
                    } by {
                        assert(now[cx][cy] == data[cx][cy].tile_data);
                    }
                    lemma_pass_step(cells, now, width as int, height, x as int, y as int);
                }
                match data[x][y].tile_data {
                    TileTextureData::Wall { .. } => {
                        RoomGenerator::check_neighbors(data, x, y);
                    },
                    _ => {},
                }
            }
        }
        proof {
            let after = terrain_tiles(*data);
            let goal = wall_pass(cells);
            assert(after.len() == goal.len());
            assert forall|cx: int| 0 <= cx < goal.len() implies #[trigger] after[cx] == goal[cx] by {
                assert(data[cx].len() == old(data)[cx].len());
                assert(cells[cx].len() == height);
                assert forall|cy: int| 0 <= cy < goal[cx].len() implies #[trigger] after[cx][cy]
                    == goal[cx][cy] by {
                    assert(after[cx][cy] == data[cx][cy].tile_data);
                }
                assert(after[cx] =~= goal[cx]);
            }
            assert(after =~= goal);
        }
    }
}

/// In the middle of the pass a cell holds floor or corridor exactly if it did
/// at the start.
pub proof fn lemma_source_kept(
    cells: Cells,
    now: Cells,
    width: int,
    height: int,
    x: int,
    y: int,
    nx: int,
    ny: int,
)
    requires
        is_grid(cells, width, height),
        is_grid(now, width, height),
        forall|cx: int, cy: int|
            0 <= cx < width && 0 <= cy < height ==> #[trigger] now[cx][cy] == if passed(
                cx,
                cy,
                x,
                y,
            ) {
                wall_pass_tile(cells, cx, cy)
            } else {
                cells[cx][cy]
            },
    ensures
        source_at(now, nx, ny) == source_at(cells, nx, ny),
{
    if 0 <= nx < width {
        assert(cells[nx].len() == height);
        assert(now[nx].len() == height);
        if 0 <= ny < height {
            let _ = now[nx][ny];
        }
    }
}

/// One look at the neighbours of a wall, in the middle of the pass, leaves
/// what the pass as a whole leaves in that cell.
pub proof fn lemma_pass_step(cells: Cells, now: Cells, width: int, height: int, x: int, y: int)
    requires
        is_grid(cells, width, height),
        is_grid(now, width, height),
        0 <= x < width,
        0 <= y < height,
        forall|cx: int, cy: int|
            0 <= cx < width && 0 <= cy < height ==> #[trigger] now[cx][cy] == if passed(
                cx,
                cy,
                x,
                y,
            ) {
                wall_pass_tile(cells, cx, cy)
            } else {
                cells[cx][cy]
            },
    ensures
        now[x][y] == cells[x][y],
        cells[x][y] is Wall ==> checked_tile(now, x, y) == wall_pass_tile(cells, x, y),
        !(cells[x][y] is Wall) ==> wall_pass_tile(cells, x, y) == cells[x][y],
{
    lemma_source_kept(cells, now, width, height, x, y, x - 1, y - 1);
    lemma_source_kept(cells, now, width, height, x, y, x - 1, y);
    lemma_source_kept(cells, now, width, height, x, y, x - 1, y + 1);
    lemma_source_kept(cells, now, width, height, x, y, x, y - 1);
    lemma_source_kept(cells, now, width, height, x, y, x, y + 1);
    lemma_source_kept(cells, now, width, height, x, y, x + 1, y - 1);
    lemma_source_kept(cells, now, width, height, x, y, x + 1, y);
    lemma_source_kept(cells, now, width, height, x, y, x + 1, y + 1);
    assert(source_at(now, x - 1, y - 1) == source_at(cells, x - 1, y - 1));
    assert(source_at(now, x - 1, y) == source_at(cells, x - 1, y));
    assert(source_at(now, x - 1, y + 1) == source_at(cells, x - 1, y + 1));
    assert(source_at(now, x, y - 1) == source_at(cells, x, y - 1));
    assert(source_at(now, x, y + 1) == source_at(cells, x, y + 1));
    assert(source_at(now, x + 1, y - 1) == source_at(cells, x + 1, y - 1));
    assert(source_at(now, x + 1, y) == source_at(cells, x + 1, y));
    assert(source_at(now, x + 1, y + 1) == source_at(cells, x + 1, y + 1));
    assert(has_source(now, x, y) == has_source(cells, x, y));
    if 0 <= x - 1 {
        assert(cells[x - 1].len() == height && now[x - 1].len() == height);
        assert(now[x - 1][y] == wall_pass_tile(cells, x - 1, y));
    }
    if x + 1 < width {
        assert(cells[x + 1].len() == height && now[x + 1].len() == height);
        assert(now[x + 1][y] == cells[x + 1][y]);
    }
    assert(cells[x].len() == height && now[x].len() == height);
    if 0 <= y - 1 {
        assert(now[x][y - 1] == wall_pass_tile(cells, x, y - 1));
    }
    if y + 1 < height {
        assert(now[x][y + 1] == cells[x][y + 1]);
    }
    assert(wall_at(now, x - 1, y) == survives(cells, x - 1, y));
    assert(wall_at(now, x, y - 1) == survives(cells, x, y - 1));
    assert(wall_at(now, x + 1, y) == wall_at(cells, x + 1, y));
    assert(wall_at(now, x, y + 1) == wall_at(cells, x, y + 1));
}

} // verus!
