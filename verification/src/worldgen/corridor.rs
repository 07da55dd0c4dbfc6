use crate::tile_data::empty_wall;
use crate::tile_data::TileTextureData;
use crate::worldgen::raster::is_grid;
use crate::worldgen::raster::tiles;
use crate::worldgen::raster::Cells;
use vstd::prelude::*;

verus! {

/// A passage between two points of the map: straight where the points share
/// a coordinate, else a column through the second point joined to a row
/// through the first.
#[derive(Eq, PartialEq, Clone, Debug, Copy, Structural)]
pub struct Corridor {
    pub from_x: usize,
    pub to_x: usize,
    pub from_y: usize,
    pub to_y: usize,
}

/// The smaller of two numbers.
pub open spec fn lesser(a: int, b: int) -> int {
    if a <= b {
        a
    } else {
        b
    }
}

/// The larger of two numbers.
pub open spec fn greater(a: int, b: int) -> int {
    if a >= b {
        a
    } else {
        b
    }
}

/// The tile that one straight run lays on a cell, if any. The run covers the
/// positions `lo..hi` along its line; `along` is the position of the cell on
/// the line and `across` its distance from it. The two ends are walls, the
/// line between them is floor, and both flanks are walls.
pub open spec fn run_tile(along: int, across: int, lo: int, hi: int) -> Option<TileTextureData> {
    if lo <= along < hi && -1 <= across <= 1 {
        if across == 0 && lo < along < hi - 1 {
            Some(TileTextureData::Floor)
        } else {
            Some(empty_wall())
        }
    } else {
        None
    }
}

/// What a cell holds after a run offered it its tile.
pub open spec fn after_run(old: TileTextureData, laid: Option<TileTextureData>) -> TileTextureData {
    match laid {
        Some(tile) => tile.written_over(old),
        None => old,
    }
}

impl Corridor {
    /// Both points leave room for a wall before them and two cells after.
    pub open spec fn wf(self) -> bool {
        &&& 1 <= self.from_x <= usize::MAX - 2
        &&& 1 <= self.to_x <= usize::MAX - 2
        &&& 1 <= self.from_y <= usize::MAX - 2
        &&& 1 <= self.to_y <= usize::MAX - 2
    }

    /// The map column of the first column of the patch.
    pub open spec fn offset_x(self) -> int {
        lesser(self.from_x as int, self.to_x as int) - 1
    }

    /// The map row of the first row of the patch.
    pub open spec fn offset_y(self) -> int {
        lesser(self.from_y as int, self.to_y as int) - 1
    }

    /// The number of columns of the patch.
    pub open spec fn extent_x(self) -> int {
        greater(self.from_x as int, self.to_x as int) + 2 - self.offset_x()
    }

    /// The number of rows of the patch.
    pub open spec fn extent_y(self) -> int {
        greater(self.from_y as int, self.to_y as int) + 2 - self.offset_y()
    }

    /// The corridor has a run along a column.
    pub open spec fn has_column(self) -> bool {
        self.from_x == self.to_x || self.from_y != self.to_y
    }

    /// The corridor has a run along a row.
    pub open spec fn has_row(self) -> bool {
        self.from_x != self.to_x
    }

    /// The tile that the run along the column of the second point lays on the
    /// patch cell `(x, y)`.
    pub open spec fn column_tile(self, x: int, y: int) -> Option<TileTextureData> {
        if self.has_column() {
            run_tile(y, x - (self.to_x - self.offset_x()), 0, self.extent_y())
        } else {
            None
        }
    }

    /// The tile that the run along the row of the first point lays on the
    /// patch cell `(x, y)`.
    pub open spec fn row_tile(self, x: int, y: int) -> Option<TileTextureData> {
        if self.has_row() {
            run_tile(x, y - (self.from_y - self.offset_y()), 0, self.extent_x())
        } else {
            None
        }
    }

    /// The tile at the patch cell `(x, y)`: floor where a run has floor, else
    /// wall where a run has wall, else nothing.
    pub open spec fn tile(self, x: int, y: int) -> TileTextureData {
        if self.column_tile(x, y) == Some(TileTextureData::Floor) || self.row_tile(x, y) == Some(
            TileTextureData::Floor,
        ) {
            TileTextureData::Floor
        } else if self.column_tile(x, y) is Some || self.row_tile(x, y) is Some {
            empty_wall()
        } else {
            TileTextureData::Empty
        }
    }

    /// The rendered corridor.
    pub open spec fn patch(self) -> Cells {
        Seq::new(
            self.extent_x() as nat,
            |x: int| Seq::new(self.extent_y() as nat, |y: int| self.tile(x, y)),
        )
    }

    /// Tests the condition [`Corridor::wf`].
    pub fn is_valid(&self) -> (valid: bool)
        ensures
            valid == self.wf(),
    {
        1 <= self.from_x && self.from_x <= usize::MAX - 2 && 1 <= self.to_x && self.to_x
            <= usize::MAX - 2 && 1 <= self.from_y && self.from_y <= usize::MAX - 2 && 1
            <= self.to_y && self.to_y <= usize::MAX - 2
    }

    /// Offers `new_data` to the cell `(x, y)`.
    pub fn set_at(x: usize, y: usize, new_data: TileTextureData, output: &mut Vec<Vec<TileTextureData>>)
        requires
            x < old(output).len(),
            y < old(output)[x as int].len(),
            !new_data.is_entity(),
        ensures
            final(output).len() == old(output).len(),
            forall|cx: int|
                0 <= cx < old(output).len() ==> (#[trigger] final(output)[cx]).len() == old(
                    output,
                )[cx].len(),
            forall|cx: int, cy: int|
                0 <= cx < old(output).len() && 0 <= cy < old(output)[cx].len()
                    ==> #[trigger] final(output)[cx][cy] == if cx == x && cy == y {
                    new_data.written_over(old(output)[cx][cy])
                } else {
                    old(output)[cx][cy]
                },
    {
        let replace = match new_data.can_replace(output[x][y]) {
            Ok(decision) => decision,
            Err(_) => false,
        };
        if replace {
            output[x][y] = new_data;
        }
    }

    /// Whether `val` is the first or the last position of `min..max`.
    pub fn is_extents(val: usize, min: usize, max: usize) -> (at_end: bool)
        requires
            max >= 1,
        ensures
            at_end == (val == min || val == max - 1),
    {
        val == min || val == max - 1
    }

    /// Lays the tiles of one position of a run: the cell on the line, a wall
    /// at an end and floor elsewhere, and a wall on either flank.
    pub fn render_corridor_tile(
        x: usize,
        y: usize,
        horizontal: bool,
        extents: bool,
        _start: bool,
        output: &mut Vec<Vec<TileTextureData>>,
    )
        requires
            horizontal ==> x < old(output).len() && 1 <= y && y + 1 < old(output)[x as int].len(),
            !horizontal ==> 1 <= x && x + 1 < old(output).len() && y < old(output)[x - 1].len() && y
                < old(output)[x as int].len() && y < old(output)[x + 1].len(),
        ensures
            final(output).len() == old(output).len(),
            forall|cx: int|
                0 <= cx < old(output).len() ==> (#[trigger] final(output)[cx]).len() == old(
                    output,
                )[cx].len(),
            forall|cx: int, cy: int|
                0 <= cx < old(output).len() && 0 <= cy < old(output)[cx].len()
                    ==> #[trigger] final(output)[cx][cy] == if cx == x && cy == y {
                    if extents {
                        empty_wall().written_over(old(output)[cx][cy])
                    } else {
                        TileTextureData::Floor.written_over(old(output)[cx][cy])
                    }
                } else if (horizontal && cx == x && (cy == y - 1 || cy == y + 1)) || (!horizontal
                    && cy == y && (cx == x - 1 || cx == x + 1)) {
                    empty_wall().written_over(old(output)[cx][cy])
                } else {
                    old(output)[cx][cy]
                },
    {
        let wall = TileTextureData::Wall {
            connects_north: false,
            connects_south: false,
            connects_east: false,
            connects_west: false,
        };
        if extents {
            Self::set_at(x, y, wall, output);
        } else {
            Self::set_at(x, y, TileTextureData::Floor, output);
        }
        if horizontal {
            Self::set_at(x, y - 1, wall, output);
            Self::set_at(x, y + 1, wall, output);
        } else {
            Self::set_at(x - 1, y, wall, output);
            Self::set_at(x + 1, y, wall, output);
        }
    }

    /// Lays a run along the row `at_y`, from one cell before the smaller of
    /// `from_x` and `to_x` to one cell after the larger.
    pub fn x_corridor(from_x: usize, to_x: usize, at_y: usize, output: &mut Vec<Vec<TileTextureData>>)
        requires
            1 <= from_x,
            1 <= to_x,
            greater(from_x as int, to_x as int) + 2 <= old(output).len(),
            1 <= at_y,
            forall|cx: int|
                0 <= cx < old(output).len() ==> at_y + 1 < (#[trigger] old(output)[cx]).len(),
        ensures
            final(output).len() == old(output).len(),
            forall|cx: int|
                0 <= cx < old(output).len() ==> (#[trigger] final(output)[cx]).len() == old(
                    output,
                )[cx].len(),
            forall|cx: int, cy: int|
                0 <= cx < old(output).len() && 0 <= cy < old(output)[cx].len()
                    ==> #[trigger] final(output)[cx][cy] == after_run(
                    old(output)[cx][cy],
                    run_tile(
                        cx,
                        cy - at_y,
                        lesser(from_x as int, to_x as int) - 1,
                        greater(from_x as int, to_x as int) + 2,
                    ),
                ),
    {
        let min = if from_x <= to_x { from_x - 1 } else { to_x - 1 };
        let max = if from_x >= to_x { from_x + 2 } else { to_x + 2 };
        for x in min..max
            invariant
                min == lesser(from_x as int, to_x as int) - 1,
                max == greater(from_x as int, to_x as int) + 2,
                max <= old(output).len(),
                1 <= at_y,
                output.len() == old(output).len(),
                forall|cx: int|
                    0 <= cx < old(output).len() ==> (#[trigger] output[cx]).len() == old(
                        output,
                    )[cx].len(),
                forall|cx: int|
                    0 <= cx < old(output).len() ==> at_y + 1 < (#[trigger] old(output)[cx]).len(),
                forall|cx: int, cy: int|
                    0 <= cx < old(output).len() && 0 <= cy < old(output)[cx].len()
                        ==> #[trigger] output[cx][cy] == if cx < x {
                        after_run(
                            old(output)[cx][cy],
                            run_tile(cx, cy - at_y, min as int, max as int),
                        )
                    } else {
                        old(output)[cx][cy]
                    },
        {
            assert(at_y + 1 < old(output)[x as int].len());
            assert(output[x as int].len() == old(output)[x as int].len());
            Self::render_corridor_tile(
                x,
                at_y,
                true,
                Self::is_extents(x, min, max),
                Self::is_extents(x, min + 1, max - 1),
                output,
            );
        }
    }

    /// Lays a run along the column `at_x`, from one cell before the smaller
    /// of `from_y` and `to_y` to one cell after the larger.
    pub fn y_corridor(from_y: usize, to_y: usize, at_x: usize, output: &mut Vec<Vec<TileTextureData>>)
        requires
            1 <= from_y,
            1 <= to_y,
            1 <= at_x,
            at_x + 1 < old(output).len(),
            forall|cx: int|
                0 <= cx < old(output).len() ==> greater(from_y as int, to_y as int) + 2 <= (
                #[trigger] old(output)[cx]).len(),
        ensures
            final(output).len() == old(output).len(),
            forall|cx: int|
                0 <= cx < old(output).len() ==> (#[trigger] final(output)[cx]).len() == old(
                    output,
                )[cx].len(),
            forall|cx: int, cy: int|
                0 <= cx < old(output).len() && 0 <= cy < old(output)[cx].len()
                    ==> #[trigger] final(output)[cx][cy] == after_run(
                    old(output)[cx][cy],
                    run_tile(
                        cy,
                        cx - at_x,
                        lesser(from_y as int, to_y as int) - 1,
                        greater(from_y as int, to_y as int) + 2,
                    ),
                ),
    {
        assert(greater(from_y as int, to_y as int) + 2 <= old(output)[at_x as int].len());
        let min = if from_y <= to_y { from_y - 1 } else { to_y - 1 };
        let max = if from_y >= to_y { from_y + 2 } else { to_y + 2 };
        for y in min..max
            invariant
                min == lesser(from_y as int, to_y as int) - 1,
                max == greater(from_y as int, to_y as int) + 2,
                1 <= at_x,
                at_x + 1 < old(output).len(),
                output.len() == old(output).len(),
                forall|cx: int|
                    0 <= cx < old(output).len() ==> (#[trigger] output[cx]).len() == old(
                        output,
                    )[cx].len(),
                forall|cx: int|
                    0 <= cx < old(output).len() ==> max <= (#[trigger] old(output)[cx]).len(),
                forall|cx: int, cy: int|
                    0 <= cx < old(output).len() && 0 <= cy < old(output)[cx].len()
                        ==> #[trigger] output[cx][cy] == if cy < y {
                        after_run(
                            old(output)[cx][cy],
                            run_tile(cy, cx - at_x, min as int, max as int),
                        )
                    } else {
                        old(output)[cx][cy]
                    },
        {
            assert(max <= old(output)[at_x - 1].len());
            assert(max <= old(output)[at_x as int].len());
            assert(max <= old(output)[at_x + 1].len());
            assert(output[at_x - 1].len() == old(output)[at_x - 1].len());
            assert(output[at_x as int].len() == old(output)[at_x as int].len());
            assert(output[at_x + 1].len() == old(output)[at_x + 1].len());
            Self::render_corridor_tile(
                at_x,
                y,
                false,
                Self::is_extents(y, min, max),
                Self::is_extents(y, min + 1, max - 1),
                output,
            );
        }
    }

    /// The map cell on which the first cell of the rendered patch lands.
    pub fn get_offsets(&self) -> (offsets: (usize, usize))
        requires
            self.wf(),
        ensures
            offsets.0 == self.offset_x(),
            offsets.1 == self.offset_y(),
    {
        let min_x = if self.from_x <= self.to_x { self.from_x } else { self.to_x };
        let min_y = if self.from_y <= self.to_y { self.from_y } else { self.to_y };
        (min_x - 1, min_y - 1)
    }

    /// The number of columns and of rows of the rendered patch.
    pub fn get_extents(&self) -> (extents: (usize, usize))
        requires
            self.wf(),
        ensures
            extents.0 == self.extent_x(),
            extents.1 == self.extent_y(),
    {
        let (offset_x, offset_y) = self.get_offsets();
        let max_x = if self.from_x >= self.to_x { self.from_x } else { self.to_x };
        let max_y = if self.from_y >= self.to_y { self.from_y } else { self.to_y };
        (max_x + 2 - offset_x, max_y + 2 - offset_y)
    }

    /// Renders the corridor into a patch that spans both points and the
    /// walls around them.
    pub fn render(&self) -> (output: Vec<Vec<TileTextureData>>)
        requires
            self.wf(),
        ensures
            tiles(output) == self.patch(),
            is_grid(tiles(output), self.extent_x(), self.extent_y()),
    {
        let (offset_x, offset_y) = self.get_offsets();
        let (extents_x, extents_y) = self.get_extents();
        let mut output: Vec<Vec<TileTextureData>> = Vec::new();
        for x in 0..extents_x
            invariant
                output.len() == x,
                forall|cx: int| 0 <= cx < x ==> (#[trigger] output[cx]).len() == extents_y,
                forall|cx: int, cy: int|
                    0 <= cx < x && 0 <= cy < extents_y ==> #[trigger] output[cx][cy]
                        == TileTextureData::Empty,
        {
            output.push(vec![TileTextureData::Empty; extents_y]);
        }
        if self.from_x == self.to_x {
            Self::y_corridor(
                self.from_y - offset_y,
                self.to_y - offset_y,
                self.to_x - offset_x,
                &mut output,
            );
        } else if self.from_y == self.to_y {
            Self::x_corridor(
                self.from_x - offset_x,
                self.to_x - offset_x,
                self.from_y - offset_y,
                &mut output,
            );
        } else {
            Self::y_corridor(
                self.from_y - offset_y,
                self.to_y - offset_y,
                self.to_x - offset_x,
                &mut output,
            );
            Self::x_corridor(
                self.from_x - offset_x,
                self.to_x - offset_x,
                self.from_y - offset_y,
                &mut output,
            );
        }
        proof {
            let after = tiles(output);
            let goal = self.patch();
            assert(after.len() == goal.len());
            assert forall|cx: int| 0 <= cx < goal.len() implies #[trigger] after[cx] == goal[cx] by {
                assert(output[cx].len() == extents_y);
                assert forall|cy: int| 0 <= cy < goal[cx].len() implies #[trigger] after[cx][cy]
                    == goal[cx][cy] by {
                    assert(output[cx][cy] == after[cx][cy]);
                }
                assert(after[cx] =~= goal[cx]);
            }
            assert(after =~= goal);
        }
        output
    }
}

/// A corridor between two points of one column is three cells wide and three
/// cells longer than the points are apart; it has floor on the middle column
/// between the two ends, and walls everywhere else.
pub proof fn lemma_column_corridor(corridor: Corridor, x: int, y: int)
    requires
        corridor.wf(),
        corridor.from_x == corridor.to_x,
        0 <= x < corridor.extent_x(),
        0 <= y < corridor.extent_y(),
    ensures
        corridor.patch().len() == 3,
        corridor.patch()[x].len() == greater(
            corridor.from_y - corridor.to_y,
            corridor.to_y - corridor.from_y,
        ) + 3,
        corridor.patch()[x][y] == if x == 1 && 0 < y < corridor.extent_y() - 1 {
            TileTextureData::Floor
        } else {
            empty_wall()
        },
{
}

/// A corridor between two points of one row is three cells high and three
/// cells longer than the points are apart; it has floor on the middle row
/// between the two ends, and walls everywhere else.
pub proof fn lemma_row_corridor(corridor: Corridor, x: int, y: int)
    requires
        corridor.wf(),
        corridor.from_y == corridor.to_y,
        corridor.from_x != corridor.to_x,
        0 <= x < corridor.extent_x(),
        0 <= y < corridor.extent_y(),
    ensures
        corridor.patch().len() == greater(
            corridor.from_x - corridor.to_x,
            corridor.to_x - corridor.from_x,
        ) + 3,
        corridor.patch()[x].len() == 3,
        corridor.patch()[x][y] == if y == 1 && 0 < x < corridor.extent_x() - 1 {
            TileTextureData::Floor
        } else {
            empty_wall()
        },
{
}

} // verus!
