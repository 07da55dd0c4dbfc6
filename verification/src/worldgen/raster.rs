use crate::tile_data::empty_wall;
use crate::tile_data::TileError;
use crate::tile_data::TileTextureData;
use crate::worldgen::geometry::Rect;
use crate::worldgen::geometry::Room;
use crate::worldgen::geometry::RoomView;
use vstd::prelude::*;

verus! {

/// A patch of tiles as columns of cells: `cells[x][y]`.
pub type Cells = Seq<Seq<TileTextureData>>;

/// The columns of a patch as mathematical sequences.
pub open spec fn tiles(patch: Vec<Vec<TileTextureData>>) -> Cells {
    Seq::new(patch.len() as nat, |x: int| patch[x]@)
}

/// `cells` has `width` columns of `height` cells each.
pub open spec fn is_grid(cells: Cells, width: int, height: int) -> bool {
    &&& cells.len() == width
    &&& forall|x: int| 0 <= x < width ==> (#[trigger] cells[x]).len() == height
}

/// Laid down with its first cell at `(ox, oy)`, every cell of `patch` lands
/// on a cell of `dest`.
pub open spec fn fits(dest: Cells, patch: Cells, ox: int, oy: int) -> bool {
    &&& 0 <= ox
    &&& 0 <= oy
    &&& forall|i: int|
        0 <= i < patch.len() ==> ox + i < dest.len() && oy + (#[trigger] patch[i]).len()
            <= dest[ox + i].len()
}

/// The tile of `patch` that lands on the cell `(x, y)`, if one does.
pub open spec fn offered(patch: Cells, ox: int, oy: int, x: int, y: int) -> Option<
    TileTextureData,
> {
    if ox <= x < ox + patch.len() && oy <= y < oy + patch[x - ox].len() {
        Some(patch[x - ox][y - oy])
    } else {
        None
    }
}

/// What the cell `(x, y)` of `dest` holds after `patch` was written at
/// `(ox, oy)`. With `skip_empty`, empty tiles of the patch are not offered.
pub open spec fn blit_tile(
    dest: Cells,
    patch: Cells,
    ox: int,
    oy: int,
    skip_empty: bool,
    x: int,
    y: int,
) -> TileTextureData {
    match offered(patch, ox, oy, x, y) {
        Some(new) => if skip_empty && new is Empty {
            dest[x][y]
        } else {
            new.written_over(dest[x][y])
        },
        None => dest[x][y],
    }
}

/// `dest` after `patch` was written at `(ox, oy)`.
pub open spec fn blitted(dest: Cells, patch: Cells, ox: int, oy: int, skip_empty: bool) -> Cells {
    Seq::new(
        dest.len(),
        |x: int|
            Seq::new(dest[x].len(), |y: int| blit_tile(dest, patch, ox, oy, skip_empty, x, y)),
    )
}

/// The failure, if any, of offering the cell `(i, j)` of `patch`.
pub open spec fn blit_failure_at(
    dest: Cells,
    patch: Cells,
    ox: int,
    oy: int,
    skip_empty: bool,
    i: int,
    j: int,
) -> Option<TileError> {
    if skip_empty && patch[i][j] is Empty {
        None
    } else {
        patch[i][j].replace_failure(dest[ox + i][oy + j])
    }
}

/// The cell `(i, j)` of a patch is offered before the cell `(k, l)`.
pub open spec fn offered_before(i: int, j: int, k: int, l: int) -> bool {
    i < k || (i == k && j < l)
}

/// No cell of `patch` that is offered before `(k, l)` fails.
pub open spec fn no_failure_before(
    dest: Cells,
    patch: Cells,
    ox: int,
    oy: int,
    skip_empty: bool,
    k: int,
    l: int,
) -> bool {
    forall|i: int, j: int|
        0 <= i < patch.len() && 0 <= j < patch[i].len() && offered_before(i, j, k, l)
            ==> #[trigger] blit_failure_at(dest, patch, ox, oy, skip_empty, i, j) is None
}

/// No cell of `patch` fails.
pub open spec fn blit_succeeds(dest: Cells, patch: Cells, ox: int, oy: int, skip_empty: bool) -> bool {
    no_failure_before(dest, patch, ox, oy, skip_empty, patch.len() as int, 0)
}

/// The first failure among the cells of `patch` is `failure`.
pub open spec fn blit_fails_with(
    dest: Cells,
    patch: Cells,
    ox: int,
    oy: int,
    skip_empty: bool,
    failure: TileError,
) -> bool {
    exists|k: int, l: int|
        0 <= k < patch.len() && 0 <= l < patch[k].len() && #[trigger] blit_failure_at(
            dest,
            patch,
            ox,
            oy,
            skip_empty,
            k,
            l,
        ) == Some(failure) && no_failure_before(dest, patch, ox, oy, skip_empty, k, l)
}

/// No tile of the patch stands for a creature.
pub open spec fn is_terrain(patch: Cells) -> bool {
    forall|i: int, j: int|
        0 <= i < patch.len() && 0 <= j < patch[i].len() ==> !(#[trigger] patch[i][j]).is_entity()
}

/// A patch without creatures can be written anywhere without failure.
pub proof fn lemma_terrain_blit_succeeds(
    dest: Cells,
    patch: Cells,
    ox: int,
    oy: int,
    skip_empty: bool,
)
    requires
        is_terrain(patch),
    ensures
        blit_succeeds(dest, patch, ox, oy, skip_empty),
{
    assert forall|i: int, j: int| 0 <= i < patch.len() && 0 <= j < patch[i].len() implies (
    #[trigger] blit_failure_at(dest, patch, ox, oy, skip_empty, i, j)) is None by {
        assert(!patch[i][j].is_entity());
    }
}

/// Writing the same patch a second time changes no cell.
pub proof fn lemma_blit_twice(dest: Cells, patch: Cells, ox: int, oy: int, skip_empty: bool)
    ensures
        blitted(blitted(dest, patch, ox, oy, skip_empty), patch, ox, oy, skip_empty) == blitted(
            dest,
            patch,
            ox,
            oy,
            skip_empty,
        ),
{
    let once = blitted(dest, patch, ox, oy, skip_empty);
    let twice = blitted(once, patch, ox, oy, skip_empty);
    assert(twice.len() == once.len());
    assert forall|x: int| 0 <= x < once.len() implies #[trigger] twice[x] == once[x] by {
        assert(twice[x].len() == once[x].len());
        assert forall|y: int| 0 <= y < once[x].len() implies #[trigger] twice[x][y]
            == once[x][y] by {
            match offered(patch, ox, oy, x, y) {
                Some(new) => {
                    crate::tile_data::lemma_write_twice(new, dest[x][y]);
                },
                None => {},
            }
        }
        assert(twice[x] =~= once[x]);
    }
    assert(twice =~= once);
}

/// No write puts anything in the place of an entrance or an exit.
pub proof fn lemma_blit_keeps_markers(
    dest: Cells,
    patch: Cells,
    ox: int,
    oy: int,
    skip_empty: bool,
    x: int,
    y: int,
)
    requires
        0 <= x < dest.len(),
        0 <= y < dest[x].len(),
        dest[x][y].is_marker(),
    ensures
        blitted(dest, patch, ox, oy, skip_empty)[x][y] == dest[x][y],
{
}

/// The tile at `(x, y)` of a rendered rectangle: a ring of walls around a
/// floor.
pub open spec fn rect_tile(rect: Rect, x: int, y: int) -> TileTextureData {
    if x == 0 || x == rect.width - 1 || y == 0 || y == rect.height - 1 {
        empty_wall()
    } else {
        TileTextureData::Floor
    }
}

/// A rendered rectangle.
pub open spec fn rect_patch(rect: Rect) -> Cells {
    Seq::new(
        rect.width as nat,
        |x: int| Seq::new(rect.height as nat, |y: int| rect_tile(rect, x, y)),
    )
}

/// One of the first `count` rectangles holds the cell inside its walls.
pub open spec fn floored(parts: Seq<Rect>, count: int, x: int, y: int) -> bool {
    exists|i: int| 0 <= i < count && (#[trigger] parts[i]).holds_inside(x, y)
}

/// One of the first `count` rectangles holds the cell.
pub open spec fn covered(parts: Seq<Rect>, count: int, x: int, y: int) -> bool {
    exists|i: int| 0 <= i < count && (#[trigger] parts[i]).holds(x, y)
}

/// The tile at the map cell `(x, y)` when the first `count` rectangles are
/// rendered together: floor inside any of them, else wall on any of them,
/// else nothing.
pub open spec fn parts_tile(parts: Seq<Rect>, count: int, x: int, y: int) -> TileTextureData {
    if floored(parts, count, x, y) {
        TileTextureData::Floor
    } else if covered(parts, count, x, y) {
        empty_wall()
    } else {
        TileTextureData::Empty
    }
}

/// The first `count` rectangles rendered into a patch that spans `frame`.
pub open spec fn parts_patch(parts: Seq<Rect>, count: int, frame: Rect) -> Cells {
    Seq::new(
        frame.width as nat,
        |x: int|
            Seq::new(
                frame.height as nat,
                |y: int| parts_tile(parts, count, frame.x + x, frame.y + y),
            ),
    )
}

/// A rendered room: a patch that spans its bounding box.
pub open spec fn room_patch(room: RoomView) -> Cells {
    parts_patch(room.rects(), room.rects().len() as int, room.bounds())
}

/// Taking one more rectangle into account adds the cells that it holds.
pub proof fn lemma_one_more_part(parts: Seq<Rect>, count: int, x: int, y: int)
    requires
        0 <= count < parts.len(),
    ensures
        floored(parts, count + 1, x, y) <==> floored(parts, count, x, y) || parts[count].holds_inside(
            x,
            y,
        ),
        covered(parts, count + 1, x, y) <==> covered(parts, count, x, y) || parts[count].holds(x, y),
{
    if floored(parts, count, x, y) {
        let i = choose|i: int| 0 <= i < count && (#[trigger] parts[i]).holds_inside(x, y);
        assert(0 <= i < count + 1 && parts[i].holds_inside(x, y));
    }
    if covered(parts, count, x, y) {
        let i = choose|i: int| 0 <= i < count && (#[trigger] parts[i]).holds(x, y);
        assert(0 <= i < count + 1 && parts[i].holds(x, y));
    }
    if parts[count].holds_inside(x, y) {
        assert(0 <= count < count + 1 && parts[count].holds_inside(x, y));
    }
    if parts[count].holds(x, y) {
        assert(0 <= count < count + 1 && parts[count].holds(x, y));
    }
}

/// Writing the next rectangle over the rendering of those before it gives
/// the rendering of all of them.
pub proof fn lemma_render_step(parts: Seq<Rect>, count: int, frame: Rect)
    requires
        0 <= count < parts.len(),
        frame.covers(parts[count]),
    ensures
        blitted(
            parts_patch(parts, count, frame),
            rect_patch(parts[count]),
            parts[count].x - frame.x,
            parts[count].y - frame.y,
            false,
        ) == parts_patch(parts, count + 1, frame),
{
    let part = parts[count];
    let before = parts_patch(parts, count, frame);
    let ox = part.x - frame.x;
    let oy = part.y - frame.y;
    let after = blitted(before, rect_patch(part), ox, oy, false);
    let goal = parts_patch(parts, count + 1, frame);
    assert(after.len() == goal.len());
    assert forall|x: int| 0 <= x < goal.len() implies #[trigger] after[x] == goal[x] by {
        assert(after[x].len() == goal[x].len());
        assert forall|y: int| 0 <= y < goal[x].len() implies #[trigger] after[x][y]
            == goal[x][y] by {
            lemma_one_more_part(parts, count, frame.x + x, frame.y + y);
            if part.holds(frame.x + x, frame.y + y) {
                assert(offered(rect_patch(part), ox, oy, x, y) == Some(
                    rect_tile(part, x - ox, y - oy),
                ));
            } else {
                assert(offered(rect_patch(part), ox, oy, x, y) is None);
            }
        }
        assert(after[x] =~= goal[x]);
    }
    assert(after =~= goal);
}

/// A rendered rectangle holds walls and floor only.
pub proof fn lemma_rect_patch_is_terrain(rect: Rect)
    ensures
        is_terrain(rect_patch(rect)),
{
}

impl Room {
    /// Writes `input` into `output` with its first cell at `(x, y)`, each
    /// tile only where it may replace what is there.
    ///
    /// Fails, and changes nothing, where a creature of the patch meets a cell
    /// of which the replacement is not defined; the failure is that of the
    /// first such tile, the patch read column by column.
    pub fn blit(
        output: &mut Vec<Vec<TileTextureData>>,
        input: Vec<Vec<TileTextureData>>,
        x: usize,
        y: usize,
    ) -> (done: Result<(), TileError>)
        requires
            fits(tiles(*old(output)), tiles(input), x as int, y as int),
        ensures
            done is Ok <==> blit_succeeds(
                tiles(*old(output)),
                tiles(input),
                x as int,
                y as int,
                false,
            ),
            done matches Err(failure) ==> blit_fails_with(
                tiles(*old(output)),
                tiles(input),
                x as int,
                y as int,
                false,
                failure,
            ) && *final(output) == *old(output),
            done is Ok ==> tiles(*final(output)) == blitted(
                tiles(*old(output)),
                tiles(input),
                x as int,
                y as int,
                false,
            ),
    {
        let ghost dest = tiles(*output);
        let ghost patch = tiles(input);
        let ghost ox = x as int;
        let ghost oy = y as int;
        for input_x in 0..input.len()
            invariant
                dest == tiles(*output),
                patch == tiles(input),
                *output == *old(output),
                ox == x,
                oy == y,
                fits(dest, patch, ox, oy),
                no_failure_before(dest, patch, ox, oy, false, input_x as int, 0),
        {
            assert(patch[input_x as int] == input[input_x as int]@);
            assert(dest[ox + input_x] == output[ox + input_x]@);
            let column_len = input[input_x].len();
            for input_y in 0..column_len
                invariant
                    column_len == input[input_x as int].len(),
                    dest == tiles(*output),
                    patch == tiles(input),
                    *output == *old(output),
                    ox == x,
                    oy == y,
                    input_x < input.len(),
                    fits(dest, patch, ox, oy),
                    patch[input_x as int] == input[input_x as int]@,
                    dest[ox + input_x] == output[ox + input_x]@,
                    no_failure_before(dest, patch, ox, oy, false, input_x as int, input_y as int),
            {
                assert(oy + patch[input_x as int].len() <= output[ox + input_x].len());
                match input[input_x][input_y].can_replace(output[input_x + x][input_y + y]) {
                    Ok(_) => {},
                    Err(failure) => {
                        assert(blit_failure_at(
                            dest,
                            patch,
                            ox,
                            oy,
                            false,
                            input_x as int,
                            input_y as int,
                        ) == Some(failure));
                        return Err(failure);
                    },
                }
                assert(blit_failure_at(dest, patch, ox, oy, false, input_x as int, input_y as int)
                    is None);
            }
        }
        for input_x in 0..input.len()
            invariant
                dest == tiles(*old(output)),
                patch == tiles(input),
                ox == x,
                oy == y,
                fits(dest, patch, ox, oy),
                blit_succeeds(dest, patch, ox, oy, false),
                output.len() == dest.len(),
                forall|cx: int| 0 <= cx < dest.len() ==> (#[trigger] output[cx]).len() == dest[cx].len(),
                forall|cx: int, cy: int|
                    0 <= cx < dest.len() && 0 <= cy < dest[cx].len() ==> #[trigger] output[cx][cy]
                        == if cx - ox < input_x {
                        blit_tile(dest, patch, ox, oy, false, cx, cy)
                    } else {
                        dest[cx][cy]
                    },
        {
            assert(patch[input_x as int] == input[input_x as int]@);
            let column_len = input[input_x].len();
            for input_y in 0..column_len
                invariant
                    column_len == input[input_x as int].len(),
                    dest == tiles(*old(output)),
                    patch == tiles(input),
                    ox == x,
                    oy == y,
                    input_x < input.len(),
                    fits(dest, patch, ox, oy),
                    blit_succeeds(dest, patch, ox, oy, false),
                    patch[input_x as int] == input[input_x as int]@,
                    output.len() == dest.len(),
                    forall|cx: int|
                        0 <= cx < dest.len() ==> (#[trigger] output[cx]).len() == dest[cx].len(),
                    forall|cx: int, cy: int|
                        0 <= cx < dest.len() && 0 <= cy < dest[cx].len()
                            ==> #[trigger] output[cx][cy] == if cx - ox < input_x || (cx - ox
                            == input_x && cy - oy < input_y) {
                            blit_tile(dest, patch, ox, oy, false, cx, cy)
                        } else {
                            dest[cx][cy]
                        },
            {
                let new = input[input_x][input_y];
                assert(output[ox + input_x][oy + input_y] == dest[ox + input_x][oy + input_y]);
                assert(blit_failure_at(dest, patch, ox, oy, false, input_x as int, input_y as int)
                    is None);
                let replace = match new.can_replace(output[input_x + x][input_y + y]) {
                    Ok(decision) => decision,
                    Err(_) => false,
                };
                if replace {
                    output[input_x + x][input_y + y] = new;
                }
            }
        }
        proof {
            let after = tiles(*output);
            let goal = blitted(dest, patch, ox, oy, false);
            assert(after.len() == goal.len());
            assert forall|cx: int| 0 <= cx < goal.len() implies #[trigger] after[cx] == goal[cx] by {
                assert(output[cx].len() == dest[cx].len());
                assert forall|cy: int| 0 <= cy < goal[cx].len() implies #[trigger] after[cx][cy]
                    == goal[cx][cy] by {
                    assert(output[cx][cy] == after[cx][cy]);
                }
                assert(after[cx] =~= goal[cx]);
            }
            assert(after =~= goal);
        }
        Ok(())
    }

    /// Renders a rectangle: a ring of walls around a floor.
    pub fn render_rect(rect: Rect) -> (output: Vec<Vec<TileTextureData>>)
        ensures
            tiles(output) == rect_patch(rect),
    {
        let wall = TileTextureData::Wall {
            connects_north: false,
            connects_south: false,
            connects_east: false,
            connects_west: false,
        };
        let height = rect.height as usize;
        let width = rect.width as usize;
        let mut output: Vec<Vec<TileTextureData>> = Vec::new();
        for x in 0..width
            invariant
                width == rect.width,
                height == rect.height,
                wall == empty_wall(),
                output.len() == x,
                forall|cx: int| 0 <= cx < x ==> (#[trigger] output[cx]).len() == height,
                forall|cx: int, cy: int|
                    0 <= cx < x && 0 <= cy < height ==> #[trigger] output[cx][cy] == rect_tile(
                        rect,
                        cx,
                        cy,
                    ),
        {
            if x == 0 || x == width - 1 {
                output.push(vec![wall; height]);
            } else {
                let mut column = vec![TileTextureData::Floor; height];
                if height > 0 {
                    column[0] = wall;
                    column[height - 1] = wall;
                }
                output.push(column);
            }
        }
        proof {
            let after = tiles(output);
            let goal = rect_patch(rect);
            assert forall|cx: int| 0 <= cx < goal.len() implies #[trigger] after[cx] == goal[cx] by {
                assert(output[cx].len() == height);
                assert forall|cy: int| 0 <= cy < goal[cx].len() implies #[trigger] after[cx][cy]
                    == goal[cx][cy] by {
                    assert(output[cx][cy] == after[cx][cy]);
                }
                assert(after[cx] =~= goal[cx]);
            }
            assert(after =~= goal);
        }
        output
    }

    /// Renders the room into a patch that spans its bounding box: floor
    /// inside any of its rectangles, walls on their rings elsewhere.
    pub fn render(self) -> (output: Vec<Vec<TileTextureData>>)
        requires
            self@.wf(),
        ensures
            tiles(output) == room_patch(self@),
            is_grid(tiles(output), self@.bounds().width as int, self@.bounds().height as int),
    {
        match self {
            Room::Basic { rect } => {
                let output = Room::render_rect(rect);
                proof {
                    let goal = room_patch(self@);
                    let after = tiles(output);
                    assert forall|x: int| 0 <= x < goal.len() implies #[trigger] after[x]
                        == goal[x] by {
                        assert forall|y: int| 0 <= y < goal[x].len() implies #[trigger] after[x][y]
                            == goal[x][y] by {
                            lemma_one_more_part(seq![rect], 0, rect.x + x, rect.y + y);
                        }
                        assert(after[x] =~= goal[x]);
                    }
                    assert(after =~= goal);
                }
                output
            },
            Room::Complex { rooms, aabb } => {
                let mut output: Vec<Vec<TileTextureData>> = Vec::new();
                let width = aabb.width as usize;
                let height = aabb.height as usize;
                for x in 0..width
                    invariant
                        width == aabb.width,
                        height == aabb.height,
                        output.len() == x,
                        forall|cx: int| 0 <= cx < x ==> (#[trigger] output[cx]).len() == height,
                        forall|cx: int, cy: int|
                            0 <= cx < x && 0 <= cy < height ==> #[trigger] output[cx][cy]
                                == TileTextureData::Empty,
                {
                    output.push(vec![TileTextureData::Empty; height]);
                }
                proof {
                    let goal = parts_patch(rooms@, 0, aabb);
                    let after = tiles(output);
                    assert forall|x: int| 0 <= x < goal.len() implies #[trigger] after[x]
                        == goal[x] by {
                        assert(output[x].len() == height);
                        assert forall|y: int| 0 <= y < goal[x].len() implies #[trigger] after[x][y]
                            == goal[x][y] by {
                            assert(output[x][y] == after[x][y]);
                        }
                        assert(after[x] =~= goal[x]);
                    }
                    assert(after =~= goal);
                }
                for idx in 0..rooms.len()
                    invariant
                        self@.wf(),
                        self@ == (RoomView::Complex { rooms: rooms@, aabb }),
                        tiles(output) == parts_patch(rooms@, idx as int, aabb),
                {
                    let room = rooms[idx];
                    assert(aabb.covers(rooms@[idx as int]));
                    let rendered_room = Room::render_rect(room);
                    let x_offset = (room.x - aabb.x) as usize;
                    let y_offset = (room.y - aabb.y) as usize;
                    proof {
                        lemma_rect_patch_is_terrain(room);
                        lemma_terrain_blit_succeeds(
                            tiles(output),
                            tiles(rendered_room),
                            x_offset as int,
                            y_offset as int,
                            false,
                        );
                        lemma_render_step(rooms@, idx as int, aabb);
                    }
                    let done = Room::blit(&mut output, rendered_room, x_offset, y_offset);
                    assert(done is Ok);
                }
                output
            },
        }
    }
}

} // verus!
