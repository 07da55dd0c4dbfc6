use crate::tile_data::empty_wall;
use crate::tile_data::TileTextureData;
use crate::worldgen::corridor::Corridor;
use crate::worldgen::geometry::RoomView;
use crate::worldgen::population::inside_room;
use crate::worldgen::raster::blit_failure_at;
use crate::worldgen::raster::blit_succeeds;
use crate::worldgen::raster::blitted;
use crate::worldgen::raster::fits;
use crate::worldgen::raster::is_grid;
use crate::worldgen::raster::offered;
use crate::worldgen::raster::room_patch;
use crate::worldgen::raster::Cells;
use crate::worldgen::terrain::terrain_tiles;
use crate::worldgen::terrain::TerrainData;
use crate::worldgen::walls::in_grid;
use vstd::prelude::*;

verus! {

/// Nothing, floor, or a wall that is not joined up yet: what rooms and
/// corridors are rendered with.
pub open spec fn plain(tile: TileTextureData) -> bool {
    tile is Empty || tile is Floor || tile == empty_wall()
}

/// What a cell of the map can hold while it is put together.
pub open spec fn settled(tile: TileTextureData) -> bool {
    plain(tile) || tile.is_marker()
}

/// Floor, or a marker standing on it.
pub open spec fn walkable(tile: TileTextureData) -> bool {
    tile is Floor || tile.is_marker()
}

/// Every cell is plain.
pub open spec fn all_plain(cells: Cells) -> bool {
    forall|x: int, y: int|
        0 <= x < cells.len() && 0 <= y < cells[x].len() ==> plain(#[trigger] cells[x][y])
}

/// Every cell is settled.
pub open spec fn all_settled(cells: Cells) -> bool {
    forall|x: int, y: int|
        0 <= x < cells.len() && 0 <= y < cells[x].len() ==> settled(#[trigger] cells[x][y])
}

/// From `before` to `after`, cells that could be walked on still can, and
/// markers stand where they stood.
pub open spec fn keeps_floor(before: Cells, after: Cells) -> bool {
    forall|x: int, y: int|
        0 <= x < before.len() && 0 <= y < before[x].len() ==> (walkable(before[x][y])
            ==> walkable(#[trigger] after[x][y])) && (before[x][y].is_marker() ==> after[x][y]
            == before[x][y])
}

/// From `before` to `after`, no marker comes, goes or changes.
pub open spec fn keeps_markers(before: Cells, after: Cells) -> bool {
    forall|x: int, y: int|
        0 <= x < before.len() && 0 <= y < before[x].len() ==> ((#[trigger] after[x][y]).is_marker()
            || before[x][y].is_marker() ==> after[x][y] == before[x][y])
}

/// The map with the room written onto it at the corner of its bounding box.
pub open spec fn with_room(cells: Cells, room: RoomView) -> Cells {
    blitted(cells, room_patch(room), room.bounds().x as int, room.bounds().y as int, true)
}

/// The map with the corridor written onto it at its offsets.
pub open spec fn with_corridor(cells: Cells, corridor: Corridor) -> Cells {
    blitted(cells, corridor.patch(), corridor.offset_x(), corridor.offset_y(), true)
}

/// The map with the first `count` corridors written onto it in their order.
pub open spec fn with_corridors(cells: Cells, corridors: Seq<Corridor>, count: int) -> Cells
    decreases count,
{
    if count <= 0 {
        cells
    } else {
        with_corridor(with_corridors(cells, corridors, count - 1), corridors[count - 1])
    }
}

/// The map with a marker offered to the cell `(x, y)`.
pub open spec fn with_marker(cells: Cells, x: int, y: int, marker: TileTextureData) -> Cells {
    blitted(cells, seq![seq![marker]], x, y, true)
}

/// A marker offered to a cell takes the place of anything but another
/// marker, and leaves every other cell as it is.
pub proof fn lemma_with_marker(cells: Cells, x: int, y: int, marker: TileTextureData)
    requires
        marker.is_marker(),
        in_grid(cells, x, y),
    ensures
        with_marker(cells, x, y, marker).len() == cells.len(),
        forall|cx: int|
            0 <= cx < cells.len() ==> (#[trigger] with_marker(cells, x, y, marker)[cx]).len()
                == cells[cx].len(),
        forall|cx: int, cy: int|
            0 <= cx < cells.len() && 0 <= cy < cells[cx].len() ==> #[trigger] with_marker(
                cells,
                x,
                y,
                marker,
            )[cx][cy] == if cx == x && cy == y && !cells[x][y].is_marker() {
                marker
            } else {
                cells[cx][cy]
            },
{
    let patch = seq![seq![marker]];
    assert(patch.len() == 1 && patch[0].len() == 1 && patch[0][0] == marker);
    assert forall|cx: int, cy: int|
        0 <= cx < cells.len() && 0 <= cy < cells[cx].len() implies #[trigger] with_marker(
        cells,
        x,
        y,
        marker,
    )[cx][cy] == if cx == x && cy == y && !cells[x][y].is_marker() {
        marker
    } else {
        cells[cx][cy]
    } by {
        if cx == x && cy == y {
            assert(offered(patch, x, y, cx, cy) == Some(marker));
        } else {
            assert(offered(patch, x, y, cx, cy) is None);
        }
    }
}

/// Which of the first `count` corridors are written depends on them only.
pub proof fn lemma_with_corridors_prefix(
    cells: Cells,
    corridors: Seq<Corridor>,
    longer: Seq<Corridor>,
    count: int,
)
    requires
        count <= corridors.len(),
        count <= longer.len(),
        forall|k: int| 0 <= k < count ==> corridors[k] == longer[k],
    ensures
        with_corridors(cells, corridors, count) == with_corridors(cells, longer, count),
    decreases count,
{
    if count > 0 {
        lemma_with_corridors_prefix(cells, corridors, longer, count - 1);
    }
}

/// No marker comes, goes or changes over two steps that keep markers.
pub proof fn lemma_keeps_markers_twice(
    first: Cells,
    second: Cells,
    third: Cells,
    width: int,
    height: int,
)
    requires
        is_grid(first, width, height),
        is_grid(second, width, height),
        is_grid(third, width, height),
        keeps_markers(first, second),
        keeps_markers(second, third),
    ensures
        keeps_markers(first, third),
{
    assert forall|x: int, y: int|
        0 <= x < first.len() && 0 <= y < first[x].len() && ((#[trigger] third[x][y]).is_marker()
            || first[x][y].is_marker()) implies third[x][y] == first[x][y] by {
        assert(first[x].len() == height);
        assert(second[x].len() == height);
        let _ = second[x][y];
    }
}

/// Every cell inside the walls of the room can be walked on.
pub open spec fn room_floored(cells: Cells, room: RoomView) -> bool {
    forall|x: int, y: int| #[trigger]
        inside_room(room, x, y) ==> in_grid(cells, x, y) && walkable(cells[x][y])
}

/// Every cell inside the walls of the first `count` rooms can be walked on.
pub open spec fn rooms_floored(cells: Cells, rooms: Seq<RoomView>, count: int) -> bool {
    forall|j: int| 0 <= j < count ==> room_floored(cells, #[trigger] rooms[j])
}

/// The map has the given extent, every texture is the first one, and every
/// cell is settled.
pub open spec fn map_ok(map: Vec<Vec<TerrainData>>, width: int, height: int) -> bool {
    &&& is_grid(terrain_tiles(map), width, height)
    &&& all_settled(terrain_tiles(map))
    &&& forall|x: int, y: int|
        0 <= x < width && 0 <= y < height ==> (#[trigger] map[x][y]).texture == 0
}

/// Writing a settled patch onto a settled map cannot fail and leaves a
/// settled map of the same extent, on which every cell that could be walked
/// on still can. A plain patch leaves a plain map plain.
pub proof fn lemma_blit_settled(dest: Cells, patch: Cells, ox: int, oy: int, width: int, height: int)
    requires
        is_grid(dest, width, height),
        all_settled(dest),
        all_settled(patch),
        fits(dest, patch, ox, oy),
    ensures
        blit_succeeds(dest, patch, ox, oy, true),
        is_grid(blitted(dest, patch, ox, oy, true), width, height),
        all_settled(blitted(dest, patch, ox, oy, true)),
        keeps_floor(dest, blitted(dest, patch, ox, oy, true)),
        all_plain(dest) && all_plain(patch) ==> all_plain(blitted(dest, patch, ox, oy, true)),
        all_plain(patch) ==> keeps_markers(dest, blitted(dest, patch, ox, oy, true)),
{
    let after = blitted(dest, patch, ox, oy, true);
    assert forall|i: int, j: int| 0 <= i < patch.len() && 0 <= j < patch[i].len() implies (
    #[trigger] blit_failure_at(dest, patch, ox, oy, true, i, j)) is None by {
        assert(settled(patch[i][j]));
    }
    assert forall|x: int, y: int| 0 <= x < after.len() && 0 <= y < after[x].len() implies settled(
        #[trigger] after[x][y],
    ) && (walkable(dest[x][y]) ==> walkable(after[x][y])) && (dest[x][y].is_marker() ==> after[x][y]
        == dest[x][y]) && (all_plain(dest) && all_plain(patch) ==> plain(after[x][y])) && (
    all_plain(patch) && (after[x][y].is_marker() || dest[x][y].is_marker()) ==> after[x][y]
        == dest[x][y]) by {
        assert(settled(dest[x][y]));
        match offered(patch, ox, oy, x, y) {
            Some(new) => {
                assert(settled(patch[x - ox][y - oy]));
                if all_plain(patch) {
                    assert(plain(patch[x - ox][y - oy]));
                }
                if all_plain(dest) && all_plain(patch) {
                    assert(plain(dest[x][y]));
                }
            },
            None => {
                if all_plain(dest) {
                    assert(plain(dest[x][y]));
                }
            },
        }
    }
}

/// Written onto a settled map at the corner of its bounding box, a rendered
/// room leaves every cell inside its walls fit to walk on.
pub proof fn lemma_room_blit_floors(dest: Cells, room: RoomView, width: int, height: int)
    requires
        is_grid(dest, width, height),
        all_settled(dest),
        room.wf(),
        room.fits_map(width, height),
    ensures
        all_plain(room_patch(room)),
        all_settled(room_patch(room)),
        fits(dest, room_patch(room), room.bounds().x as int, room.bounds().y as int),
        room_floored(
            blitted(dest, room_patch(room), room.bounds().x as int, room.bounds().y as int, true),
            room,
        ),
{
    let patch = room_patch(room);
    let bounds = room.bounds();
    let rects = room.rects();
    crate::worldgen::geometry::lemma_bounds_wf(room);
    let ir = choose|i: int| 0 <= i < rects.len() && (#[trigger] rects[i]).right() == bounds.right();
    let it = choose|i: int| 0 <= i < rects.len() && (#[trigger] rects[i]).top() == bounds.top();
    assert(rects[ir].within(width, height) && rects[it].within(width, height));
    assert forall|i: int| 0 <= i < patch.len() implies bounds.x + i < dest.len() && bounds.y + (
    #[trigger] patch[i]).len() <= dest[bounds.x + i].len() by {
        assert(dest[bounds.x + i].len() == height);
    }
    let after = blitted(dest, patch, bounds.x as int, bounds.y as int, true);
    assert forall|x: int, y: int| #[trigger] inside_room(room, x, y) implies in_grid(after, x, y)
        && walkable(after[x][y]) by {
        let i = choose|i: int| 0 <= i < rects.len() && (#[trigger] rects[i]).holds_inside(x, y);
        assert(bounds.covers(rects[i]));
        assert(rects[i].within(width, height));
        assert(dest[x].len() == height);
        assert(settled(dest[x][y]));
        assert(offered(patch, bounds.x as int, bounds.y as int, x, y) == Some(
            TileTextureData::Floor,
        ));
    }
}

/// Every cell on which the corridor has floor can be walked on.
pub open spec fn corridor_floored(cells: Cells, corridor: Corridor) -> bool {
    forall|x: int, y: int|
        0 <= x < corridor.extent_x() && 0 <= y < corridor.extent_y() && #[trigger] corridor.tile(
            x,
            y,
        ) is Floor ==> in_grid(cells, corridor.offset_x() + x, corridor.offset_y() + y)
            && walkable(cells[corridor.offset_x() + x][corridor.offset_y() + y])
}

/// A corridor leads from inside the walls of `from` to inside the walls of
/// `to`, and its floor can be walked on.
#[verifier::opaque]
pub open spec fn joined(cells: Cells, from: RoomView, to: RoomView) -> bool {
    exists|corridor: Corridor|
        corridor.wf() && inside_room(from, corridor.from_x as int, corridor.from_y as int)
            && inside_room(to, corridor.to_x as int, corridor.to_y as int)
            && #[trigger] corridor_floored(cells, corridor)
}

/// A marker stands inside the walls of the room.
pub open spec fn marker_in(cells: Cells, room: RoomView) -> bool {
    exists|x: int, y: int| #[trigger]
        inside_room(room, x, y) && in_grid(cells, x, y) && cells[x][y].is_marker()
}

/// A marker stays where it stands.
pub proof fn lemma_marker_stays(
    before: Cells,
    after: Cells,
    room: RoomView,
    width: int,
    height: int,
)
    requires
        is_grid(before, width, height),
        is_grid(after, width, height),
        keeps_floor(before, after),
        marker_in(before, room),
    ensures
        marker_in(after, room),
{
    let (x, y) = choose|x: int, y: int| #[trigger]
        inside_room(room, x, y) && in_grid(before, x, y) && before[x][y].is_marker();
    assert(before[x].len() == height);
    assert(after[x].len() == height);
    assert(after[x][y] == before[x][y]);
    assert(inside_room(room, x, y) && in_grid(after, x, y) && after[x][y].is_marker());
}

/// Every rectangle of the room but the first is joined to the one before.
pub open spec fn parts_joined(cells: Cells, room: RoomView) -> bool {
    forall|k: int|
        1 <= k < room.rects().len() ==> joined(
            cells,
            RoomView::Basic { rect: room.rects()[k - 1] },
            RoomView::Basic { rect: #[trigger] room.rects()[k] },
        )
}

/// Among the first `count` rooms, the rectangles of every room are joined
/// in their order, and every room but the first is joined to the one before.
pub open spec fn rooms_joined(cells: Cells, rooms: Seq<RoomView>, count: int) -> bool {
    &&& forall|j: int| 0 <= j < count ==> parts_joined(cells, #[trigger] rooms[j])
    &&& forall|j: int| 1 <= j < count ==> joined(cells, rooms[j - 1], #[trigger] rooms[j])
}

/// Written onto a settled map at its offsets, a rendered corridor leaves
/// every cell of its floor fit to walk on.
pub proof fn lemma_corridor_blit_floors(dest: Cells, corridor: Corridor, width: int, height: int)
    requires
        is_grid(dest, width, height),
        all_settled(dest),
        corridor.wf(),
        corridor.offset_x() + corridor.extent_x() <= width,
        corridor.offset_y() + corridor.extent_y() <= height,
    ensures
        fits(dest, corridor.patch(), corridor.offset_x(), corridor.offset_y()),
        corridor_floored(
            blitted(dest, corridor.patch(), corridor.offset_x(), corridor.offset_y(), true),
            corridor,
        ),
{
    let patch = corridor.patch();
    let ox = corridor.offset_x();
    let oy = corridor.offset_y();
    assert forall|i: int| 0 <= i < patch.len() implies ox + i < dest.len() && oy + (
    #[trigger] patch[i]).len() <= dest[ox + i].len() by {
        assert(dest[ox + i].len() == height);
    }
    let after = blitted(dest, patch, ox, oy, true);
    assert forall|x: int, y: int|
        0 <= x < corridor.extent_x() && 0 <= y < corridor.extent_y() && #[trigger] corridor.tile(
            x,
            y,
        ) is Floor implies in_grid(after, ox + x, oy + y) && walkable(after[ox + x][oy + y]) by {
        assert(dest[ox + x].len() == height);
        assert(settled(dest[ox + x][oy + y]));
        assert(offered(patch, ox, oy, ox + x, oy + y) == Some(TileTextureData::Floor));
    }
}

/// A corridor whose floor could be walked on keeps it so.
pub proof fn lemma_joined_stays(
    before: Cells,
    after: Cells,
    from: RoomView,
    to: RoomView,
    width: int,
    height: int,
)
    requires
        is_grid(before, width, height),
        is_grid(after, width, height),
        keeps_floor(before, after),
        joined(before, from, to),
    ensures
        joined(after, from, to),
{
    reveal(joined);
    let corridor = choose|corridor: Corridor|
        corridor.wf() && inside_room(from, corridor.from_x as int, corridor.from_y as int)
            && inside_room(to, corridor.to_x as int, corridor.to_y as int)
            && #[trigger] corridor_floored(before, corridor);
    let ox = corridor.offset_x();
    let oy = corridor.offset_y();
    assert forall|x: int, y: int|
        0 <= x < corridor.extent_x() && 0 <= y < corridor.extent_y() && #[trigger] corridor.tile(
            x,
            y,
        ) is Floor implies in_grid(after, ox + x, oy + y) && walkable(after[ox + x][oy + y]) by {
        assert(in_grid(before, ox + x, oy + y) && walkable(before[ox + x][oy + y]));
        assert(before[ox + x].len() == height);
        assert(after[ox + x].len() == height);
        let _ = after[ox + x][oy + y];
    }
    assert(corridor_floored(after, corridor));
}

/// Rectangles that were joined stay joined.
pub proof fn lemma_parts_stay_joined(
    before: Cells,
    after: Cells,
    room: RoomView,
    width: int,
    height: int,
)
    requires
        is_grid(before, width, height),
        is_grid(after, width, height),
        keeps_floor(before, after),
        parts_joined(before, room),
    ensures
        parts_joined(after, room),
{
    assert forall|k: int| 1 <= k < room.rects().len() implies joined(
        after,
        RoomView::Basic { rect: room.rects()[k - 1] },
        RoomView::Basic { rect: #[trigger] room.rects()[k] },
    ) by {
        lemma_joined_stays(
            before,
            after,
            RoomView::Basic { rect: room.rects()[k - 1] },
            RoomView::Basic { rect: room.rects()[k] },
            width,
            height,
        );
    }
}

/// Rooms that were joined stay joined.
pub proof fn lemma_rooms_stay_joined(
    before: Cells,
    after: Cells,
    rooms: Seq<RoomView>,
    count: int,
    width: int,
    height: int,
)
    requires
        is_grid(before, width, height),
        is_grid(after, width, height),
        keeps_floor(before, after),
        rooms_joined(before, rooms, count),
    ensures
        rooms_joined(after, rooms, count),
{
    assert forall|j: int| 0 <= j < count implies parts_joined(after, #[trigger] rooms[j]) by {
        lemma_parts_stay_joined(before, after, rooms[j], width, height);
    }
    assert forall|j: int| 1 <= j < count implies joined(
        after,
        rooms[j - 1],
        #[trigger] rooms[j],
    ) by {
        lemma_joined_stays(before, after, rooms[j - 1], rooms[j], width, height);
    }
}

/// A rendered corridor is plain.
pub proof fn lemma_corridor_is_plain(corridor: Corridor)
    ensures
        all_plain(corridor.patch()),
        all_settled(corridor.patch()),
{
}

/// What could be walked on before two steps still can after them.
pub proof fn lemma_keeps_floor_twice(first: Cells, second: Cells, third: Cells, width: int, height: int)
    requires
        is_grid(first, width, height),
        is_grid(second, width, height),
        is_grid(third, width, height),
        keeps_floor(first, second),
        keeps_floor(second, third),
    ensures
        keeps_floor(first, third),
{
    assert forall|x: int, y: int| 0 <= x < first.len() && 0 <= y < first[x].len() implies (walkable(
        first[x][y],
    ) ==> walkable(#[trigger] third[x][y])) && (first[x][y].is_marker() ==> third[x][y]
        == first[x][y]) by {
        assert(first[x].len() == height);
        assert(second[x].len() == height);
        let _ = second[x][y];
    }
}

/// Rooms whose insides could be walked on keep them so.
pub proof fn lemma_rooms_stay_floored(
    before: Cells,
    after: Cells,
    rooms: Seq<RoomView>,
    count: int,
    width: int,
    height: int,
)
    requires
        is_grid(before, width, height),
        is_grid(after, width, height),
        keeps_floor(before, after),
        rooms_floored(before, rooms, count),
    ensures
        rooms_floored(after, rooms, count),
{
    assert forall|j: int| 0 <= j < count implies room_floored(after, #[trigger] rooms[j]) by {
        assert(room_floored(before, rooms[j]));
        assert forall|x: int, y: int| #[trigger] inside_room(rooms[j], x, y) implies in_grid(
            after,
            x,
            y,
        ) && walkable(after[x][y]) by {
            assert(in_grid(before, x, y) && walkable(before[x][y]));
            assert(before[x].len() == height);
            assert(after[x].len() == height);
            let _ = after[x][y];
        }
    }
}

} // verus!
