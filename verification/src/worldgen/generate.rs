use crate::lifeform::Lifeform;
use crate::tile_data::TileTextureData;
use crate::worldgen::error::WorldgenError;
use crate::worldgen::generator::RoomGenerator;
use crate::worldgen::corridor::Corridor;
use crate::worldgen::geometry::Rect;
use crate::worldgen::geometry::RoomView;
use crate::worldgen::layout::leads;
use crate::worldgen::layout::part_links_ok;
use crate::worldgen::layout::enemies_in_room;
use crate::worldgen::layout::lemma_population_grows;
use crate::worldgen::layout::population_ok;
use crate::worldgen::placement::room_ok;
use crate::worldgen::placement::room_views;
use crate::worldgen::population::inside_room;
use crate::worldgen::population::inside_some;
use crate::worldgen::raster::is_grid;
use crate::worldgen::raster::Cells;
use crate::worldgen::settle::all_plain;
use crate::worldgen::settle::joined;
use crate::worldgen::settle::keeps_floor;
use crate::worldgen::settle::keeps_markers;
use crate::worldgen::settle::lemma_with_marker;
use crate::worldgen::settle::with_corridor;
use crate::worldgen::settle::with_corridors;
use crate::worldgen::settle::with_marker;
use crate::worldgen::settle::with_room;
use crate::worldgen::settle::lemma_joined_stays;
use crate::worldgen::settle::lemma_marker_stays;
use crate::worldgen::settle::lemma_parts_stay_joined;
use crate::worldgen::settle::lemma_rooms_stay_floored;
use crate::worldgen::settle::map_ok;
use crate::worldgen::settle::marker_in;
use crate::worldgen::settle::parts_joined;
use crate::worldgen::settle::plain;
use crate::worldgen::settle::room_floored;
use crate::worldgen::settle::rooms_floored;
use crate::worldgen::settle::rooms_joined;
use crate::worldgen::settle::settled;
use crate::worldgen::settle::walkable;
use crate::worldgen::terrain::same_textures;
use crate::worldgen::terrain::terrain_tiles;
use crate::worldgen::terrain::TerrainData;
use crate::worldgen::walls::has_source;
use crate::worldgen::walls::in_grid;
use crate::worldgen::walls::lemma_kept_walls_have_a_source;
use crate::worldgen::walls::wall_pass;
use bevy_prng::ChaCha8Rng;
use vstd::prelude::*;

verus! {

/// What a cell of a finished map can hold.
pub open spec fn finished(tile: TileTextureData) -> bool {
    tile is Empty || tile is Floor || tile is Wall || tile.is_marker()
}

/// The creature at `player` is the player and stands on the entrance; every
/// other creature is an enemy; all are as they were spawned, inside the
/// walls of a room.
pub open spec fn peopled(
    cells: Cells,
    creatures: Seq<Lifeform>,
    rooms: Seq<RoomView>,
    player: int,
) -> bool {
    &&& 0 <= player < creatures.len()
    &&& population_ok(creatures, rooms, player)
    &&& in_grid(cells, creatures[player].position.x as int, creatures[player].position.y as int)
    &&& cells[creatures[player].position.x as int][creatures[player].position.y as int] is Entrance
}

/// How far the map has come. The first `rendered` rooms are rendered and
/// their rectangles joined; each of the first `linked` rooms but the first
/// is joined to the one before. Before the entrance is set the map is plain
/// and all creatures are enemies; once it is set the player stands on it.
/// Once the exit is set a marker stands in the last room.
#[verifier::opaque]
pub open spec fn progress(
    map: Vec<Vec<TerrainData>>,
    creatures: Seq<Lifeform>,
    rooms: Seq<RoomView>,
    rendered: int,
    linked: int,
    entrance: bool,
    exit: bool,
    width: int,
    height: int,
) -> bool {
    &&& map_ok(map, width, height)
    &&& rooms_floored(terrain_tiles(map), rooms, rendered)
    &&& forall|j: int| 0 <= j < rendered ==> parts_joined(terrain_tiles(map), #[trigger] rooms[j])
    &&& forall|j: int|
        1 <= j < linked ==> joined(terrain_tiles(map), rooms[j - 1], #[trigger] rooms[j])
    &&& if entrance {
        exists|player: int| peopled(terrain_tiles(map), creatures, rooms, player)
    } else {
        all_plain(terrain_tiles(map)) && population_ok(creatures, rooms, -1)
    }
    &&& exit ==> rooms.len() >= 1 && marker_in(terrain_tiles(map), rooms.last())
}

/// The map and the creatures as they stand before the wall pass: the map is
/// settled, the inside of every room can be walked on, rectangles and rooms
/// are joined in their order, a marker stands in the last room, and the
/// creatures are in order.
pub open spec fn staged(
    map: Vec<Vec<TerrainData>>,
    creatures: Seq<Lifeform>,
    rooms: Seq<RoomView>,
    width: int,
    height: int,
) -> bool {
    &&& map_ok(map, width, height)
    &&& rooms.len() >= 1
    &&& rooms_floored(terrain_tiles(map), rooms, rooms.len() as int)
    &&& rooms_joined(terrain_tiles(map), rooms, rooms.len() as int)
    &&& marker_in(terrain_tiles(map), rooms.last())
    &&& exists|player: int| peopled(terrain_tiles(map), creatures, rooms, player)
}

/// A generated world: a map of the given extent that holds terrain and
/// markers only, with the first texture everywhere; every wall has floor or
/// corridor among its eight neighbours; the inside of every room can be
/// walked on; the rectangles of every room, and the rooms, are joined in
/// their order by corridors that can be walked on; the exit, or the entrance
/// in its place, stands in the last room; and the creatures are in order.
pub open spec fn world_ok(
    map: Vec<Vec<TerrainData>>,
    creatures: Seq<Lifeform>,
    rooms: Seq<RoomView>,
    width: int,
    height: int,
) -> bool {
    &&& is_grid(terrain_tiles(map), width, height)
    &&& forall|x: int, y: int|
        0 <= x < width && 0 <= y < height ==> (#[trigger] map[x][y]).texture == 0 && finished(
            map[x][y].tile_data,
        ) && (map[x][y].tile_data is Wall ==> has_source(terrain_tiles(map), x, y))
    &&& rooms.len() >= 1
    &&& rooms_floored(terrain_tiles(map), rooms, rooms.len() as int)
    &&& rooms_joined(terrain_tiles(map), rooms, rooms.len() as int)
    &&& marker_in(terrain_tiles(map), rooms.last())
    &&& exists|player: int| peopled(terrain_tiles(map), creatures, rooms, player)
}

/// What was drawn while the map was put together: the cell of the entrance,
/// the cell of the exit, for every room the corridors that join each of its
/// rectangles to the one before, and for every room but the first the
/// corridor that joins it to the room before.
pub struct Draws {
    pub entrance: (int, int),
    pub exit: (int, int),
    pub part_links: Seq<Seq<Corridor>>,
    pub room_links: Seq<Corridor>,
}

/// An empty map of the given extent.
pub open spec fn empty_cells(width: int, height: int) -> Cells {
    Seq::new(width as nat, |x: int| Seq::new(height as nat, |y: int| TileTextureData::Empty))
}

/// The map after one room was worked in: the room is written onto `base`,
/// then the corridors between its rectangles, then the entrance, the exit
/// and the corridor to the room before, as far as each is given.
pub open spec fn section(
    base: Cells,
    room: RoomView,
    links: Seq<Corridor>,
    entrance: Option<(int, int)>,
    exit: Option<(int, int)>,
    link: Option<Corridor>,
) -> Cells {
    let rendered = with_corridors(with_room(base, room), links, links.len() as int);
    let entered = match entrance {
        Some(cell) => with_marker(rendered, cell.0, cell.1, TileTextureData::Entrance),
        None => rendered,
    };
    let left = match exit {
        Some(cell) => with_marker(entered, cell.0, cell.1, TileTextureData::Exit),
        None => entered,
    };
    match link {
        Some(corridor) => with_corridor(left, corridor),
        None => left,
    }
}

/// The map after the first `count` rooms were worked in, in their order:
/// the entrance goes into the first room, the exit into the last, and every
/// room but the first is joined to the one before.
pub open spec fn staged_map(
    rooms: Seq<RoomView>,
    draws: Draws,
    count: int,
    width: int,
    height: int,
) -> Cells
    decreases count,
{
    if count <= 0 {
        empty_cells(width, height)
    } else {
        section(
            staged_map(rooms, draws, count - 1, width, height),
            rooms[count - 1],
            draws.part_links[count - 1],
            if count == 1 {
                Some(draws.entrance)
            } else {
                None
            },
            if count == rooms.len() {
                Some(draws.exit)
            } else {
                None
            },
            if count > 1 {
                Some(draws.room_links[count - 2])
            } else {
                None
            },
        )
    }
}

/// The map while the room after the first `linked` rooms is worked in:
/// once it is rendered, the entrance and the exit are on it as far as they
/// are set, and the corridor to the room before is still to come.
pub open spec fn expected_map(
    rooms: Seq<RoomView>,
    draws: Draws,
    rendered: int,
    linked: int,
    entrance: bool,
    exit: bool,
    width: int,
    height: int,
) -> Cells {
    if rendered <= linked {
        staged_map(rooms, draws, rendered, width, height)
    } else {
        section(
            staged_map(rooms, draws, linked, width, height),
            rooms[linked],
            draws.part_links[linked],
            if linked == 0 && entrance {
                Some(draws.entrance)
            } else {
                None
            },
            if exit {
                Some(draws.exit)
            } else {
                None
            },
            None,
        )
    }
}

/// The number of rectangles of the first `count` rooms.
pub open spec fn rect_count(rooms: Seq<RoomView>, count: int) -> int
    decreases count,
{
    if count <= 0 {
        0
    } else {
        rect_count(rooms, count - 1) + rooms[count - 1].rects().len()
    }
}

/// What was drawn fits the rooms: the corridors of the first `rendered`
/// rooms join their rectangles, the corridors of the first `linked` rooms
/// join each to the room before, the entrance lies inside the first room and
/// the exit inside the last, as far as they are set.
pub open spec fn draws_ok(
    rooms: Seq<RoomView>,
    draws: Draws,
    rendered: int,
    linked: int,
    entrance: bool,
    exit: bool,
) -> bool {
    &&& draws.part_links.len() == rendered
    &&& forall|j: int|
        0 <= j < rendered ==> part_links_ok(#[trigger] draws.part_links[j], rooms[j].rects())
    &&& draws.room_links.len() == if linked >= 1 {
        linked - 1
    } else {
        0
    }
    &&& forall|i: int|
        0 <= i < draws.room_links.len() ==> leads(
            #[trigger] draws.room_links[i],
            rooms[i],
            rooms[i + 1],
        )
    &&& entrance ==> rooms.len() >= 1 && inside_room(rooms[0], draws.entrance.0, draws.entrance.1)
    &&& exit ==> rooms.len() >= 1 && inside_room(rooms.last(), draws.exit.0, draws.exit.1)
}

/// The entrance, once set, stands on its cell and nowhere else. The exit,
/// once set, stands on its cell and nowhere else, unless that is the cell of
/// the entrance: then there is no exit.
pub open spec fn markers_at(cells: Cells, draws: Draws, entrance: bool, exit: bool) -> bool {
    &&& entrance ==> in_grid(cells, draws.entrance.0, draws.entrance.1)
    &&& exit ==> in_grid(cells, draws.exit.0, draws.exit.1)
    &&& forall|x: int, y: int|
        0 <= x < cells.len() && 0 <= y < cells[x].len() ==> ((#[trigger] cells[x][y]) is Entrance
            <==> entrance && x == draws.entrance.0 && y == draws.entrance.1) && (
        cells[x][y] is Exit <==> exit && x == draws.exit.0 && y == draws.exit.1 && draws.exit
            != draws.entrance)
}

/// Every player among the creatures stands on the given cell.
pub open spec fn players_at(creatures: Seq<Lifeform>, cell: (int, int)) -> bool {
    forall|k: int|
        0 <= k < creatures.len() && (#[trigger] creatures[k]).texture.tile_data is Player
            ==> creatures[k].position.x == cell.0 && creatures[k].position.y == cell.1
}

/// The map is exactly what the draws make of the rooms so far, the markers
/// stand where they were drawn, every rectangle rendered so far has fewer
/// enemies than the bound allows, and the player stands on the entrance.
#[verifier::opaque]
pub open spec fn traced(
    map: Vec<Vec<TerrainData>>,
    creatures: Seq<Lifeform>,
    rooms: Seq<RoomView>,
    draws: Draws,
    rendered: int,
    linked: int,
    entrance: bool,
    exit: bool,
    bound: int,
    width: int,
    height: int,
) -> bool {
    &&& draws_ok(rooms, draws, rendered, linked, entrance, exit)
    &&& terrain_tiles(map) == expected_map(
        rooms,
        draws,
        rendered,
        linked,
        entrance,
        exit,
        width,
        height,
    )
    &&& markers_at(terrain_tiles(map), draws, entrance, exit)
    &&& creatures.len() <= rect_count(rooms, rendered) * bound + if entrance {
        1int
    } else {
        0int
    }
    &&& players_at(creatures, draws.entrance)
}

/// The map before the wall pass is exactly what the draws make of the
/// rooms.
pub open spec fn staged_exact(
    map: Vec<Vec<TerrainData>>,
    creatures: Seq<Lifeform>,
    rooms: Seq<RoomView>,
    draws: Draws,
    bound: int,
    width: int,
    height: int,
) -> bool {
    &&& draws_ok(rooms, draws, rooms.len() as int, rooms.len() as int, true, true)
    &&& terrain_tiles(map) == staged_map(rooms, draws, rooms.len() as int, width, height)
    &&& markers_at(terrain_tiles(map), draws, true, true)
    &&& creatures.len() <= rect_count(rooms, rooms.len() as int) * bound + 1
    &&& players_at(creatures, draws.entrance)
}

/// The generated map is exactly the wall pass over what the draws make of
/// the rooms. There is one entrance, on the cell drawn inside the first
/// room, and the player stands on it. The exit stands on the cell drawn
/// inside the last room and nowhere else, unless the entrance stands there.
/// There are at most `bound` enemies for every rectangle.
pub open spec fn world_exact(
    map: Vec<Vec<TerrainData>>,
    creatures: Seq<Lifeform>,
    rooms: Seq<RoomView>,
    draws: Draws,
    bound: int,
    width: int,
    height: int,
) -> bool {
    &&& draws_ok(rooms, draws, rooms.len() as int, rooms.len() as int, true, true)
    &&& terrain_tiles(map) == wall_pass(
        staged_map(rooms, draws, rooms.len() as int, width, height),
    )
    &&& markers_at(terrain_tiles(map), draws, true, true)
    &&& creatures.len() <= rect_count(rooms, rooms.len() as int) * bound + 1
    &&& players_at(creatures, draws.entrance)
}

/// Nothing drawn yet.
pub open spec fn no_draws() -> Draws {
    Draws { entrance: (0, 0), exit: (0, 0), part_links: Seq::empty(), room_links: Seq::empty() }
}

/// An empty map without creatures is exactly what no draw makes of no room.
pub proof fn lemma_trace_starts(
    map: Vec<Vec<TerrainData>>,
    rooms: Seq<RoomView>,
    bound: int,
    width: int,
    height: int,
)
    requires
        is_grid(terrain_tiles(map), width, height),
        forall|x: int, y: int|
            0 <= x < width && 0 <= y < height ==> #[trigger] map[x][y] == (TerrainData {
                texture: 0,
                tile_data: TileTextureData::Empty,
            }),
    ensures
        traced(
            map,
            Seq::<Lifeform>::empty(),
            rooms,
            no_draws(),
            0,
            0,
            false,
            false,
            bound,
            width,
            height,
        ),
{
    reveal(traced);
    reveal_with_fuel(staged_map, 2);
    let cells = terrain_tiles(map);
    let goal = empty_cells(width, height);
    assert forall|x: int| 0 <= x < goal.len() implies #[trigger] cells[x] == goal[x] by {
        assert(cells[x].len() == height);
        assert forall|y: int| 0 <= y < goal[x].len() implies #[trigger] cells[x][y]
            == goal[x][y] by {
            assert(map[x][y].tile_data is Empty);
        }
        assert(cells[x] =~= goal[x]);
    }
    assert(cells =~= goal);
    assert(rect_count(rooms, 0) * bound == 0) by (nonlinear_arith)
        requires
            rect_count(rooms, 0) == 0,
    ;
}

/// The map of the first `count` rooms depends on what was drawn for them
/// only.
pub proof fn lemma_staged_map_frame(
    rooms: Seq<RoomView>,
    a: Draws,
    b: Draws,
    count: int,
    width: int,
    height: int,
)
    requires
        count <= rooms.len(),
        forall|j: int| 0 <= j < count ==> a.part_links[j] == b.part_links[j],
        forall|i: int| 0 <= i < count - 1 ==> a.room_links[i] == b.room_links[i],
        count >= 1 ==> a.entrance == b.entrance,
        count == rooms.len() ==> a.exit == b.exit,
    ensures
        staged_map(rooms, a, count, width, height) == staged_map(rooms, b, count, width, height),
    decreases count,
{
    reveal_with_fuel(staged_map, 2);
    if count > 0 {
        lemma_staged_map_frame(rooms, a, b, count - 1, width, height);
        assert(a.part_links[count - 1] == b.part_links[count - 1]);
        if count > 1 {
            assert(a.room_links[count - 2] == b.room_links[count - 2]);
        }
    }
}

/// A step that keeps the markers keeps them where they were drawn.
pub proof fn lemma_markers_stay(
    before: Cells,
    after: Cells,
    draws: Draws,
    entrance: bool,
    exit: bool,
    width: int,
    height: int,
)
    requires
        is_grid(before, width, height),
        is_grid(after, width, height),
        keeps_markers(before, after),
        markers_at(before, draws, entrance, exit),
    ensures
        markers_at(after, draws, entrance, exit),
{
    assert forall|x: int, y: int| 0 <= x < after.len() && 0 <= y < after[x].len() implies ((
    #[trigger] after[x][y]) is Entrance <==> entrance && x == draws.entrance.0 && y
        == draws.entrance.1) && (after[x][y] is Exit <==> exit && x == draws.exit.0 && y
        == draws.exit.1 && draws.exit != draws.entrance) by {
        assert(before[x].len() == height);
        assert(after[x].len() == height);
        let _ = before[x][y];
    }
    if entrance {
        assert(before[draws.entrance.0].len() == height);
        assert(after[draws.entrance.0].len() == height);
    }
    if exit {
        assert(before[draws.exit.0].len() == height);
        assert(after[draws.exit.0].len() == height);
    }
}

/// Rendering the next room and peopling it keeps the map traced.
pub proof fn lemma_trace_room(
    before: Vec<Vec<TerrainData>>,
    after: Vec<Vec<TerrainData>>,
    creatures: Seq<Lifeform>,
    more: Seq<Lifeform>,
    rooms: Seq<RoomView>,
    draws: Draws,
    links: Seq<Corridor>,
    idx: int,
    bound: int,
    width: int,
    height: int,
)
    requires
        0 <= idx < rooms.len(),
        bound >= 0,
        traced(before, creatures, rooms, draws, idx, idx, idx > 0, false, bound, width, height),
        is_grid(terrain_tiles(before), width, height),
        is_grid(terrain_tiles(after), width, height),
        terrain_tiles(after) == with_corridors(
            with_room(terrain_tiles(before), rooms[idx]),
            links,
            links.len() as int,
        ),
        keeps_markers(terrain_tiles(before), terrain_tiles(after)),
        part_links_ok(links, rooms[idx].rects()),
        creatures.len() <= more.len() <= creatures.len() + rooms[idx].rects().len() * bound,
        more.subrange(0, creatures.len() as int) == creatures,
        enemies_in_room(more, creatures.len() as int, rooms[idx]),
    ensures
        traced(
            after,
            more,
            rooms,
            Draws { part_links: draws.part_links.push(links), ..draws },
            idx + 1,
            idx,
            idx > 0,
            false,
            bound,
            width,
            height,
        ),
{
    reveal(traced);
    reveal_with_fuel(staged_map, 2);
    let next = Draws { part_links: draws.part_links.push(links), ..draws };
    lemma_staged_map_frame(rooms, draws, next, idx, width, height);
    lemma_markers_stay(
        terrain_tiles(before),
        terrain_tiles(after),
        next,
        idx > 0,
        false,
        width,
        height,
    );
    assert forall|j: int| 0 <= j < idx + 1 implies part_links_ok(
        #[trigger] next.part_links[j],
        rooms[j].rects(),
    ) by {
        if j < idx {
            assert(next.part_links[j] == draws.part_links[j]);
        }
    }
    assert(rect_count(rooms, idx + 1) * bound == rect_count(rooms, idx) * bound
        + rooms[idx].rects().len() * bound) by (nonlinear_arith)
        requires
            rect_count(rooms, idx + 1) == rect_count(rooms, idx) + rooms[idx].rects().len(),
    ;
    assert forall|k: int|
        0 <= k < more.len() && (#[trigger] more[k]).texture.tile_data is Player implies more[k].position.x
        == next.entrance.0 && more[k].position.y == next.entrance.1 by {
        if k < creatures.len() {
            assert(more.subrange(0, creatures.len() as int)[k] == more[k]);
            assert(creatures[k] == more[k]);
        }
    }
}

/// Setting the entrance and spawning the player on it keeps the map traced.
pub proof fn lemma_trace_entrance(
    before: Vec<Vec<TerrainData>>,
    after: Vec<Vec<TerrainData>>,
    creatures: Seq<Lifeform>,
    more: Seq<Lifeform>,
    rooms: Seq<RoomView>,
    draws: Draws,
    x: int,
    y: int,
    bound: int,
    width: int,
    height: int,
)
    requires
        rooms.len() >= 1,
        traced(before, creatures, rooms, draws, 1, 0, false, false, bound, width, height),
        all_plain(terrain_tiles(before)),
        population_ok(creatures, rooms, -1),
        is_grid(terrain_tiles(before), width, height),
        in_grid(terrain_tiles(before), x, y),
        inside_room(rooms[0], x, y),
        terrain_tiles(after) == with_marker(terrain_tiles(before), x, y, TileTextureData::Entrance),
        more.len() == creatures.len() + 1,
        more.subrange(0, creatures.len() as int) == creatures,
        more.last().position.x == x,
        more.last().position.y == y,
    ensures
        traced(
            after,
            more,
            rooms,
            Draws { entrance: (x, y), ..draws },
            1,
            0,
            true,
            false,
            bound,
            width,
            height,
        ),
{
    reveal(traced);
    reveal_with_fuel(staged_map, 2);
    let next = Draws { entrance: (x, y), ..draws };
    let cells = terrain_tiles(before);
    lemma_staged_map_frame(rooms, draws, next, 0, width, height);
    lemma_with_marker(cells, x, y, TileTextureData::Entrance);
    let now = terrain_tiles(after);
    assert(plain(cells[x][y]));
    assert forall|cx: int, cy: int| 0 <= cx < now.len() && 0 <= cy < now[cx].len() implies ((
    #[trigger] now[cx][cy]) is Entrance <==> cx == x && cy == y) && !(now[cx][cy] is Exit) by {
        assert(plain(cells[cx][cy]));
    }
    assert forall|k: int|
        0 <= k < more.len() && (#[trigger] more[k]).texture.tile_data is Player implies more[k].position.x
        == x && more[k].position.y == y by {
        if k < creatures.len() {
            assert(more.subrange(0, creatures.len() as int)[k] == more[k]);
            assert(creatures[k] == more[k]);
            assert(creatures[k].is_fresh(
                TileTextureData::Enemy,
                creatures[k].position.x as int,
                creatures[k].position.y as int,
            ));
        } else {
            assert(more[k] == more.last());
        }
    }
}

/// Setting the exit keeps the map traced.
pub proof fn lemma_trace_exit(
    before: Vec<Vec<TerrainData>>,
    after: Vec<Vec<TerrainData>>,
    creatures: Seq<Lifeform>,
    rooms: Seq<RoomView>,
    draws: Draws,
    x: int,
    y: int,
    bound: int,
    width: int,
    height: int,
)
    requires
        rooms.len() >= 1,
        traced(
            before,
            creatures,
            rooms,
            draws,
            rooms.len() as int,
            rooms.len() - 1,
            true,
            false,
            bound,
            width,
            height,
        ),
        is_grid(terrain_tiles(before), width, height),
        in_grid(terrain_tiles(before), x, y),
        inside_room(rooms.last(), x, y),
        terrain_tiles(after) == with_marker(terrain_tiles(before), x, y, TileTextureData::Exit),
    ensures
        traced(
            after,
            creatures,
            rooms,
            Draws { exit: (x, y), ..draws },
            rooms.len() as int,
            rooms.len() - 1,
            true,
            true,
            bound,
            width,
            height,
        ),
{
    reveal(traced);
    reveal_with_fuel(staged_map, 2);
    let next = Draws { exit: (x, y), ..draws };
    let cells = terrain_tiles(before);
    lemma_staged_map_frame(rooms, draws, next, rooms.len() - 1, width, height);
    lemma_with_marker(cells, x, y, TileTextureData::Exit);
    let now = terrain_tiles(after);
    assert forall|cx: int, cy: int| 0 <= cx < now.len() && 0 <= cy < now[cx].len() implies ((
    #[trigger] now[cx][cy]) is Entrance <==> cx == next.entrance.0 && cy == next.entrance.1) && (
    now[cx][cy] is Exit <==> cx == x && cy == y && next.exit != next.entrance) by {
        let _ = cells[cx][cy];
        let _ = cells[x][y];
    }
}

/// Carving the corridor to the room before keeps the map traced.
pub proof fn lemma_trace_link(
    before: Vec<Vec<TerrainData>>,
    after: Vec<Vec<TerrainData>>,
    creatures: Seq<Lifeform>,
    rooms: Seq<RoomView>,
    draws: Draws,
    corridor: Corridor,
    idx: int,
    bound: int,
    width: int,
    height: int,
)
    requires
        1 <= idx < rooms.len(),
        traced(
            before,
            creatures,
            rooms,
            draws,
            idx + 1,
            idx,
            true,
            idx + 1 == rooms.len(),
            bound,
            width,
            height,
        ),
        is_grid(terrain_tiles(before), width, height),
        is_grid(terrain_tiles(after), width, height),
        terrain_tiles(after) == with_corridor(terrain_tiles(before), corridor),
        keeps_markers(terrain_tiles(before), terrain_tiles(after)),
        leads(corridor, rooms[idx - 1], rooms[idx]),
    ensures
        traced(
            after,
            creatures,
            rooms,
            Draws { room_links: draws.room_links.push(corridor), ..draws },
            idx + 1,
            idx + 1,
            true,
            idx + 1 == rooms.len(),
            bound,
            width,
            height,
        ),
{
    reveal(traced);
    reveal_with_fuel(staged_map, 2);
    let next = Draws { room_links: draws.room_links.push(corridor), ..draws };
    lemma_staged_map_frame(rooms, draws, next, idx, width, height);
    lemma_markers_stay(
        terrain_tiles(before),
        terrain_tiles(after),
        next,
        true,
        idx + 1 == rooms.len(),
        width,
        height,
    );
    assert(next.room_links[idx - 1] == corridor);
    assert forall|i: int| 0 <= i < next.room_links.len() implies leads(
        #[trigger] next.room_links[i],
        rooms[i],
        rooms[i + 1],
    ) by {
        if i < draws.room_links.len() {
            assert(next.room_links[i] == draws.room_links[i]);
        }
    }
}

/// The first room needs no corridor to a room before.
pub proof fn lemma_trace_first_room(
    map: Vec<Vec<TerrainData>>,
    creatures: Seq<Lifeform>,
    rooms: Seq<RoomView>,
    draws: Draws,
    bound: int,
    width: int,
    height: int,
)
    requires
        rooms.len() >= 1,
        traced(map, creatures, rooms, draws, 1, 0, true, rooms.len() == 1, bound, width, height),
    ensures
        traced(map, creatures, rooms, draws, 1, 1, true, rooms.len() == 1, bound, width, height),
{
    reveal(traced);
    reveal_with_fuel(staged_map, 2);
}

/// A map on which every room is worked in is exactly the staged map.
pub proof fn lemma_trace_ends(
    map: Vec<Vec<TerrainData>>,
    creatures: Seq<Lifeform>,
    rooms: Seq<RoomView>,
    draws: Draws,
    bound: int,
    width: int,
    height: int,
)
    requires
        rooms.len() >= 1,
        traced(
            map,
            creatures,
            rooms,
            draws,
            rooms.len() as int,
            rooms.len() as int,
            true,
            true,
            bound,
            width,
            height,
        ),
    ensures
        staged_exact(map, creatures, rooms, draws, bound, width, height),
{
    reveal(traced);
}

/// The wall pass leaves the markers where they were drawn.
pub proof fn lemma_pass_keeps_trace(
    before: Vec<Vec<TerrainData>>,
    after: Vec<Vec<TerrainData>>,
    creatures: Seq<Lifeform>,
    rooms: Seq<RoomView>,
    draws: Draws,
    bound: int,
    width: int,
    height: int,
)
    requires
        staged_exact(before, creatures, rooms, draws, bound, width, height),
        is_grid(terrain_tiles(before), width, height),
        terrain_tiles(after) == wall_pass(terrain_tiles(before)),
    ensures
        world_exact(after, creatures, rooms, draws, bound, width, height),
{
    let cells = terrain_tiles(before);
    let now = terrain_tiles(after);
    assert forall|x: int, y: int| 0 <= x < now.len() && 0 <= y < now[x].len() implies ((
    #[trigger] now[x][y]) is Entrance <==> x == draws.entrance.0 && y == draws.entrance.1) && (
    now[x][y] is Exit <==> x == draws.exit.0 && y == draws.exit.1 && draws.exit
        != draws.entrance) by {
        let _ = cells[x][y];
    }
    assert(cells[draws.entrance.0].len() == now[draws.entrance.0].len());
    assert(cells[draws.exit.0].len() == now[draws.exit.0].len());
}

/// A step that keeps what can be walked on, and at most adds enemies inside
/// one room, keeps the player on the entrance.
pub proof fn lemma_peopled_stays(
    before: Cells,
    after: Cells,
    creatures: Seq<Lifeform>,
    more: Seq<Lifeform>,
    rooms: Seq<RoomView>,
    room: int,
    width: int,
    height: int,
)
    requires
        is_grid(before, width, height),
        is_grid(after, width, height),
        keeps_floor(before, after),
        exists|player: int| peopled(before, creatures, rooms, player),
        creatures.len() <= more.len(),
        more.subrange(0, creatures.len() as int) == creatures,
        0 <= room < rooms.len(),
        enemies_in_room(more, creatures.len() as int, rooms[room]),
    ensures
        exists|player: int| peopled(after, more, rooms, player),
{
    let player = choose|player: int| peopled(before, creatures, rooms, player);
    let x = creatures[player].position.x as int;
    let y = creatures[player].position.y as int;
    lemma_population_grows(creatures, more, rooms, player, room);
    assert(more.subrange(0, creatures.len() as int)[player] == more[player]);
    assert(before[x].len() == height);
    assert(after[x].len() == height);
    assert(after[x][y] == before[x][y]);
    assert(peopled(after, more, rooms, player));
}

/// A step that keeps what can be walked on keeps how far the map has come.
pub proof fn lemma_progress_stays(
    before: Vec<Vec<TerrainData>>,
    after: Vec<Vec<TerrainData>>,
    creatures: Seq<Lifeform>,
    more: Seq<Lifeform>,
    rooms: Seq<RoomView>,
    room: int,
    rendered: int,
    linked: int,
    exit: bool,
    width: int,
    height: int,
)
    requires
        progress(before, creatures, rooms, rendered, linked, true, exit, width, height),
        map_ok(after, width, height),
        keeps_floor(terrain_tiles(before), terrain_tiles(after)),
        creatures.len() <= more.len(),
        more.subrange(0, creatures.len() as int) == creatures,
        0 <= room < rooms.len(),
        enemies_in_room(more, creatures.len() as int, rooms[room]),
    ensures
        progress(after, more, rooms, rendered, linked, true, exit, width, height),
{
    reveal(progress);
    let old_cells = terrain_tiles(before);
    let cells = terrain_tiles(after);
    lemma_rooms_stay_floored(old_cells, cells, rooms, rendered, width, height);
    assert forall|j: int| 0 <= j < rendered implies parts_joined(cells, #[trigger] rooms[j]) by {
        lemma_parts_stay_joined(old_cells, cells, rooms[j], width, height);
    }
    assert forall|j: int| 1 <= j < linked implies joined(
        cells,
        rooms[j - 1],
        #[trigger] rooms[j],
    ) by {
        lemma_joined_stays(old_cells, cells, rooms[j - 1], rooms[j], width, height);
    }
    lemma_peopled_stays(old_cells, cells, creatures, more, rooms, room, width, height);
    if exit {
        lemma_marker_stays(old_cells, cells, rooms.last(), width, height);
    }
}

/// An empty map without creatures is where every map starts.
pub proof fn lemma_progress_starts(
    map: Vec<Vec<TerrainData>>,
    rooms: Seq<RoomView>,
    width: int,
    height: int,
)
    requires
        is_grid(terrain_tiles(map), width, height),
        forall|x: int, y: int|
            0 <= x < width && 0 <= y < height ==> #[trigger] map[x][y] == (TerrainData {
                texture: 0,
                tile_data: TileTextureData::Empty,
            }),
    ensures
        progress(map, Seq::<Lifeform>::empty(), rooms, 0, 0, false, false, width, height),
{
    reveal(progress);
    let cells = terrain_tiles(map);
    assert forall|x: int, y: int| 0 <= x < cells.len() && 0 <= y < cells[x].len() implies plain(
        #[trigger] cells[x][y],
    ) by {
        assert(cells[x].len() == height);
        assert(map[x][y].tile_data is Empty);
    }
}

/// A map on which every room is rendered, linked and peopled is staged.
pub proof fn lemma_progress_ends(
    map: Vec<Vec<TerrainData>>,
    creatures: Seq<Lifeform>,
    rooms: Seq<RoomView>,
    width: int,
    height: int,
)
    requires
        rooms.len() >= 1,
        progress(
            map,
            creatures,
            rooms,
            rooms.len() as int,
            rooms.len() as int,
            true,
            true,
            width,
            height,
        ),
    ensures
        staged(map, creatures, rooms, width, height),
{
    reveal(progress);
}

/// The first room needs no link.
pub proof fn lemma_first_room_is_linked(
    map: Vec<Vec<TerrainData>>,
    creatures: Seq<Lifeform>,
    rooms: Seq<RoomView>,
    exit: bool,
    width: int,
    height: int,
)
    requires
        progress(map, creatures, rooms, 1, 0, true, exit, width, height),
    ensures
        progress(map, creatures, rooms, 1, 1, true, exit, width, height),
{
    reveal(progress);
}

/// The wall pass turns a staged map into a generated world.
pub proof fn lemma_pass_finishes(
    before: Vec<Vec<TerrainData>>,
    after: Vec<Vec<TerrainData>>,
    creatures: Seq<Lifeform>,
    rooms: Seq<RoomView>,
    width: int,
    height: int,
)
    requires
        staged(before, creatures, rooms, width, height),
        same_textures(before, after),
        terrain_tiles(after) == wall_pass(terrain_tiles(before)),
    ensures
        world_ok(after, creatures, rooms, width, height),
{
    let old_cells = terrain_tiles(before);
    let cells = terrain_tiles(after);
    assert(is_grid(cells, width, height)) by {
        assert forall|x: int| 0 <= x < width implies (#[trigger] cells[x]).len() == height by {
            assert(old_cells[x].len() == height);
        }
    }
    assert forall|x: int, y: int| 0 <= x < width && 0 <= y < height implies (
    #[trigger] after[x][y]).texture == 0 && finished(after[x][y].tile_data) && (
    after[x][y].tile_data is Wall ==> has_source(cells, x, y)) by {
        assert(old_cells[x].len() == height);
        assert(before[x][y].texture == 0);
        assert(settled(old_cells[x][y]));
        assert(cells[x][y] == after[x][y].tile_data);
        if after[x][y].tile_data is Wall {
            lemma_kept_walls_have_a_source(old_cells, x, y);
        }
    }
    assert(keeps_floor(old_cells, cells)) by {
        assert forall|x: int, y: int|
            0 <= x < old_cells.len() && 0 <= y < old_cells[x].len() implies (walkable(
            old_cells[x][y],
        ) ==> walkable(#[trigger] cells[x][y])) && (old_cells[x][y].is_marker() ==> cells[x][y]
            == old_cells[x][y]) by {}
    }
    lemma_rooms_stay_floored(old_cells, cells, rooms, rooms.len() as int, width, height);
    crate::worldgen::settle::lemma_rooms_stay_joined(
        old_cells,
        cells,
        rooms,
        rooms.len() as int,
        width,
        height,
    );
    lemma_marker_stays(old_cells, cells, rooms.last(), width, height);
    assert(enemies_in_room(creatures, creatures.len() as int, rooms[0]));
    assert(creatures.subrange(0, creatures.len() as int) =~= creatures);
    lemma_peopled_stays(old_cells, cells, creatures, creatures, rooms, 0, width, height);
}

impl RoomGenerator {
    /// The map and the creatures have come as far as the counts and the
    /// flags say, for the accepted rooms on a map of the configured extent.
    pub open spec fn progress(
        &self,
        map: Vec<Vec<TerrainData>>,
        creatures: Seq<Lifeform>,
        rendered: int,
        linked: int,
        entrance: bool,
        exit: bool,
    ) -> bool {
        progress(
            map,
            creatures,
            room_views(self.rooms@),
            rendered,
            linked,
            entrance,
            exit,
            self.map_width as int,
            self.map_height as int,
        )
    }

    /// The map and the creatures are exactly what the draws have made of the
    /// accepted rooms so far, on a map of the configured extent and under
    /// the configured bound on enemies.
    pub open spec fn traced(
        &self,
        map: Vec<Vec<TerrainData>>,
        creatures: Seq<Lifeform>,
        draws: Draws,
        rendered: int,
        linked: int,
        entrance: bool,
        exit: bool,
    ) -> bool {
        traced(
            map,
            creatures,
            room_views(self.rooms@),
            draws,
            rendered,
            linked,
            entrance,
            exit,
            self.max_enemies_per_room - 1,
            self.map_width as int,
            self.map_height as int,
        )
    }

    /// An empty map of the configured extent.
    fn empty_map(&self) -> (map: Vec<Vec<TerrainData>>)
        ensures
            self.progress(map, Seq::<Lifeform>::empty(), 0, 0, false, false),
            self.traced(map, Seq::<Lifeform>::empty(), no_draws(), 0, 0, false, false),
    {
        let empty_cell = TerrainData { texture: 0, tile_data: TileTextureData::Empty };
        let mut output: Vec<Vec<TerrainData>> = Vec::new();
        for x in 0..self.map_width
            invariant
                output.len() == x,
                empty_cell == (TerrainData { texture: 0, tile_data: TileTextureData::Empty }),
                forall|cx: int| 0 <= cx < x ==> (#[trigger] output[cx]).len() == self.map_height,
                forall|cx: int, cy: int|
                    0 <= cx < x && 0 <= cy < self.map_height ==> #[trigger] output[cx][cy]
                        == empty_cell,
        {
            output.push(vec![empty_cell; self.map_height]);
        }
        proof {
            lemma_progress_starts(
                output,
                room_views(self.rooms@),
                self.map_width as int,
                self.map_height as int,
            );
            lemma_trace_starts(
                output,
                room_views(self.rooms@),
                self.max_enemies_per_room - 1,
                self.map_width as int,
                self.map_height as int,
            );
        }
        output
    }

    /// Renders the room at `idx` onto the map and spawns its enemies.
    fn stage_room(
        &self,
        rng: &mut ChaCha8Rng,
        idx: usize,
        map: &mut Vec<Vec<TerrainData>>,
        creatures: &mut Vec<Lifeform>,
        Ghost(draws): Ghost<Draws>,
    ) -> (drawn: Ghost<Draws>)
        requires
            self.config_failure() is None,
            self.rooms_ok(),
            idx < self.rooms.len(),
            self.progress(*old(map), old(creatures)@, idx as int, idx as int, idx > 0, false),
            self.traced(
                *old(map),
                old(creatures)@,
                draws,
                idx as int,
                idx as int,
                idx > 0,
                false,
            ),
        ensures
            self.progress(*final(map), final(creatures)@, idx + 1, idx as int, idx > 0, false),
            self.traced(
                *final(map),
                final(creatures)@,
                drawn@,
                idx + 1,
                idx as int,
                idx > 0,
                false,
            ),
    {
        let ghost width = self.map_width as int;
        let ghost height = self.map_height as int;
        let ghost views = room_views(self.rooms@);
        let ghost map0 = *map;
        let ghost creatures0 = creatures@;
        let room = &self.rooms[idx];
        assert(views[idx as int] == room@);
        assert(room_ok(views[idx as int], width, height));
        proof {
            reveal(progress);
        }
        self.render_room_onto(map, room);
        let ghost map1 = *map;
        let links = self.populate_room(rng, room, map, creatures);
        proof {
            let cells0 = terrain_tiles(map0);
            let cells1 = terrain_tiles(map1);
            let cells2 = terrain_tiles(*map);
            crate::worldgen::settle::lemma_keeps_markers_twice(
                cells0,
                cells1,
                cells2,
                width,
                height,
            );
            lemma_trace_room(
                map0,
                *map,
                creatures0,
                creatures@,
                views,
                draws,
                links@,
                idx as int,
                self.max_enemies_per_room - 1,
                width,
                height,
            );
            crate::worldgen::settle::lemma_keeps_floor_twice(cells0, cells1, cells2, width, height);
            lemma_rooms_stay_floored(cells1, cells2, views, idx as int, width, height);
            lemma_rooms_stay_floored(cells0, cells1, views, idx as int, width, height);
            assert(room_floored(cells2, views[idx as int])) by {
                assert forall|x: int, y: int| #[trigger]
                    inside_room(views[idx as int], x, y) implies in_grid(cells2, x, y) && walkable(
                    cells2[x][y],
                ) by {
                    assert(in_grid(cells1, x, y) && walkable(cells1[x][y]));
                    assert(cells1[x].len() == height);
                    assert(cells2[x].len() == height);
                    let _ = cells2[x][y];
                }
            }
            lemma_rooms_stay_floored(cells1, cells2, views, idx as int, width, height);
            assert(rooms_floored(cells2, views, idx + 1));
            if idx > 0 {
                lemma_progress_stays(
                    map0,
                    *map,
                    creatures0,
                    creatures@,
                    views,
                    idx as int,
                    idx as int,
                    idx as int,
                    false,
                    width,
                    height,
                );
            } else {
                lemma_population_grows(creatures0, creatures@, views, -1, 0);
            }
        }
        Ghost(Draws { part_links: draws.part_links.push(links@), ..draws })
    }

    /// Sets the entrance on a cell drawn inside the first room and spawns
    /// the player on it.
    fn place_entrance(
        &self,
        rng: &mut ChaCha8Rng,
        map: &mut Vec<Vec<TerrainData>>,
        creatures: &mut Vec<Lifeform>,
        Ghost(draws): Ghost<Draws>,
    ) -> (drawn: Ghost<Draws>)
        requires
            self.config_failure() is None,
            self.rooms_ok(),
            self.rooms.len() >= 1,
            self.progress(*old(map), old(creatures)@, 1, 0, false, false),
            self.traced(*old(map), old(creatures)@, draws, 1, 0, false, false),
        ensures
            self.progress(*final(map), final(creatures)@, 1, 0, true, false),
            self.traced(*final(map), final(creatures)@, drawn@, 1, 0, true, false),
    {
        let ghost width = self.map_width as int;
        let ghost height = self.map_height as int;
        let ghost views = room_views(self.rooms@);
        let ghost cells0 = terrain_tiles(*map);
        let ghost map0 = *map;
        let ghost creatures0 = creatures@;
        let room = &self.rooms[0];
        assert(views[0] == room@);
        assert(room_ok(views[0], width, height));
        proof {
            reveal(progress);
        }
        let (entrance_x, entrance_y) = room.get_random_point_in(rng);
        proof {
            assert(room_floored(cells0, views[0]));
            assert(inside_room(views[0], entrance_x as int, entrance_y as int));
            assert(in_grid(cells0, entrance_x as int, entrance_y as int));
            assert(cells0[entrance_x as int].len() == height);
            assert(plain(cells0[entrance_x as int][entrance_y as int]));
        }
        self.place_marker(map, entrance_x, entrance_y, TileTextureData::Entrance);
        Self::generate_entity_at_point(
            rng,
            entrance_x,
            entrance_y,
            TileTextureData::Player,
            creatures,
        );
        proof {
            let cells = terrain_tiles(*map);
            let player = creatures@.len() - 1;
            lemma_rooms_stay_floored(cells0, cells, views, 1, width, height);
            lemma_parts_stay_joined(cells0, cells, views[0], width, height);
            assert(cells[entrance_x as int].len() == height);
            assert forall|k: int| 0 <= k < creatures@.len() implies (
            #[trigger] creatures@[k]).is_fresh(
                if k == player {
                    TileTextureData::Player
                } else {
                    TileTextureData::Enemy
                },
                creatures@[k].position.x as int,
                creatures@[k].position.y as int,
            ) && inside_some(
                views,
                creatures@[k].position.x as int,
                creatures@[k].position.y as int,
            ) by {
                if k < creatures0.len() {
                    assert(creatures@.subrange(0, creatures0.len() as int)[k] == creatures@[k]);
                    assert(creatures0[k] == creatures@[k]);
                } else {
                    assert(creatures@[k] == creatures@.last());
                    assert(inside_room(views[0], entrance_x as int, entrance_y as int));
                }
            }
            assert(peopled(cells, creatures@, views, player));
            lemma_trace_entrance(
                map0,
                *map,
                creatures0,
                creatures@,
                views,
                draws,
                entrance_x as int,
                entrance_y as int,
                self.max_enemies_per_room - 1,
                width,
                height,
            );
        }
        Ghost(Draws { entrance: (entrance_x as int, entrance_y as int), ..draws })
    }

    /// Sets the exit on a cell drawn inside the last room, unless the
    /// entrance stands there.
    fn place_exit(
        &self,
        rng: &mut ChaCha8Rng,
        map: &mut Vec<Vec<TerrainData>>,
        creatures: &Vec<Lifeform>,
        Ghost(draws): Ghost<Draws>,
    ) -> (drawn: Ghost<Draws>)
        requires
            self.config_failure() is None,
            self.rooms_ok(),
            self.rooms.len() >= 1,
            self.progress(
                *old(map),
                creatures@,
                self.rooms.len() as int,
                self.rooms.len() - 1,
                true,
                false,
            ),
            self.traced(
                *old(map),
                creatures@,
                draws,
                self.rooms.len() as int,
                self.rooms.len() - 1,
                true,
                false,
            ),
        ensures
            self.progress(
                *final(map),
                creatures@,
                self.rooms.len() as int,
                self.rooms.len() - 1,
                true,
                true,
            ),
            self.traced(
                *final(map),
                creatures@,
                drawn@,
                self.rooms.len() as int,
                self.rooms.len() - 1,
                true,
                true,
            ),
    {
        let ghost width = self.map_width as int;
        let ghost height = self.map_height as int;
        let ghost views = room_views(self.rooms@);
        let ghost map0 = *map;
        let last = self.rooms.len() - 1;
        let room = &self.rooms[last];
        assert(views[last as int] == room@);
        assert(room_ok(views[last as int], width, height));
        proof {
            reveal(progress);
        }
        let (exit_x, exit_y) = room.get_random_point_in(rng);
        proof {
            let cells0 = terrain_tiles(map0);
            assert(room_floored(cells0, views[last as int]));
            assert(inside_room(views[last as int], exit_x as int, exit_y as int));
            assert(in_grid(cells0, exit_x as int, exit_y as int));
            assert(cells0[exit_x as int].len() == height);
        }
        self.place_marker(map, exit_x, exit_y, TileTextureData::Exit);
        proof {
            let cells = terrain_tiles(*map);
            assert(enemies_in_room(creatures@, creatures@.len() as int, views[0]));
            assert(creatures@.subrange(0, creatures@.len() as int) =~= creatures@);
            lemma_progress_stays(
                map0,
                *map,
                creatures@,
                creatures@,
                views,
                0,
                self.rooms.len() as int,
                self.rooms.len() - 1,
                false,
                width,
                height,
            );
            assert(cells[exit_x as int].len() == height);
            assert(inside_room(views.last(), exit_x as int, exit_y as int) && in_grid(
                cells,
                exit_x as int,
                exit_y as int,
            ) && cells[exit_x as int][exit_y as int].is_marker());
            lemma_trace_exit(
                map0,
                *map,
                creatures@,
                views,
                draws,
                exit_x as int,
                exit_y as int,
                self.max_enemies_per_room - 1,
                width,
                height,
            );
        }
        Ghost(Draws { exit: (exit_x as int, exit_y as int), ..draws })
    }

    /// Carves a corridor from the room before the one at `idx` to the room
    /// at `idx`.
    fn link_room(
        &self,
        rng: &mut ChaCha8Rng,
        idx: usize,
        map: &mut Vec<Vec<TerrainData>>,
        creatures: &Vec<Lifeform>,
        Ghost(draws): Ghost<Draws>,
    ) -> (drawn: Ghost<Draws>)
        requires
            self.config_failure() is None,
            self.rooms_ok(),
            0 < idx < self.rooms.len(),
            self.progress(
                *old(map),
                creatures@,
                idx + 1,
                idx as int,
                true,
                idx + 1 == self.rooms.len(),
            ),
            self.traced(
                *old(map),
                creatures@,
                draws,
                idx + 1,
                idx as int,
                true,
                idx + 1 == self.rooms.len(),
            ),
        ensures
            self.progress(
                *final(map),
                creatures@,
                idx + 1,
                idx + 1,
                true,
                idx + 1 == self.rooms.len(),
            ),
            self.traced(
                *final(map),
                creatures@,
                drawn@,
                idx + 1,
                idx + 1,
                true,
                idx + 1 == self.rooms.len(),
            ),
    {
        let ghost width = self.map_width as int;
        let ghost height = self.map_height as int;
        let ghost views = room_views(self.rooms@);
        let ghost map0 = *map;
        assert(views[idx - 1] == self.rooms[idx - 1]@);
        assert(views[idx as int] == self.rooms[idx as int]@);
        assert(room_ok(views[idx - 1], width, height));
        assert(room_ok(views[idx as int], width, height));
        proof {
            reveal(progress);
        }
        let corridor = self.generate_corridor(
            rng,
            self.rooms[idx - 1].clone(),
            self.rooms[idx].clone(),
            map,
        );
        proof {
            assert(enemies_in_room(creatures@, creatures@.len() as int, views[0]));
            assert(creatures@.subrange(0, creatures@.len() as int) =~= creatures@);
            lemma_progress_stays(
                map0,
                *map,
                creatures@,
                creatures@,
                views,
                0,
                idx + 1,
                idx as int,
                idx + 1 == self.rooms.len(),
                width,
                height,
            );
            lemma_trace_link(
                map0,
                *map,
                creatures@,
                views,
                draws,
                corridor,
                idx as int,
                self.max_enemies_per_room - 1,
                width,
                height,
            );
        }
        Ghost(Draws { room_links: draws.room_links.push(corridor), ..draws })
    }

    /// Renders the accepted rooms onto an empty map, in their order, and
    /// peoples them: enemies in every room, the entrance and the player in
    /// the first, the exit in the last, and a corridor from every room to the
    /// one before it. The map is exactly what the cells and corridors drawn
    /// make of the rooms.
    pub fn render_rooms(&self, rng: &mut ChaCha8Rng) -> (world: (
        Vec<Vec<TerrainData>>,
        Vec<Lifeform>,
    ))
        requires
            self.config_failure() is None,
            self.rooms_ok(),
            self.rooms.len() >= 1,
        ensures
            staged(
                world.0,
                world.1@,
                room_views(self.rooms@),
                self.map_width as int,
                self.map_height as int,
            ),
            exists|drawn: Draws| #[trigger]
                staged_exact(
                    world.0,
                    world.1@,
                    room_views(self.rooms@),
                    drawn,
                    self.max_enemies_per_room - 1,
                    self.map_width as int,
                    self.map_height as int,
                ),
    {
        let mut output = self.empty_map();
        let mut output_entities: Vec<Lifeform> = Vec::new();
        let count = self.rooms.len();
        let ghost mut draws = no_draws();
        for idx in 0..count
            invariant
                count == self.rooms.len(),
                count >= 1,
                self.config_failure() is None,
                self.rooms_ok(),
                self.progress(
                    output,
                    output_entities@,
                    idx as int,
                    idx as int,
                    idx > 0,
                    idx == count,
                ),
                self.traced(
                    output,
                    output_entities@,
                    draws,
                    idx as int,
                    idx as int,
                    idx > 0,
                    idx == count,
                ),
        {
            let drawn = self.stage_room(rng, idx, &mut output, &mut output_entities, Ghost(draws));
            proof {
                draws = drawn@;
            }
            if idx == 0 {
                let drawn = self.place_entrance(
                    rng,
                    &mut output,
                    &mut output_entities,
                    Ghost(draws),
                );
                proof {
                    draws = drawn@;
                }
            }
            if idx == count - 1 {
                let drawn = self.place_exit(rng, &mut output, &output_entities, Ghost(draws));
                proof {
                    draws = drawn@;
                }
            }
            if idx > 0 {
                let drawn = self.link_room(rng, idx, &mut output, &output_entities, Ghost(draws));
                proof {
                    draws = drawn@;
                }
            } else {
                proof {
                    lemma_first_room_is_linked(
                        output,
                        output_entities@,
                        room_views(self.rooms@),
                        idx == count - 1,
                        self.map_width as int,
                        self.map_height as int,
                    );
                    lemma_trace_first_room(
                        output,
                        output_entities@,
                        room_views(self.rooms@),
                        draws,
                        self.max_enemies_per_room - 1,
                        self.map_width as int,
                        self.map_height as int,
                    );
                }
            }
        }
        let world = (output, output_entities);
        proof {
            lemma_progress_ends(
                world.0,
                world.1@,
                room_views(self.rooms@),
                self.map_width as int,
                self.map_height as int,
            );
            lemma_trace_ends(
                world.0,
                world.1@,
                room_views(self.rooms@),
                draws,
                self.max_enemies_per_room - 1,
                self.map_width as int,
                self.map_height as int,
            );
        }
        world
    }

    /// Generates a map and its creatures: checks the configuration, places
    /// the rooms, renders and peoples them, and runs the wall pass.
    ///
    /// Fails before anything is drawn where the configuration is not sound,
    /// and while rooms are placed where a proposed room meets a room that it
    /// contains on one axis and is contained in on the other. On success the
    /// map is exactly the wall pass over what the cells and corridors drawn
    /// make of the accepted rooms.
    pub fn generate_rooms(&mut self, rng: &mut ChaCha8Rng) -> (world: Result<
        (Vec<Vec<TerrainData>>, Vec<Lifeform>),
        WorldgenError,
    >)
        requires
            old(self).rooms_ok(),
        ensures
            final(self).same_config(old(self)),
            final(self).rooms_ok(),
            match old(self).config_failure() {
                Some(failure) => world == Err::<
                    (Vec<Vec<TerrainData>>, Vec<Lifeform>),
                    WorldgenError,
                >(failure) && final(self).rooms@ == old(self).rooms@,
                None => match world {
                    Ok((map, creatures)) => world_ok(
                        map,
                        creatures@,
                        room_views(final(self).rooms@),
                        old(self).map_width as int,
                        old(self).map_height as int,
                    ) && 1 <= final(self).rooms.len() <= old(self).rooms.len() + old(
                        self,
                    ).room_count && (exists|drawn: Seq<Rect>| #[trigger]
                        final(self).placed_from(room_views(old(self).rooms@), drawn, None))
                        && exists|draws: Draws| #[trigger]
                        world_exact(
                            map,
                            creatures@,
                            room_views(final(self).rooms@),
                            draws,
                            old(self).max_enemies_per_room - 1,
                            old(self).map_width as int,
                            old(self).map_height as int,
                        ),
                    Err(failure) => failure == WorldgenError::ConflictingOrder && !(old(
                        self,
                    ).rooms.len() == 0 && old(self).room_count == 1) && exists|drawn: Seq<Rect>|
                     #[trigger]
                        final(self).placed_from(
                            room_views(old(self).rooms@),
                            drawn,
                            Some(failure),
                        ),
                },
            },
            old(self).config_failure() is Some ==> *final(rng) == *old(rng),
    {
        match self.validate() {
            Ok(()) => {},
            Err(failure) => { return Err(failure); },
        }
        match self.place_rooms(rng) {
            Ok(()) => {},
            Err(failure) => { return Err(failure); },
        }
        let (mut map, creatures) = self.render_rooms(rng);
        let ghost before = map;
        let ghost draws = choose|draws: Draws| #[trigger]
            staged_exact(
                before,
                creatures@,
                room_views(self.rooms@),
                draws,
                self.max_enemies_per_room - 1,
                self.map_width as int,
                self.map_height as int,
            );
        proof {
            assert(is_grid(terrain_tiles(map), map.len() as int, self.map_height as int));
        }
        RoomGenerator::connect_walls(&mut map);
        let world = Ok((map, creatures));
        proof {
            match &world {
                Ok((finished_map, all)) => {
                    lemma_pass_finishes(
                        before,
                        *finished_map,
                        all@,
                        room_views(self.rooms@),
                        self.map_width as int,
                        self.map_height as int,
                    );
                    lemma_pass_keeps_trace(
                        before,
                        *finished_map,
                        all@,
                        room_views(self.rooms@),
                        draws,
                        self.max_enemies_per_room - 1,
                        self.map_width as int,
                        self.map_height as int,
                    );
                },
                Err(_) => {},
            }
        }
        world
    }
}

} // verus!
