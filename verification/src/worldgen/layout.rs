use crate::lifeform::Lifeform;
use crate::tile_data::TileTextureData;
use crate::worldgen::corridor::Corridor;
use crate::worldgen::generator::RoomGenerator;
use crate::worldgen::geometry::Rect;
use crate::worldgen::geometry::Room;
use crate::worldgen::geometry::RoomView;
use crate::worldgen::placement::room_ok;
use crate::worldgen::population::enemies_inside;
use crate::worldgen::population::has_interior;
use crate::worldgen::population::inside_room;
use crate::worldgen::population::inside_some;
use crate::worldgen::raster::blitted;
use crate::worldgen::raster::fits;
use crate::worldgen::raster::is_grid;
use crate::worldgen::raster::tiles;
use crate::worldgen::raster::Cells;
use crate::worldgen::settle::all_plain;
use crate::worldgen::settle::all_settled;
use crate::worldgen::settle::keeps_floor;
use crate::worldgen::settle::keeps_markers;
use crate::worldgen::settle::lemma_keeps_markers_twice;
use crate::worldgen::settle::lemma_with_corridors_prefix;
use crate::worldgen::settle::with_corridor;
use crate::worldgen::settle::with_corridors;
use crate::worldgen::settle::with_marker;
use crate::worldgen::settle::with_room;
use crate::worldgen::settle::lemma_blit_settled;
use crate::worldgen::settle::corridor_floored;
use crate::worldgen::settle::joined;
use crate::worldgen::settle::lemma_corridor_blit_floors;
use crate::worldgen::settle::lemma_corridor_is_plain;
use crate::worldgen::settle::lemma_joined_stays;
use crate::worldgen::settle::parts_joined;
use crate::worldgen::settle::lemma_keeps_floor_twice;
use crate::worldgen::settle::lemma_room_blit_floors;
use crate::worldgen::settle::map_ok;
use crate::worldgen::settle::room_floored;
use crate::worldgen::terrain::terrain_tiles;
use crate::worldgen::terrain::TerrainData;
use bevy_prng::ChaCha8Rng;
use vstd::prelude::*;

verus! {

/// The creatures from `from` on are enemies as they are spawned, each inside
/// the walls of the room.
pub open spec fn enemies_in_room(creatures: Seq<Lifeform>, from: int, room: RoomView) -> bool {
    forall|k: int|
        from <= k < creatures.len() ==> (#[trigger] creatures[k]).is_fresh(
            TileTextureData::Enemy,
            creatures[k].position.x as int,
            creatures[k].position.y as int,
        ) && inside_room(room, creatures[k].position.x as int, creatures[k].position.y as int)
}

/// Every creature is as it was spawned and stands inside the walls of a
/// room; the one at `player` is the player and all others are enemies.
pub open spec fn population_ok(creatures: Seq<Lifeform>, rooms: Seq<RoomView>, player: int) -> bool {
    forall|k: int|
        0 <= k < creatures.len() ==> (#[trigger] creatures[k]).is_fresh(
            if k == player {
                TileTextureData::Player
            } else {
                TileTextureData::Enemy
            },
            creatures[k].position.x as int,
            creatures[k].position.y as int,
        ) && inside_some(rooms, creatures[k].position.x as int, creatures[k].position.y as int)
}

/// Enemies spawned inside one of the rooms keep a population in order.
pub proof fn lemma_population_grows(
    before: Seq<Lifeform>,
    after: Seq<Lifeform>,
    rooms: Seq<RoomView>,
    player: int,
    room: int,
)
    requires
        population_ok(before, rooms, player),
        player < before.len() <= after.len(),
        after.subrange(0, before.len() as int) == before,
        0 <= room < rooms.len(),
        enemies_in_room(after, before.len() as int, rooms[room]),
    ensures
        population_ok(after, rooms, player),
{
    assert forall|k: int| 0 <= k < after.len() implies (#[trigger] after[k]).is_fresh(
        if k == player {
            TileTextureData::Player
        } else {
            TileTextureData::Enemy
        },
        after[k].position.x as int,
        after[k].position.y as int,
    ) && inside_some(rooms, after[k].position.x as int, after[k].position.y as int) by {
        if k < before.len() {
            assert(after.subrange(0, before.len() as int)[k] == after[k]);
            assert(before[k] == after[k]);
        } else {
            assert(inside_room(
                rooms[room],
                after[k].position.x as int,
                after[k].position.y as int,
            ));
        }
    }
}

/// The corridor is well formed and leads from a cell inside the walls of
/// `from` to a cell inside the walls of `to`.
pub open spec fn leads(corridor: Corridor, from: RoomView, to: RoomView) -> bool {
    &&& corridor.wf()
    &&& inside_room(from, corridor.from_x as int, corridor.from_y as int)
    &&& inside_room(to, corridor.to_x as int, corridor.to_y as int)
}

/// There is one corridor for every rectangle of the room but the first, and
/// each leads from the rectangle before to its own.
pub open spec fn part_links_ok(links: Seq<Corridor>, parts: Seq<Rect>) -> bool {
    &&& links.len() == if parts.len() >= 1 {
        parts.len() - 1
    } else {
        0
    }
    &&& forall|k: int|
        0 <= k < links.len() ==> leads(
            #[trigger] links[k],
            RoomView::Basic { rect: parts[k] },
            RoomView::Basic { rect: parts[k + 1] },
        )
}

/// Every rectangle is well formed, has an interior and lies on the map.
pub open spec fn parts_ok(parts: Seq<Rect>, width: int, height: int) -> bool {
    forall|i: int|
        0 <= i < parts.len() ==> (#[trigger] parts[i]).wf() && parts[i].has_interior()
            && parts[i].within(width, height)
}

/// Each of the first `count` rectangles but the first is joined to the one
/// before it.
#[verifier::opaque]
pub open spec fn parts_joined_upto(cells: Cells, parts: Seq<Rect>, count: int) -> bool {
    forall|k: int|
        1 <= k < count ==> joined(
            cells,
            RoomView::Basic { rect: parts[k - 1] },
            RoomView::Basic { rect: #[trigger] parts[k] },
        )
}

/// A sound rectangle is a sound room.
pub proof fn lemma_single_room_ok(rect: Rect, width: int, height: int)
    requires
        rect.wf(),
        rect.has_interior(),
        rect.within(width, height),
    ensures
        room_ok(RoomView::Basic { rect }, width, height),
{
    let room = RoomView::Basic { rect };
    assert(room.rects()[0] == rect);
}

/// The rectangles of a sound room are sound.
pub proof fn lemma_parts_of_room_ok(room: RoomView, width: int, height: int)
    requires
        room_ok(room, width, height),
    ensures
        parts_ok(room.rects(), width, height),
{
}

/// A prefix of a prefix is a prefix.
pub proof fn lemma_prefix_twice(first: Seq<Lifeform>, second: Seq<Lifeform>, third: Seq<Lifeform>)
    requires
        first.len() <= second.len() <= third.len(),
        second.subrange(0, first.len() as int) == first,
        third.subrange(0, second.len() as int) == second,
    ensures
        third.subrange(0, first.len() as int) == first,
{
    assert forall|k: int| 0 <= k < first.len() implies third[k] == first[k] by {
        assert(second.subrange(0, first.len() as int)[k] == second[k]);
        assert(third.subrange(0, second.len() as int)[k] == third[k]);
    }
    assert(third.subrange(0, first.len() as int) =~= first);
}

/// Enemies spawned inside one rectangle of a room are enemies of the room.
pub proof fn lemma_enemies_join(
    before: Seq<Lifeform>,
    after: Seq<Lifeform>,
    start: int,
    room: RoomView,
    part: int,
)
    requires
        0 <= start <= before.len() <= after.len(),
        after.subrange(0, before.len() as int) == before,
        enemies_in_room(before, start, room),
        0 <= part < room.rects().len(),
        enemies_inside(after, before.len() as int, room.rects()[part]),
    ensures
        enemies_in_room(after, start, room),
{
    assert forall|k: int| start <= k < after.len() implies (#[trigger] after[k]).is_fresh(
        TileTextureData::Enemy,
        after[k].position.x as int,
        after[k].position.y as int,
    ) && inside_room(room, after[k].position.x as int, after[k].position.y as int) by {
        if k < before.len() {
            assert(after.subrange(0, before.len() as int)[k] == after[k]);
            assert(before[k] == after[k]);
        } else {
            assert(room.rects()[part].holds_inside(
                after[k].position.x as int,
                after[k].position.y as int,
            ));
        }
    }
}

/// Rectangles that were joined stay joined, and the next one joins them.
pub proof fn lemma_parts_upto_grow(
    before: Cells,
    after: Cells,
    parts: Seq<Rect>,
    count: int,
    width: int,
    height: int,
)
    requires
        is_grid(before, width, height),
        is_grid(after, width, height),
        keeps_floor(before, after),
        parts_joined_upto(before, parts, count),
        0 <= count < parts.len(),
        count > 0 ==> joined(
            after,
            RoomView::Basic { rect: parts[count - 1] },
            RoomView::Basic { rect: parts[count] },
        ),
    ensures
        parts_joined_upto(after, parts, count + 1),
{
    reveal(parts_joined_upto);
    assert forall|k: int| 1 <= k < count + 1 implies joined(
        after,
        RoomView::Basic { rect: parts[k - 1] },
        RoomView::Basic { rect: #[trigger] parts[k] },
    ) by {
        if k < count {
            lemma_joined_stays(
                before,
                after,
                RoomView::Basic { rect: parts[k - 1] },
                RoomView::Basic { rect: parts[k] },
                width,
                height,
            );
        }
    }
}

/// There is one corridor for each of the first `count` rectangles but the
/// first, and each leads from the rectangle before to its own.
#[verifier::opaque]
pub open spec fn links_upto(links: Seq<Corridor>, parts: Seq<Rect>, count: int) -> bool {
    &&& links.len() == if count >= 1 {
        count - 1
    } else {
        0
    }
    &&& forall|k: int|
        0 <= k < links.len() ==> leads(
            #[trigger] links[k],
            RoomView::Basic { rect: parts[k] },
            RoomView::Basic { rect: parts[k + 1] },
        )
}

/// A map that stays as it is keeps its floor and its markers.
pub proof fn lemma_nothing_changes(cells: Cells, width: int, height: int)
    ensures
        keeps_floor(cells, cells),
        keeps_markers(cells, cells),
        with_corridors(cells, Seq::<Corridor>::empty(), 0) == cells,
        links_upto(Seq::<Corridor>::empty(), Seq::<Rect>::empty(), 0),
        forall|parts: Seq<Rect>| #[trigger] links_upto(Seq::<Corridor>::empty(), parts, 0),
        forall|parts: Seq<Rect>|
            parts.len() == 1 ==> #[trigger] part_links_ok(Seq::<Corridor>::empty(), parts),
{
    reveal(links_upto);
}

/// The corridor of the next rectangle, if it has one, joins those carved
/// before it.
pub proof fn lemma_links_grow(
    first: Cells,
    before: Cells,
    after: Cells,
    links: Seq<Corridor>,
    more: Seq<Corridor>,
    parts: Seq<Rect>,
    count: int,
)
    requires
        0 <= count < parts.len(),
        links_upto(links, parts, count),
        before == with_corridors(first, links, links.len() as int),
        after == with_corridors(before, more, more.len() as int),
        more.len() == if count > 0 {
            1int
        } else {
            0int
        },
        count > 0 ==> leads(
            more[0],
            RoomView::Basic { rect: parts[count - 1] },
            RoomView::Basic { rect: parts[count] },
        ),
    ensures
        links_upto(links + more, parts, count + 1),
        after == with_corridors(first, links + more, (links + more).len() as int),
{
    reveal(links_upto);
    let all = links + more;
    if count > 0 {
        assert(all.len() == links.len() + 1);
        assert(all[links.len() as int] == more[0]);
        lemma_with_corridors_prefix(first, links, all, links.len() as int);
        assert(with_corridors(before, more, 0) == before);
        assert forall|k: int| 0 <= k < all.len() implies leads(
            #[trigger] all[k],
            RoomView::Basic { rect: parts[k] },
            RoomView::Basic { rect: parts[k + 1] },
        ) by {
            if k < links.len() {
                assert(all[k] == links[k]);
            }
        }
    } else {
        assert(all =~= links);
    }
}

impl RoomGenerator {
    /// The map has the extent of the configuration and is settled.
    pub open spec fn map_ok(&self, map: Vec<Vec<TerrainData>>) -> bool {
        map_ok(map, self.map_width as int, self.map_height as int)
    }

    /// Writes a settled patch onto the map.
    fn lay(
        &self,
        map: &mut Vec<Vec<TerrainData>>,
        patch: Vec<Vec<TileTextureData>>,
        x: usize,
        y: usize,
    )
        requires
            self.map_ok(*old(map)),
            all_settled(tiles(patch)),
            fits(terrain_tiles(*old(map)), tiles(patch), x as int, y as int),
        ensures
            self.map_ok(*final(map)),
            terrain_tiles(*final(map)) == blitted(
                terrain_tiles(*old(map)),
                tiles(patch),
                x as int,
                y as int,
                true,
            ),
            keeps_floor(terrain_tiles(*old(map)), terrain_tiles(*final(map))),
            all_plain(terrain_tiles(*old(map))) && all_plain(tiles(patch)) ==> all_plain(
                terrain_tiles(*final(map)),
            ),
            all_plain(tiles(patch)) ==> keeps_markers(
                terrain_tiles(*old(map)),
                terrain_tiles(*final(map)),
            ),
    {
        proof {
            lemma_blit_settled(
                terrain_tiles(*map),
                tiles(patch),
                x as int,
                y as int,
                self.map_width as int,
                self.map_height as int,
            );
        }
        let done = Self::blit(map, patch, x, y);
        assert(done is Ok);
        proof {
            let after = terrain_tiles(*map);
            assert forall|cx: int, cy: int|
                0 <= cx < self.map_width && 0 <= cy < self.map_height implies (
            #[trigger] map[cx][cy]).texture == 0 by {
                assert(terrain_tiles(*old(map))[cx].len() == self.map_height);
                assert(old(map)[cx][cy].texture == 0);
            }
        }
    }

    /// Renders a room and writes it onto the map at the corner of its
    /// bounding box.
    pub(crate) fn render_room_onto(&self, map: &mut Vec<Vec<TerrainData>>, room: &Room)
        requires
            self.map_ok(*old(map)),
            room_ok(room@, self.map_width as int, self.map_height as int),
        ensures
            self.map_ok(*final(map)),
            keeps_floor(terrain_tiles(*old(map)), terrain_tiles(*final(map))),
            room_floored(terrain_tiles(*final(map)), room@),
            all_plain(terrain_tiles(*old(map))) ==> all_plain(terrain_tiles(*final(map))),
            keeps_markers(terrain_tiles(*old(map)), terrain_tiles(*final(map))),
            terrain_tiles(*final(map)) == with_room(terrain_tiles(*old(map)), room@),
    {
        proof {
            lemma_room_blit_floors(
                terrain_tiles(*map),
                room@,
                self.map_width as int,
                self.map_height as int,
            );
        }
        let rendered_room = room.clone().render();
        let (x, y) = match room {
            Room::Basic { rect } => (rect.x as usize, rect.y as usize),
            Room::Complex { aabb, .. } => (aabb.x as usize, aabb.y as usize),
        };
        self.lay(map, rendered_room, x, y);
    }

    /// Writes an entrance or an exit onto the cell `(x, y)`; it takes the
    /// place of anything but another marker.
    pub(crate) fn place_marker(
        &self,
        map: &mut Vec<Vec<TerrainData>>,
        x: usize,
        y: usize,
        marker: TileTextureData,
    )
        requires
            self.map_ok(*old(map)),
            x < self.map_width,
            y < self.map_height,
            marker.is_marker(),
        ensures
            self.map_ok(*final(map)),
            keeps_floor(terrain_tiles(*old(map)), terrain_tiles(*final(map))),
            terrain_tiles(*final(map))[x as int][y as int] == if terrain_tiles(
                *old(map),
            )[x as int][y as int].is_marker() {
                terrain_tiles(*old(map))[x as int][y as int]
            } else {
                marker
            },
            terrain_tiles(*final(map)) == with_marker(
                terrain_tiles(*old(map)),
                x as int,
                y as int,
                marker,
            ),
    {
        let mut column: Vec<TileTextureData> = Vec::new();
        column.push(marker);
        let mut patch: Vec<Vec<TileTextureData>> = Vec::new();
        patch.push(column);
        proof {
            let cells = tiles(patch);
            assert(cells[0] == patch[0]@);
            assert(terrain_tiles(*map)[x as int].len() == self.map_height);
            assert forall|i: int, j: int|
                0 <= i < cells.len() && 0 <= j < cells[i].len() implies crate::worldgen::settle::settled(
                #[trigger] cells[i][j],
            ) by {
                assert(cells[i][j] == marker);
            }
            assert(crate::worldgen::raster::offered(cells, x as int, y as int, x as int, y as int)
                == Some(marker));
            assert(cells =~= seq![seq![marker]]);
        }
        self.lay(map, patch, x, y);
    }

    /// Carves a corridor between a cell drawn inside the first room and a
    /// cell drawn inside the second.
    pub(crate) fn generate_corridor(
        &self,
        rng: &mut ChaCha8Rng,
        from_room: Room,
        to_room: Room,
        map: &mut Vec<Vec<TerrainData>>,
    ) -> (corridor: Corridor)
        requires
            self.map_ok(*old(map)),
            room_ok(from_room@, self.map_width as int, self.map_height as int),
            room_ok(to_room@, self.map_width as int, self.map_height as int),
        ensures
            self.map_ok(*final(map)),
            keeps_floor(terrain_tiles(*old(map)), terrain_tiles(*final(map))),
            all_plain(terrain_tiles(*old(map))) ==> all_plain(terrain_tiles(*final(map))),
            joined(terrain_tiles(*final(map)), from_room@, to_room@),
            leads(corridor, from_room@, to_room@),
            keeps_markers(terrain_tiles(*old(map)), terrain_tiles(*final(map))),
            terrain_tiles(*final(map)) == with_corridor(terrain_tiles(*old(map)), corridor),
    {
        let (from_x, from_y) = from_room.get_random_point_in(rng);
        let (to_x, to_y) = to_room.get_random_point_in(rng);
        proof {
            let i = choose|i: int|
                0 <= i < from_room@.rects().len() && (
                #[trigger] from_room@.rects()[i]).holds_inside(from_x as int, from_y as int);
            assert(from_room@.rects()[i].within(self.map_width as int, self.map_height as int));
            let j = choose|j: int|
                0 <= j < to_room@.rects().len() && (#[trigger] to_room@.rects()[j]).holds_inside(
                    to_x as int,
                    to_y as int,
                );
            assert(to_room@.rects()[j].within(self.map_width as int, self.map_height as int));
        }
        let corridor = Corridor { from_x, from_y, to_x, to_y };
        let (x_offset, y_offset) = corridor.get_offsets();
        let rendered = corridor.render();
        proof {
            lemma_corridor_is_plain(corridor);
            lemma_corridor_blit_floors(
                terrain_tiles(*map),
                corridor,
                self.map_width as int,
                self.map_height as int,
            );
        }
        self.lay(map, rendered, x_offset, y_offset);
        assert(joined(terrain_tiles(*map), from_room@, to_room@)) by {
            reveal(joined);
            assert(corridor_floored(terrain_tiles(*map), corridor));
        }
        corridor
    }

    /// Spawns the enemies of one rectangle of a merged room and, unless it is
    /// the first, joins it to the rectangle before it by a corridor. Returns
    /// the corridor, if one was carved.
    fn populate_part(
        &self,
        rng: &mut ChaCha8Rng,
        parts: &Vec<Rect>,
        index: usize,
        map: &mut Vec<Vec<TerrainData>>,
        output: &mut Vec<Lifeform>,
    ) -> (links: Ghost<Seq<Corridor>>)
        requires
            self.max_enemies_per_room > 0,
            self.map_ok(*old(map)),
            index < parts.len(),
            parts_ok(parts@, self.map_width as int, self.map_height as int),
        ensures
            self.map_ok(*final(map)),
            keeps_floor(terrain_tiles(*old(map)), terrain_tiles(*final(map))),
            keeps_markers(terrain_tiles(*old(map)), terrain_tiles(*final(map))),
            all_plain(terrain_tiles(*old(map))) ==> all_plain(terrain_tiles(*final(map))),
            old(output)@.len() <= final(output)@.len() <= old(output)@.len()
                + self.max_enemies_per_room - 1,
            final(output)@.subrange(0, old(output)@.len() as int) == old(output)@,
            enemies_inside(final(output)@, old(output)@.len() as int, parts@[index as int]),
            index > 0 ==> joined(
                terrain_tiles(*final(map)),
                RoomView::Basic { rect: parts@[index - 1] },
                RoomView::Basic { rect: parts@[index as int] },
            ),
            links@.len() == if index > 0 {
                1int
            } else {
                0int
            },
            index > 0 ==> leads(
                links@[0],
                RoomView::Basic { rect: parts@[index - 1] },
                RoomView::Basic { rect: parts@[index as int] },
            ),
            terrain_tiles(*final(map)) == with_corridors(
                terrain_tiles(*old(map)),
                links@,
                links@.len() as int,
            ),
    {
        let part = parts[index];
        self.spawn_enemies(rng, part, output);
        if index != 0 {
            let earlier = parts[index - 1];
            let from_room = Room::Basic { rect: earlier };
            let to_room = Room::Basic { rect: part };
            proof {
                lemma_single_room_ok(earlier, self.map_width as int, self.map_height as int);
                lemma_single_room_ok(part, self.map_width as int, self.map_height as int);
            }
            let corridor = self.generate_corridor(rng, from_room, to_room, map);
            let ghost links = Seq::<Corridor>::empty().push(corridor);
            proof {
                assert(with_corridors(terrain_tiles(*old(map)), links, 0) == terrain_tiles(
                    *old(map),
                ));
                assert(links[0] == corridor);
            }
            Ghost(links)
        } else {
            proof {
                lemma_nothing_changes(
                    terrain_tiles(*map),
                    self.map_width as int,
                    self.map_height as int,
                );
            }
            Ghost(Seq::empty())
        }
    }

    /// Spawns the enemies of a room, rectangle by rectangle, and joins each
    /// rectangle of a merged room to the one before it by a corridor. Returns
    /// the corridors in their order.
    pub(crate) fn populate_room(
        &self,
        rng: &mut ChaCha8Rng,
        room: &Room,
        map: &mut Vec<Vec<TerrainData>>,
        output: &mut Vec<Lifeform>,
    ) -> (links: Ghost<Seq<Corridor>>)
        requires
            self.max_enemies_per_room > 0,
            self.map_ok(*old(map)),
            room_ok(room@, self.map_width as int, self.map_height as int),
        ensures
            self.map_ok(*final(map)),
            keeps_floor(terrain_tiles(*old(map)), terrain_tiles(*final(map))),
            keeps_markers(terrain_tiles(*old(map)), terrain_tiles(*final(map))),
            all_plain(terrain_tiles(*old(map))) ==> all_plain(terrain_tiles(*final(map))),
            old(output)@.len() <= final(output)@.len() <= old(output)@.len()
                + room@.rects().len() * (self.max_enemies_per_room - 1),
            final(output)@.subrange(0, old(output)@.len() as int) == old(output)@,
            enemies_in_room(final(output)@, old(output)@.len() as int, room@),
            parts_joined(terrain_tiles(*final(map)), room@),
            part_links_ok(links@, room@.rects()),
            terrain_tiles(*final(map)) == with_corridors(
                terrain_tiles(*old(map)),
                links@,
                links@.len() as int,
            ),
    {
        let ghost width = self.map_width as int;
        let ghost height = self.map_height as int;
        let ghost start = output@.len() as int;
        let ghost first_map = terrain_tiles(*map);
        let ghost bound = self.max_enemies_per_room - 1;
        match room {
            Room::Basic { rect } => {
                assert(room@.rects()[0] == *rect);
                self.spawn_enemies(rng, *rect, output);
                proof {
                    lemma_enemies_join(old(output)@, output@, start, room@, 0);
                    lemma_nothing_changes(first_map, width, height);
                    assert(room@.rects().len() * bound == bound) by (nonlinear_arith)
                        requires
                            room@.rects().len() == 1,
                    ;
                }
                Ghost(Seq::empty())
            },
            Room::Complex { rooms, .. } => {
                assert(output@.subrange(0, start) =~= old(output)@);
                let ghost mut links: Seq<Corridor> = Seq::empty();
                proof {
                    lemma_parts_of_room_ok(room@, width, height);
                    assert(parts_joined_upto(terrain_tiles(*map), rooms@, 0)) by {
                        reveal(parts_joined_upto);
                    }
                    lemma_nothing_changes(first_map, width, height);
                    assert(0 * bound == 0) by (nonlinear_arith);
                }
                for idx_2 in 0..rooms.len()
                    invariant
                        width == self.map_width,
                        height == self.map_height,
                        bound == self.max_enemies_per_room - 1,
                        start == old(output)@.len(),
                        first_map == terrain_tiles(*old(map)),
                        is_grid(first_map, width, height),
                        self.max_enemies_per_room > 0,
                        room@.rects() == rooms@,
                        parts_ok(rooms@, width, height),
                        self.map_ok(*map),
                        keeps_floor(first_map, terrain_tiles(*map)),
                        keeps_markers(first_map, terrain_tiles(*map)),
                        all_plain(first_map) ==> all_plain(terrain_tiles(*map)),
                        start <= output@.len() <= start + idx_2 * bound,
                        output@.subrange(0, start) == old(output)@,
                        enemies_in_room(output@, start, room@),
                        parts_joined_upto(terrain_tiles(*map), rooms@, idx_2 as int),
                        links_upto(links, rooms@, idx_2 as int),
                        terrain_tiles(*map) == with_corridors(first_map, links, links.len() as int),
                {
                    let ghost before = output@;
                    let ghost map_before = terrain_tiles(*map);
                    let more = self.populate_part(rng, rooms, idx_2, map, output);
                    proof {
                        lemma_keeps_floor_twice(
                            first_map,
                            map_before,
                            terrain_tiles(*map),
                            width,
                            height,
                        );
                        lemma_keeps_markers_twice(
                            first_map,
                            map_before,
                            terrain_tiles(*map),
                            width,
                            height,
                        );
                        lemma_prefix_twice(old(output)@, before, output@);
                        lemma_enemies_join(before, output@, start, room@, idx_2 as int);
                        lemma_parts_upto_grow(
                            map_before,
                            terrain_tiles(*map),
                            rooms@,
                            idx_2 as int,
                            width,
                            height,
                        );
                        lemma_links_grow(
                            first_map,
                            map_before,
                            terrain_tiles(*map),
                            links,
                            more@,
                            rooms@,
                            idx_2 as int,
                        );
                        links = links + more@;
                        assert((idx_2 + 1) * bound == idx_2 * bound + bound) by (nonlinear_arith);
                    }
                }
                proof {
                    assert(parts_joined(terrain_tiles(*map), room@)) by {
                        reveal(parts_joined_upto);
                    }
                    assert(part_links_ok(links, room@.rects())) by {
                        reveal(links_upto);
                    }
                }
                Ghost(links)
            },
        }
    }
}

} // verus!
