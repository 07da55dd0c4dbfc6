use crate::lifeform::GridPosition;
use crate::lifeform::Lifeform;
use crate::tile_data::TileTextureData;
use crate::utils::rand_range;
use crate::worldgen::generator::RoomGenerator;
use crate::worldgen::geometry::Rect;
use crate::worldgen::geometry::Room;
use crate::worldgen::geometry::RoomView;
use crate::worldgen::raster::floored;
use crate::worldgen::terrain::TerrainData;
use bevy_prng::ChaCha8Rng;
use vstd::prelude::*;

verus! {

/// The cell `(x, y)` lies inside the walls of one of the room's rectangles.
pub open spec fn inside_room(room: RoomView, x: int, y: int) -> bool {
    floored(room.rects(), room.rects().len() as int, x, y)
}

/// Every rectangle of the room has a cell inside its walls.
pub open spec fn has_interior(room: RoomView) -> bool {
    forall|i: int| 0 <= i < room.rects().len() ==> (#[trigger] room.rects()[i]).has_interior()
}

/// The cell `(x, y)` lies inside one of the rooms.
pub open spec fn inside_some(rooms: Seq<RoomView>, x: int, y: int) -> bool {
    exists|j: int| 0 <= j < rooms.len() && inside_room(#[trigger] rooms[j], x, y)
}

/// The creatures from `from` on are enemies as they are spawned, each
/// inside the walls of `rect`.
pub open spec fn enemies_inside(creatures: Seq<Lifeform>, from: int, rect: Rect) -> bool {
    forall|k: int|
        from <= k < creatures.len() ==> (#[trigger] creatures[k]).is_fresh(
            TileTextureData::Enemy,
            creatures[k].position.x as int,
            creatures[k].position.y as int,
        ) && rect.holds_inside(creatures[k].position.x as int, creatures[k].position.y as int)
}

impl Rect {
    /// Draws a cell inside the walls of the rectangle.
    pub fn random_point_in(&self, rng: &mut ChaCha8Rng) -> (point: (usize, usize))
        requires
            self.wf(),
            self.has_interior(),
        ensures
            self.holds_inside(point.0 as int, point.1 as int),
    {
        let x = rand_range((self.x + 1) as u32, (self.width - 2) as u32, rng);
        let y = rand_range((self.y + 1) as u32, (self.height - 2) as u32, rng);
        (x as usize, y as usize)
    }
}

impl Room {
    /// Draws a cell inside the walls of the room: of its rectangle, or of
    /// one of its rectangles chosen at random.
    pub fn get_random_point_in(&self, rng: &mut ChaCha8Rng) -> (point: (usize, usize))
        requires
            self@.wf(),
            has_interior(self@),
        ensures
            inside_room(self@, point.0 as int, point.1 as int),
    {
        match self {
            Room::Basic { rect } => {
                assert(self@.rects()[0] == *rect);
                let point = rect.random_point_in(rng);
                assert(0 <= 0 < self@.rects().len() && self@.rects()[0].holds_inside(
                    point.0 as int,
                    point.1 as int,
                ));
                point
            },
            Room::Complex { rooms, .. } => {
                assert(rooms.len() > 0) by {
                    let i = choose|i: int|
                        0 <= i < self@.rects().len() && (#[trigger] self@.rects()[i]).x
                            == self@.bounds().x;
                }
                let count: u32 = if rooms.len() > 0xFFFF_FFFF {
                    0xFFFF_FFFF
                } else {
                    rooms.len() as u32
                };
                let room_num = rand_range(0, count, rng) as usize;
                assert(self@.rects()[room_num as int] == rooms[room_num as int]);
                let point = rooms[room_num].random_point_in(rng);
                assert(0 <= room_num < self@.rects().len() && self@.rects()[room_num as int].holds_inside(
                    point.0 as int,
                    point.1 as int,
                ));
                point
            },
        }
    }
}

impl RoomGenerator {
    /// Spawns a creature of the given kind on the cell `(x, y)`, with
    /// health, strength and defense drawn from their ranges.
    pub fn generate_entity_at_point(
        rng: &mut ChaCha8Rng,
        x: usize,
        y: usize,
        entity_type: TileTextureData,
        output: &mut Vec<Lifeform>,
    )
        requires
            x <= u32::MAX,
            y <= u32::MAX,
        ensures
            final(output)@.len() == old(output)@.len() + 1,
            final(output)@.subrange(0, old(output)@.len() as int) == old(output)@,
            final(output)@.last().is_fresh(entity_type, x as int, y as int),
    {
        let health = rand_range(48, 13, rng);
        let strength = rand_range(5, 11, rng);
        let defense = rand_range(0, 6, rng);
        output.push(
            Lifeform {
                texture: TerrainData { tile_data: entity_type, texture: 0 },
                position: GridPosition { x: x as u32, y: y as u32 },
                health,
                strength,
                defense,
                level: 0,
                experience: 1,
            },
        );
        assert(output@.subrange(0, old(output)@.len() as int) =~= old(output)@);
    }

    /// Spawns a creature of the given kind on a cell drawn inside the room.
    pub fn generate_random_entity(
        rng: &mut ChaCha8Rng,
        room: Room,
        entity_type: TileTextureData,
        output: &mut Vec<Lifeform>,
    )
        requires
            room@.wf(),
            has_interior(room@),
        ensures
            final(output)@.len() == old(output)@.len() + 1,
            final(output)@.subrange(0, old(output)@.len() as int) == old(output)@,
            final(output)@.last().is_fresh(
                entity_type,
                final(output)@.last().position.x as int,
                final(output)@.last().position.y as int,
            ),
            inside_room(
                room@,
                final(output)@.last().position.x as int,
                final(output)@.last().position.y as int,
            ),
    {
        let (x, y) = room.get_random_point_in(rng);
        proof {
            let i = choose|i: int|
                0 <= i < room@.rects().len() && (#[trigger] room@.rects()[i]).holds_inside(
                    x as int,
                    y as int,
                );
            assert(room@.rects()[i].wf());
        }
        Self::generate_entity_at_point(rng, x, y, entity_type, output);
    }

    /// Draws how many enemies the rectangle gets, below the bound, and
    /// spawns each on a cell drawn inside its walls.
    pub fn spawn_enemies(&self, rng: &mut ChaCha8Rng, rect: Rect, output: &mut Vec<Lifeform>)
        requires
            self.max_enemies_per_room > 0,
            rect.wf(),
            rect.has_interior(),
        ensures
            old(output)@.len() <= final(output)@.len() < old(output)@.len()
                + self.max_enemies_per_room,
            final(output)@.subrange(0, old(output)@.len() as int) == old(output)@,
            enemies_inside(final(output)@, old(output)@.len() as int, rect),
    {
        let enemies_in_this_room = rand_range(0, self.max_enemies_per_room, rng);
        Self::spawn_enemy_group(rng, rect, enemies_in_this_room, output);
    }

    /// Spawns `count` enemies, each on a cell drawn inside the walls of the
    /// rectangle.
    pub fn spawn_enemy_group(
        rng: &mut ChaCha8Rng,
        rect: Rect,
        count: u32,
        output: &mut Vec<Lifeform>,
    )
        requires
            rect.wf(),
            rect.has_interior(),
        ensures
            final(output)@.len() == old(output)@.len() + count,
            final(output)@.subrange(0, old(output)@.len() as int) == old(output)@,
            enemies_inside(final(output)@, old(output)@.len() as int, rect),
    {
        let ghost start = output@.len() as int;
        assert(output@.subrange(0, start) =~= old(output)@);
        for spawned in 0..count
            invariant
                start == old(output)@.len(),
                rect.wf(),
                rect.has_interior(),
                output@.len() == start + spawned,
                output@.subrange(0, start) == old(output)@,
                enemies_inside(output@, start, rect),
        {
            let ghost before = output@;
            let room = Room::Basic { rect };
            assert(room@.rects()[0] == rect);
            Self::generate_random_entity(rng, room, TileTextureData::Enemy, output);
            proof {
                let added = output@.last();
                let i = choose|i: int|
                    0 <= i < room@.rects().len() && (#[trigger] room@.rects()[i]).holds_inside(
                        added.position.x as int,
                        added.position.y as int,
                    );
                assert(room@.rects()[i] == rect);
                assert forall|k: int| 0 <= k < before.len() implies output@[k] == before[k] by {
                    assert(output@.subrange(0, before.len() as int)[k] == before[k]);
                }
                assert(output@.subrange(0, start) =~= old(output)@);
                assert forall|k: int| start <= k < output@.len() implies (
                #[trigger] output@[k]).is_fresh(
                    TileTextureData::Enemy,
                    output@[k].position.x as int,
                    output@[k].position.y as int,
                ) && rect.holds_inside(
                    output@[k].position.x as int,
                    output@[k].position.y as int,
                ) by {
                    if k < before.len() {
                        assert(output@[k] == before[k]);
                    } else {
                        assert(output@[k] == added);
                    }
                }
            }
        }
    }
}

} // verus!
