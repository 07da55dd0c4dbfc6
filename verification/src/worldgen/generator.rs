use crate::utils::rand_range;
use crate::worldgen::error::WorldgenError;
use crate::worldgen::geometry::Rect;
use crate::worldgen::geometry::Room;
use crate::worldgen::geometry::RoomView;
use crate::worldgen::placement::placed_all;
use crate::worldgen::placement::room_views;
use bevy_prng::ChaCha8Rng;
use vstd::prelude::*;

verus! {

/// The working state of one generation run: the configuration and the rooms
/// accepted so far.
pub struct RoomGenerator {
    pub room_count: u8,
    pub map_width: usize,
    pub map_height: usize,
    pub rooms: Vec<Room>,
    pub mean_room_width: u32,
    pub mean_room_height: u32,
    pub width_variance: u32,
    pub height_variance: u32,
    pub max_enemies_per_room: u32,
}

impl RoomGenerator {
    /// What is wrong with the configuration, if anything: the first of the
    /// conditions below that holds.
    pub open spec fn config_failure(&self) -> Option<WorldgenError> {
        if self.room_count == 0 {
            Some(WorldgenError::NoRooms)
        } else if self.map_width > u8::MAX || self.map_height > u8::MAX {
            Some(WorldgenError::MapTooLarge)
        } else if self.mean_room_width < 3 || self.mean_room_height < 3 {
            Some(WorldgenError::RoomTooSmall)
        } else if self.width_variance == 0 || self.height_variance == 0 {
            Some(WorldgenError::NoVariance)
        } else if self.mean_room_width + self.width_variance > self.map_width
            || self.mean_room_height + self.height_variance > self.map_height {
            Some(WorldgenError::RoomTooLarge)
        } else if self.max_enemies_per_room == 0 {
            Some(WorldgenError::NoEnemyBound)
        } else {
            None
        }
    }

    /// The rectangle can be proposed under this configuration: its extent
    /// lies in the ranges drawn from and it ends before the last column and
    /// the last row of the map.
    pub open spec fn can_propose(&self, rect: Rect) -> bool {
        &&& rect.wf()
        &&& rect.has_interior()
        &&& rect.right() < self.map_width
        &&& rect.top() < self.map_height
        &&& self.mean_room_width <= rect.width < self.mean_room_width + self.width_variance
        &&& self.mean_room_height <= rect.height < self.mean_room_height + self.height_variance
    }

    /// The accepted rooms came about from `before` by placing the rectangles
    /// `drawn`, all of which could be proposed. On success these are as many
    /// as the configuration asks for; on failure the last of them met the
    /// failure and the others are placed.
    pub open spec fn placed_from(
        &self,
        before: Seq<RoomView>,
        drawn: Seq<Rect>,
        failure: Option<WorldgenError>,
    ) -> bool {
        &&& forall|i: int| 0 <= i < drawn.len() ==> self.can_propose(#[trigger] drawn[i])
        &&& match failure {
            None => drawn.len() == self.room_count && placed_all(before, drawn) == Ok::<
                Seq<RoomView>,
                WorldgenError,
            >(room_views(self.rooms@)),
            Some(e) => 1 <= drawn.len() <= self.room_count && placed_all(
                before,
                drawn.drop_last(),
            ) == Ok::<Seq<RoomView>, WorldgenError>(room_views(self.rooms@)) && placed_all(
                before,
                drawn,
            ) == Err::<Seq<RoomView>, WorldgenError>(e),
        }
    }

    /// The generator holds the configuration of `other`.
    pub open spec fn same_config(&self, other: &RoomGenerator) -> bool {
        &&& self.room_count == other.room_count
        &&& self.map_width == other.map_width
        &&& self.map_height == other.map_height
        &&& self.mean_room_width == other.mean_room_width
        &&& self.mean_room_height == other.mean_room_height
        &&& self.width_variance == other.width_variance
        &&& self.height_variance == other.height_variance
        &&& self.max_enemies_per_room == other.max_enemies_per_room
    }

    /// A generator with the given configuration and no room accepted yet.
    pub fn new(
        room_count: u8,
        map_width: usize,
        map_height: usize,
        mean_room_width: u32,
        mean_room_height: u32,
        width_variance: u32,
        height_variance: u32,
        max_enemies_per_room: u32,
    ) -> (generator: RoomGenerator)
        ensures
            generator.room_count == room_count,
            generator.map_width == map_width,
            generator.map_height == map_height,
            generator.mean_room_width == mean_room_width,
            generator.mean_room_height == mean_room_height,
            generator.width_variance == width_variance,
            generator.height_variance == height_variance,
            generator.max_enemies_per_room == max_enemies_per_room,
            generator.rooms@.len() == 0,
            generator.rooms_ok(),
    {
        RoomGenerator {
            room_count,
            map_width,
            map_height,
            rooms: Vec::new(),
            mean_room_width,
            mean_room_height,
            width_variance,
            height_variance,
            max_enemies_per_room,
        }
    }

    /// Checks the configuration before anything is generated.
    pub fn validate(&self) -> (checked: Result<(), WorldgenError>)
        ensures
            match self.config_failure() {
                Some(failure) => checked == Err::<(), WorldgenError>(failure),
                None => checked is Ok,
            },
    {
        if self.room_count == 0 {
            Err(WorldgenError::NoRooms)
        } else if self.map_width > 255 || self.map_height > 255 {
            Err(WorldgenError::MapTooLarge)
        } else if self.mean_room_width < 3 || self.mean_room_height < 3 {
            Err(WorldgenError::RoomTooSmall)
        } else if self.width_variance == 0 || self.height_variance == 0 {
            Err(WorldgenError::NoVariance)
        } else if self.mean_room_width > 255 || self.width_variance > 255
            || self.mean_room_width + self.width_variance > self.map_width as u32
            || self.mean_room_height > 255 || self.height_variance > 255
            || self.mean_room_height + self.height_variance > self.map_height as u32 {
            Err(WorldgenError::RoomTooLarge)
        } else if self.max_enemies_per_room == 0 {
            Err(WorldgenError::NoEnemyBound)
        } else {
            Ok(())
        }
    }

    /// Draws the rectangle of a new room: its extent from the mean and the
    /// variance, then a corner such that it lies on the map.
    pub fn propose_room(&self, rng: &mut ChaCha8Rng) -> (rect: Rect)
        requires
            self.config_failure() is None,
        ensures
            self.can_propose(rect),
    {
        let calc_width = rand_range(self.mean_room_width, self.width_variance, rng);
        let calc_height = rand_range(self.mean_room_height, self.height_variance, rng);
        let calc_x = rand_range(0, (self.map_width as u32) - calc_width, rng);
        let calc_y = rand_range(0, (self.map_height as u32) - calc_height, rng);
        Rect {
            x: calc_x as u8,
            y: calc_y as u8,
            width: calc_width as u8,
            height: calc_height as u8,
        }
    }

    /// Proposes and places as many rooms as the configuration asks for.
    ///
    /// Fails where a proposed room meets a room that it contains on one axis
    /// and is contained in on the other; the rooms placed before stay.
    pub fn place_rooms(&mut self, rng: &mut ChaCha8Rng) -> (done: Result<(), WorldgenError>)
        requires
            old(self).config_failure() is None,
            old(self).rooms_ok(),
        ensures
            final(self).same_config(old(self)),
            final(self).rooms_ok(),
            done is Ok ==> 1 <= final(self).rooms.len() <= old(self).rooms.len() + old(
                self,
            ).room_count,
            done matches Err(e) ==> e == WorldgenError::ConflictingOrder,
            old(self).rooms.len() == 0 && old(self).room_count == 1 ==> done is Ok,
            match done {
                Ok(_) => exists|drawn: Seq<Rect>| #[trigger]
                    final(self).placed_from(room_views(old(self).rooms@), drawn, None),
                Err(e) => exists|drawn: Seq<Rect>| #[trigger]
                    final(self).placed_from(room_views(old(self).rooms@), drawn, Some(e)),
            },
    {
        let mut placed: u8 = 0;
        let ghost before = room_views(self.rooms@);
        let ghost mut drawn: Seq<Rect> = Seq::empty();
        while placed < self.room_count
            invariant
                self.same_config(old(self)),
                before == room_views(old(self).rooms@),
                placed == 0 ==> self.rooms.len() == old(self).rooms.len(),
                self.config_failure() is None,
                self.rooms_ok(),
                placed <= self.room_count,
                self.rooms.len() <= old(self).rooms.len() + placed,
                placed > 0 ==> self.rooms.len() >= 1,
                drawn.len() == placed,
                forall|i: int| 0 <= i < drawn.len() ==> self.can_propose(#[trigger] drawn[i]),
                placed_all(before, drawn) == Ok::<Seq<RoomView>, WorldgenError>(
                    room_views(self.rooms@),
                ),
            decreases self.room_count - placed,
        {
            let rect = self.propose_room(rng);
            let new_room = Room::Basic { rect };
            proof {
                let view = new_room@;
                assert(view.rects()[0] == rect);
                assert(view.wf());
                assert(view.fits_map(self.map_width as int, self.map_height as int));
            }
            let ghost earlier = drawn;
            proof {
                drawn = drawn.push(rect);
                assert(drawn.drop_last() =~= earlier);
                assert(drawn.last() == rect);
            }
            match self.place_room(new_room) {
                Ok(_) => {},
                Err(e) => {
                    assert(self.placed_from(before, drawn, Some(e)));
                    return Err(e);
                },
            }
            placed += 1;
        }
        assert(self.placed_from(before, drawn, None));
        Ok(())
    }
}

} // verus!
