use samurai_warriors_derusted::worldgen::Rect;
use samurai_warriors_derusted::worldgen::Room;
use samurai_warriors_derusted::worldgen::RoomGenerator;
use samurai_warriors_derusted::worldgen::WorldgenError;

fn rect(x: u8, y: u8, width: u8, height: u8) -> Rect {
    Rect::new(x, y, width, height)
}

fn basic(x: u8, y: u8, width: u8, height: u8) -> Room {
    Room::Basic { rect: rect(x, y, width, height) }
}

fn generator() -> RoomGenerator {
    RoomGenerator::new(4, 20, 20, 5, 5, 2, 2, 2)
}

#[test]
fn a_new_generator_has_no_rooms() {
    let g = RoomGenerator::new(50, 100, 40, 7, 6, 3, 2, 2);
    assert!(g.rooms.is_empty());
    assert_eq!((g.room_count, g.map_width, g.map_height), (50, 100, 40));
    assert_eq!((g.mean_room_width, g.mean_room_height), (7, 6));
    assert_eq!((g.width_variance, g.height_variance, g.max_enemies_per_room), (3, 2, 2));
}

#[test]
fn the_first_room_is_always_accepted() {
    let mut g = generator();
    assert_eq!(g.place_room(basic(2, 2, 6, 6)), Ok(true));
    assert_eq!(g.rooms, vec![basic(2, 2, 6, 6)]);
}

#[test]
fn rooms_apart_are_both_kept() {
    let mut g = generator();
    assert_eq!(g.place_room(basic(0, 0, 5, 5)), Ok(true));
    assert_eq!(g.place_room(basic(10, 10, 5, 5)), Ok(true));
    assert_eq!(g.rooms, vec![basic(0, 0, 5, 5), basic(10, 10, 5, 5)]);
}

#[test]
fn two_overlapping_rectangles_merge_into_one_room() {
    let mut g = generator();
    assert_eq!(g.place_room(basic(0, 0, 5, 5)), Ok(true));
    assert_eq!(g.place_room(basic(3, 3, 5, 5)), Ok(true));
    assert_eq!(g.rooms.len(), 1);
    assert_eq!(
        g.rooms[0],
        Room::Complex { rooms: vec![rect(0, 0, 5, 5), rect(3, 3, 5, 5)], aabb: rect(0, 0, 8, 8) }
    );
}

#[test]
fn a_candidate_inside_a_room_is_rejected() {
    let mut g = generator();
    assert_eq!(g.place_room(basic(0, 0, 10, 10)), Ok(true));
    assert_eq!(g.place_room(basic(2, 2, 4, 4)), Ok(false));
    assert_eq!(g.rooms, vec![basic(0, 0, 10, 10)]);
}

#[test]
fn a_candidate_equal_to_a_room_is_rejected() {
    let mut g = generator();
    assert_eq!(g.place_room(basic(3, 3, 6, 5)), Ok(true));
    assert_eq!(g.place_room(basic(3, 3, 6, 5)), Ok(false));
    assert_eq!(g.rooms, vec![basic(3, 3, 6, 5)]);
}

#[test]
fn a_candidate_around_a_room_takes_its_place() {
    let mut g = generator();
    assert_eq!(g.place_room(basic(2, 2, 4, 4)), Ok(true));
    assert_eq!(g.place_room(basic(0, 0, 10, 10)), Ok(true));
    assert_eq!(g.rooms, vec![basic(0, 0, 10, 10)]);
}

#[test]
fn rooms_that_stay_keep_their_order_before_the_candidate() {
    let mut g = generator();
    assert_eq!(g.place_room(basic(0, 0, 5, 5)), Ok(true));
    assert_eq!(g.place_room(basic(10, 10, 5, 5)), Ok(true));
    assert_eq!(g.place_room(basic(0, 6, 5, 3)), Ok(true));
    assert_eq!(g.rooms, vec![basic(0, 0, 5, 5), basic(10, 10, 5, 5), basic(0, 6, 5, 3)]);
    assert_eq!(g.place_room(basic(12, 12, 5, 5)), Ok(true));
    assert_eq!(
        g.rooms,
        vec![
            basic(0, 0, 5, 5),
            basic(0, 6, 5, 3),
            Room::Complex {
                rooms: vec![rect(10, 10, 5, 5), rect(12, 12, 5, 5)],
                aabb: rect(10, 10, 7, 7),
            },
        ]
    );
}

#[test]
fn a_candidate_merges_with_every_room_it_overlaps() {
    let mut g = generator();
    assert_eq!(g.place_room(basic(0, 0, 5, 5)), Ok(true));
    assert_eq!(g.place_room(basic(8, 8, 5, 5)), Ok(true));
    assert_eq!(g.rooms.len(), 2);
    assert_eq!(g.place_room(basic(3, 3, 7, 7)), Ok(true));
    assert_eq!(
        g.rooms,
        vec![Room::Complex {
            rooms: vec![rect(0, 0, 5, 5), rect(3, 3, 7, 7), rect(8, 8, 5, 5)],
            aabb: rect(0, 0, 13, 13),
        }]
    );
}

#[test]
fn a_rejection_still_drops_the_rooms_marked_before_it() {
    let mut g = generator();
    assert_eq!(g.place_room(basic(4, 4, 3, 3)), Ok(true));
    assert_eq!(g.place_room(basic(0, 12, 12, 8)), Ok(true));
    assert_eq!(g.rooms, vec![basic(4, 4, 3, 3), basic(0, 12, 12, 8)]);
    let mut h = RoomGenerator::new(4, 40, 40, 5, 5, 2, 2, 2);
    assert_eq!(h.place_room(basic(4, 4, 3, 3)), Ok(true));
    assert_eq!(h.place_room(basic(20, 20, 3, 3)), Ok(true));
    assert_eq!(h.place_room(basic(30, 30, 5, 5)), Ok(true));
    h.rooms.insert(1, basic(0, 0, 12, 12));
    assert_eq!(h.place_room(basic(2, 2, 8, 8)), Ok(false));
    assert_eq!(h.rooms, vec![basic(0, 0, 12, 12), basic(20, 20, 3, 3), basic(30, 30, 5, 5)]);
}

#[test]
fn crossing_rooms_fail_and_change_nothing() {
    let mut g = generator();
    assert_eq!(g.place_room(basic(0, 0, 3, 3)), Ok(true));
    assert_eq!(g.place_room(basic(5, 8, 10, 3)), Ok(true));
    let before = g.rooms.clone();
    assert_eq!(g.place_room(basic(8, 5, 3, 10)), Err(WorldgenError::ConflictingOrder));
    assert_eq!(g.rooms, before);
}

#[test]
fn a_candidate_inside_a_merged_room_is_rejected() {
    let mut g = generator();
    assert_eq!(g.place_room(basic(0, 0, 10, 10)), Ok(true));
    assert_eq!(g.place_room(basic(8, 0, 10, 10)), Ok(true));
    let merged = Room::Complex {
        rooms: vec![rect(0, 0, 10, 10), rect(8, 0, 10, 10)],
        aabb: rect(0, 0, 18, 10),
    };
    assert_eq!(g.rooms, vec![merged.clone()]);
    assert_eq!(g.place_room(basic(2, 2, 4, 4)), Ok(false));
    assert_eq!(g.rooms, vec![merged.clone()]);
    assert_eq!(g.place_room(basic(10, 3, 5, 5)), Ok(false));
    assert_eq!(g.rooms, vec![merged]);
}

#[test]
fn a_candidate_equal_to_a_part_of_a_merged_room_is_rejected() {
    let mut g = RoomGenerator::new(4, 40, 40, 5, 5, 2, 2, 2);
    g.rooms.push(Room::Complex {
        rooms: vec![rect(2, 2, 5, 5), rect(20, 20, 4, 4)],
        aabb: rect(2, 2, 22, 22),
    });
    let before = g.rooms.clone();
    assert_eq!(g.place_room(basic(2, 2, 5, 5)), Ok(false));
    assert_eq!(g.rooms, before);
}

#[test]
fn a_candidate_around_a_merged_room_takes_its_place() {
    let mut g = generator();
    assert_eq!(g.place_room(basic(4, 4, 4, 4)), Ok(true));
    assert_eq!(g.place_room(basic(6, 6, 4, 4)), Ok(true));
    assert_eq!(
        g.rooms,
        vec![Room::Complex { rooms: vec![rect(4, 4, 4, 4), rect(6, 6, 4, 4)], aabb: rect(4, 4, 6, 6) }]
    );
    assert_eq!(g.place_room(basic(0, 0, 15, 15)), Ok(true));
    assert_eq!(g.rooms, vec![basic(0, 0, 15, 15)]);
}
