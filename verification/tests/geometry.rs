use samurai_warriors_derusted::worldgen::Rect;
use samurai_warriors_derusted::worldgen::Room;

fn rect(x: u8, y: u8, width: u8, height: u8) -> Rect {
    Rect::new(x, y, width, height)
}

#[test]
fn new_keeps_its_arguments() {
    let r = Rect::new(1, 2, 3, 4);
    assert_eq!((r.x, r.y, r.width, r.height), (1, 2, 3, 4));
}

#[test]
fn validity_of_rectangles() {
    assert!(rect(0, 0, 1, 1).is_valid());
    assert!(rect(250, 250, 5, 5).is_valid());
    assert!(!rect(251, 0, 5, 5).is_valid());
    assert!(!rect(0, 251, 5, 5).is_valid());
    assert!(!rect(0, 0, 0, 5).is_valid());
    assert!(!rect(0, 0, 5, 0).is_valid());
}

#[test]
fn aabb_of_two_rectangles() {
    assert_eq!(Room::calculate_aabb(rect(0, 0, 5, 5), rect(3, 3, 5, 5)), rect(0, 0, 8, 8));
    assert_eq!(Room::calculate_aabb(rect(3, 3, 5, 5), rect(0, 0, 5, 5)), rect(0, 0, 8, 8));
    assert_eq!(Room::calculate_aabb(rect(10, 2, 3, 20), rect(4, 6, 3, 3)), rect(4, 2, 9, 20));
    assert_eq!(Room::calculate_aabb(rect(1, 1, 9, 9), rect(2, 2, 3, 3)), rect(1, 1, 9, 9));
}

#[test]
fn two_single_rooms_combine_in_order() {
    let merged = Room::combine_rooms(
        Room::Basic { rect: rect(0, 0, 5, 5) },
        Room::Basic { rect: rect(3, 3, 5, 5) },
    );
    assert_eq!(
        merged,
        Room::Complex { rooms: vec![rect(0, 0, 5, 5), rect(3, 3, 5, 5)], aabb: rect(0, 0, 8, 8) }
    );
}

#[test]
fn a_single_room_joins_a_merged_room_at_the_end() {
    let merged = Room::Complex {
        rooms: vec![rect(0, 0, 5, 5), rect(3, 3, 5, 5)],
        aabb: rect(0, 0, 8, 8),
    };
    let single = Room::Basic { rect: rect(6, 1, 4, 3) };
    let expected = Room::Complex {
        rooms: vec![rect(0, 0, 5, 5), rect(3, 3, 5, 5), rect(6, 1, 4, 3)],
        aabb: rect(0, 0, 10, 8),
    };
    assert_eq!(Room::combine_rooms(single.clone(), merged.clone()), expected);
    assert_eq!(Room::combine_rooms(merged, single), expected);
}

#[test]
fn two_merged_rooms_concatenate() {
    let first = Room::Complex {
        rooms: vec![rect(0, 0, 5, 5), rect(3, 3, 5, 5)],
        aabb: rect(0, 0, 8, 8),
    };
    let second = Room::Complex {
        rooms: vec![rect(6, 6, 5, 5), rect(9, 2, 4, 6)],
        aabb: rect(6, 2, 7, 9),
    };
    assert_eq!(
        Room::combine_rooms(first, second),
        Room::Complex {
            rooms: vec![rect(0, 0, 5, 5), rect(3, 3, 5, 5), rect(6, 6, 5, 5), rect(9, 2, 4, 6)],
            aabb: rect(0, 0, 13, 11),
        }
    );
}

#[test]
fn aabb_stays_exact_over_a_chain_of_merges() {
    let parts = [
        rect(10, 10, 4, 4),
        rect(12, 8, 5, 4),
        rect(3, 11, 8, 3),
        rect(14, 14, 6, 9),
        rect(9, 2, 3, 7),
    ];
    let mut room = Room::Basic { rect: parts[0] };
    for part in &parts[1..] {
        room = Room::combine_rooms(room, Room::Basic { rect: *part });
        match &room {
            Room::Complex { rooms, aabb } => {
                let left = rooms.iter().map(|r| r.x).min().unwrap();
                let bottom = rooms.iter().map(|r| r.y).min().unwrap();
                let right = rooms.iter().map(|r| r.x + r.width).max().unwrap();
                let top = rooms.iter().map(|r| r.y + r.height).max().unwrap();
                assert_eq!(*aabb, rect(left, bottom, right - left, top - bottom));
            }
            Room::Basic { .. } => panic!("a merge gives a merged room"),
        }
    }
    assert_eq!(
        room,
        Room::Complex {
            rooms: vec![parts[0], parts[1], parts[2], parts[3], parts[4]],
            aabb: rect(3, 2, 17, 21),
        }
    );
}

#[test]
fn a_clone_equals_its_original() {
    let single = Room::Basic { rect: rect(1, 2, 3, 4) };
    assert_eq!(single.clone(), single);
    let merged = Room::Complex {
        rooms: vec![rect(0, 0, 5, 5), rect(3, 3, 5, 5)],
        aabb: rect(0, 0, 8, 8),
    };
    assert_eq!(merged.clone(), merged);
}

#[test]
fn soundness_of_rectangles_on_a_map() {
    assert!(rect(2, 2, 6, 6).is_sound(20, 20));
    assert!(rect(14, 14, 6, 6).is_sound(20, 20));
    assert!(!rect(15, 14, 6, 6).is_sound(20, 20));
    assert!(!rect(14, 15, 6, 6).is_sound(20, 20));
    assert!(!rect(2, 2, 2, 6).is_sound(20, 20));
    assert!(!rect(2, 2, 6, 2).is_sound(20, 20));
    assert!(!rect(250, 2, 6, 6).is_sound(300, 300));
    assert!(rect(249, 2, 6, 6).is_sound(300, 300));
}

#[test]
fn soundness_of_rooms_on_a_map() {
    assert!(Room::Basic { rect: rect(2, 2, 6, 6) }.is_sound(20, 20));
    assert!(!Room::Basic { rect: rect(2, 2, 6, 6) }.is_sound(7, 20));
    let merged = |aabb: Rect| Room::Complex {
        rooms: vec![rect(3, 3, 5, 5), rect(0, 0, 5, 5), rect(6, 1, 4, 3)],
        aabb,
    };
    assert!(merged(rect(0, 0, 10, 8)).is_sound(20, 20));
    assert!(!merged(rect(0, 0, 10, 8)).is_sound(9, 20));
    assert!(!merged(rect(0, 0, 11, 8)).is_sound(20, 20));
    assert!(!merged(rect(0, 0, 10, 9)).is_sound(20, 20));
    assert!(!merged(rect(1, 0, 9, 8)).is_sound(20, 20));
    assert!(!merged(rect(0, 1, 10, 7)).is_sound(20, 20));
    assert!(!Room::Complex { rooms: vec![], aabb: rect(0, 0, 5, 5) }.is_sound(20, 20));
    assert!(!Room::Complex { rooms: vec![rect(0, 0, 5, 2)], aabb: rect(0, 0, 5, 2) }
        .is_sound(20, 20));
    assert!(!Room::Complex {
        rooms: vec![rect(0, 0, 5, 5), rect(3, 3, 2, 5)],
        aabb: rect(0, 0, 5, 8),
    }
    .is_sound(20, 20));
    assert!(Room::Complex { rooms: vec![rect(4, 4, 5, 5)], aabb: rect(4, 4, 5, 5) }
        .is_sound(20, 20));
}

#[test]
fn every_merge_of_sound_rooms_is_sound() {
    let parts = [rect(10, 10, 4, 4), rect(12, 8, 5, 4), rect(3, 11, 8, 3), rect(14, 14, 6, 9)];
    let mut room = Room::Basic { rect: parts[0] };
    for part in &parts[1..] {
        room = Room::combine_rooms(Room::Basic { rect: *part }, room);
        assert!(room.is_sound(30, 30));
    }
}
