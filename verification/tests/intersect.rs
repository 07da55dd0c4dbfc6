use samurai_warriors_derusted::worldgen::IntersectState;
use samurai_warriors_derusted::worldgen::Order;
use samurai_warriors_derusted::worldgen::Rect;
use samurai_warriors_derusted::worldgen::Room;
use samurai_warriors_derusted::worldgen::WorldgenError;

fn rect(x: u8, y: u8, width: u8, height: u8) -> Rect {
    Rect::new(x, y, width, height)
}

fn basic(x: u8, y: u8, width: u8, height: u8) -> Room {
    Room::Basic { rect: rect(x, y, width, height) }
}

fn two_part_room() -> Room {
    Room::Complex { rooms: vec![rect(0, 0, 5, 5), rect(3, 3, 5, 5)], aabb: rect(0, 0, 8, 8) }
}

#[test]
fn default_state_is_disjoint() {
    assert_eq!(IntersectState::default(), IntersectState::Disjoint);
}

#[test]
fn intervals_apart() {
    assert_eq!(Room::edge_intersects(1, 4, 6, 9), (IntersectState::Disjoint, Order::FirstGreater));
    assert_eq!(Room::edge_intersects(6, 9, 1, 4), (IntersectState::Disjoint, Order::FirstGreater));
    assert_eq!(Room::edge_intersects(1, 4, 5, 9), (IntersectState::Disjoint, Order::FirstGreater));
}

#[test]
fn intervals_that_overlap_in_part() {
    assert_eq!(Room::edge_intersects(1, 4, 4, 7), (IntersectState::Partial, Order::SecondGreater));
    assert_eq!(Room::edge_intersects(4, 7, 1, 4), (IntersectState::Partial, Order::SecondGreater));
    assert_eq!(Room::edge_intersects(1, 6, 3, 9), (IntersectState::Partial, Order::SecondGreater));
}

#[test]
fn an_interval_inside_another() {
    assert_eq!(Room::edge_intersects(2, 3, 1, 6), (IntersectState::Full, Order::FirstGreater));
    assert_eq!(Room::edge_intersects(1, 6, 2, 3), (IntersectState::Full, Order::SecondGreater));
    assert_eq!(Room::edge_intersects(1, 4, 1, 6), (IntersectState::Full, Order::FirstGreater));
    assert_eq!(Room::edge_intersects(1, 4, 0, 4), (IntersectState::Full, Order::FirstGreater));
    assert_eq!(Room::edge_intersects(0, 4, 1, 4), (IntersectState::Full, Order::SecondGreater));
}

#[test]
fn equal_intervals_are_tied() {
    assert_eq!(Room::edge_intersects(1, 4, 1, 4), (IntersectState::Full, Order::Same));
    assert_eq!(Room::edge_intersects(7, 7, 7, 7), (IntersectState::Full, Order::Same));
}

#[test]
fn rooms_apart_on_both_axes_do_not_intersect_in_either_order() {
    let pairs = [
        (rect(0, 0, 5, 5), rect(10, 10, 5, 5)),
        (rect(0, 0, 5, 5), rect(5, 5, 5, 5)),
        (rect(0, 0, 5, 5), rect(4, 4, 5, 5)),
        (rect(20, 3, 7, 6), rect(2, 30, 9, 7)),
    ];
    for (a, b) in pairs {
        assert_eq!(
            Room::Basic { rect: a }.intersects(Room::Basic { rect: b }).map(|found| found.0),
            Ok(IntersectState::Disjoint)
        );
        assert_eq!(
            Room::Basic { rect: b }.intersects(Room::Basic { rect: a }).map(|found| found.0),
            Ok(IntersectState::Disjoint)
        );
    }
}

#[test]
fn rooms_apart_on_one_axis_and_level_on_the_other_do_not_intersect() {
    let a = basic(0, 0, 5, 5);
    let b = basic(10, 0, 5, 5);
    assert_eq!(a.intersects(b.clone()), Ok((IntersectState::Disjoint, Order::Same)));
    assert_eq!(b.intersects(a), Ok((IntersectState::Disjoint, Order::Same)));
}

#[test]
fn a_partial_overlap_on_one_axis_is_a_partial_overlap() {
    let a = basic(0, 0, 5, 5);
    let b = basic(10, 2, 5, 5);
    assert_eq!(a.intersects(b.clone()), Ok((IntersectState::Partial, Order::Same)));
    assert_eq!(b.intersects(a), Ok((IntersectState::Partial, Order::Same)));
}

#[test]
fn rooms_that_share_a_corner_overlap_in_part() {
    assert_eq!(
        Room::basic_basic_intersection(rect(0, 0, 5, 5), rect(3, 3, 5, 5)),
        Ok((IntersectState::Partial, Order::Same))
    );
}

#[test]
fn a_room_inside_another() {
    let inner = rect(2, 2, 4, 4);
    let outer = rect(0, 0, 10, 10);
    assert_eq!(
        Room::basic_basic_intersection(inner, outer),
        Ok((IntersectState::Full, Order::FirstGreater))
    );
    assert_eq!(
        Room::basic_basic_intersection(outer, inner),
        Ok((IntersectState::Full, Order::SecondGreater))
    );
}

#[test]
fn equal_rooms_are_tied() {
    assert_eq!(
        Room::basic_basic_intersection(rect(3, 4, 6, 7), rect(3, 4, 6, 7)),
        Ok((IntersectState::Full, Order::Same))
    );
}

#[test]
fn a_tie_on_one_axis_defers_to_the_other() {
    assert_eq!(
        Room::basic_basic_intersection(rect(0, 2, 10, 4), rect(0, 0, 10, 10)),
        Ok((IntersectState::Full, Order::FirstGreater))
    );
    assert_eq!(
        Room::basic_basic_intersection(rect(0, 0, 10, 10), rect(2, 0, 4, 10)),
        Ok((IntersectState::Full, Order::SecondGreater))
    );
}

#[test]
fn rooms_that_cross_are_a_failure() {
    let wide = rect(0, 3, 10, 3);
    let tall = rect(3, 0, 3, 10);
    assert_eq!(Room::basic_basic_intersection(wide, tall), Err(WorldgenError::ConflictingOrder));
    assert_eq!(Room::basic_basic_intersection(tall, wide), Err(WorldgenError::ConflictingOrder));
    assert_eq!(
        Room::Basic { rect: wide }.intersects(Room::Basic { rect: tall }),
        Err(WorldgenError::ConflictingOrder)
    );
}

#[test]
fn a_rectangle_that_misses_the_bounding_box_misses_the_room() {
    let parts = vec![rect(0, 0, 5, 5), rect(3, 3, 5, 5)];
    assert_eq!(
        Room::basic_complex_intersection(rect(20, 20, 5, 5), &parts, rect(0, 0, 8, 8)),
        Ok((IntersectState::Disjoint, Order::Same))
    );
}

#[test]
fn a_rectangle_inside_one_part() {
    let parts = vec![rect(0, 0, 5, 5), rect(3, 3, 5, 5)];
    assert_eq!(
        Room::basic_complex_intersection(rect(1, 1, 3, 3), &parts, rect(0, 0, 8, 8)),
        Ok((IntersectState::Full, Order::FirstGreater))
    );
}

#[test]
fn a_part_that_holds_the_rectangle_ends_the_scan() {
    let parts = vec![rect(0, 0, 9, 9), rect(4, 0, 5, 5)];
    assert_eq!(
        Room::basic_complex_intersection(rect(2, 1, 4, 3), &parts, rect(0, 0, 9, 9)),
        Ok((IntersectState::Full, Order::FirstGreater))
    );
}

#[test]
fn a_part_that_holds_the_rectangle_ends_the_scan_after_a_partial_overlap() {
    let parts = vec![rect(4, 0, 5, 5), rect(0, 0, 9, 9)];
    assert_eq!(
        Room::basic_complex_intersection(rect(2, 1, 4, 3), &parts, rect(0, 0, 9, 9)),
        Ok((IntersectState::Full, Order::FirstGreater))
    );
}

#[test]
fn parts_inside_the_rectangle_are_found_and_the_scan_goes_on() {
    let parts = vec![rect(0, 0, 5, 5), rect(3, 3, 5, 5)];
    assert_eq!(
        Room::basic_complex_intersection(rect(0, 0, 8, 8), &parts, rect(0, 0, 8, 8)),
        Ok((IntersectState::Full, Order::SecondGreater))
    );
}

#[test]
fn a_partial_overlap_is_kept_over_a_part_inside_the_rectangle() {
    let inside_then_partial = vec![rect(1, 1, 3, 3), rect(6, 6, 5, 5)];
    assert_eq!(
        Room::basic_complex_intersection(rect(0, 0, 8, 8), &inside_then_partial, rect(1, 1, 10, 10)),
        Ok((IntersectState::Partial, Order::Same))
    );
    let partial_then_inside = vec![rect(6, 6, 5, 5), rect(1, 1, 3, 3)];
    assert_eq!(
        Room::basic_complex_intersection(rect(0, 0, 8, 8), &partial_then_inside, rect(1, 1, 10, 10)),
        Ok((IntersectState::Partial, Order::Same))
    );
}

#[test]
fn a_part_equal_to_the_rectangle_is_found_and_the_scan_goes_on() {
    let parts = vec![rect(2, 2, 5, 5), rect(20, 20, 4, 4)];
    assert_eq!(
        Room::basic_complex_intersection(rect(2, 2, 5, 5), &parts, rect(2, 2, 22, 22)),
        Ok((IntersectState::Full, Order::Same))
    );
    let with_partial = vec![rect(2, 2, 5, 5), rect(5, 5, 5, 5)];
    assert_eq!(
        Room::basic_complex_intersection(rect(2, 2, 5, 5), &with_partial, rect(2, 2, 8, 8)),
        Ok((IntersectState::Partial, Order::Same))
    );
}

#[test]
fn a_conflict_inside_a_merged_room_is_a_failure() {
    let parts = vec![rect(3, 0, 3, 10), rect(0, 0, 3, 3)];
    assert_eq!(
        Room::basic_complex_intersection(rect(0, 3, 10, 3), &parts, rect(0, 0, 6, 10)),
        Err(WorldgenError::ConflictingOrder)
    );
}

#[test]
fn single_and_merged_rooms_compare_inversely_in_either_order() {
    let single = basic(1, 1, 3, 3);
    assert_eq!(
        single.intersects(two_part_room()),
        Ok((IntersectState::Full, Order::FirstGreater))
    );
    assert_eq!(
        two_part_room().intersects(single),
        Ok((IntersectState::Full, Order::SecondGreater))
    );
    let around = basic(0, 0, 8, 8);
    assert_eq!(
        around.intersects(two_part_room()),
        Ok((IntersectState::Full, Order::SecondGreater))
    );
    assert_eq!(
        two_part_room().intersects(around),
        Ok((IntersectState::Full, Order::FirstGreater))
    );
    let far = basic(20, 20, 5, 5);
    assert_eq!(two_part_room().intersects(far.clone()), Ok((IntersectState::Disjoint, Order::Same)));
    assert_eq!(far.intersects(two_part_room()), Ok((IntersectState::Disjoint, Order::Same)));
    let corner = basic(6, 6, 5, 5);
    assert_eq!(two_part_room().intersects(corner.clone()), Ok((IntersectState::Partial, Order::Same)));
    assert_eq!(corner.intersects(two_part_room()), Ok((IntersectState::Partial, Order::Same)));
}

#[test]
fn orders_turn_round() {
    assert_eq!(Room::turn_order(Order::FirstGreater), Order::SecondGreater);
    assert_eq!(Room::turn_order(Order::SecondGreater), Order::FirstGreater);
    assert_eq!(Room::turn_order(Order::Same), Order::Same);
}

#[test]
fn merged_rooms_with_bounding_boxes_apart() {
    let other = Room::Complex {
        rooms: vec![rect(20, 20, 5, 5), rect(23, 23, 5, 5)],
        aabb: rect(20, 20, 8, 8),
    };
    assert_eq!(two_part_room().intersects(other), Ok((IntersectState::Disjoint, Order::Same)));
}

#[test]
fn merged_rooms_that_touch_overlap_in_part() {
    let other = Room::Complex {
        rooms: vec![rect(6, 6, 5, 5), rect(9, 9, 5, 5)],
        aabb: rect(6, 6, 8, 8),
    };
    assert_eq!(two_part_room().intersects(other), Ok((IntersectState::Partial, Order::Same)));
}

#[test]
fn merged_rooms_are_never_more_than_a_partial_overlap() {
    let outer = Room::Complex {
        rooms: vec![rect(0, 0, 20, 20), rect(18, 18, 6, 6)],
        aabb: rect(0, 0, 24, 24),
    };
    let inner = Room::Complex {
        rooms: vec![rect(2, 2, 4, 4), rect(5, 5, 4, 4)],
        aabb: rect(2, 2, 7, 7),
    };
    assert_eq!(
        outer.intersects(inner),
        Ok((IntersectState::Partial, Order::SecondGreater))
    );
}

#[test]
fn merged_rooms_whose_parts_miss_each_other_do_not_intersect() {
    let spread = Room::Complex {
        rooms: vec![rect(0, 0, 4, 4), rect(10, 10, 4, 4)],
        aabb: rect(0, 0, 14, 14),
    };
    let middle = Room::Complex {
        rooms: vec![rect(5, 5, 3, 3), rect(5, 7, 3, 3)],
        aabb: rect(5, 5, 3, 5),
    };
    assert_eq!(
        Room::complex_complex_intersection(
            &vec![rect(0, 0, 4, 4), rect(10, 10, 4, 4)],
            rect(0, 0, 14, 14),
            &vec![rect(5, 5, 3, 3), rect(5, 7, 3, 3)],
            rect(5, 5, 3, 5),
        ),
        Ok((IntersectState::Disjoint, Order::SecondGreater))
    );
    assert_eq!(
        spread.intersects(middle),
        Ok((IntersectState::Disjoint, Order::SecondGreater))
    );
}

#[test]
fn the_failure_describes_itself() {
    assert_eq!(
        WorldgenError::ConflictingOrder.message(),
        "rooms contain each other on different axes"
    );
}
