use crate::worldgen::error::WorldgenError;
use crate::worldgen::generator::RoomGenerator;
use crate::worldgen::geometry::lemma_merge_keeps_bounding_box;
use crate::worldgen::geometry::Rect;
use crate::worldgen::geometry::Room;
use crate::worldgen::geometry::RoomView;
use crate::worldgen::intersect::lemma_relation_failure;
use crate::worldgen::intersect::lemma_scan_ends_where_a_part_holds;
use crate::worldgen::intersect::rect_relation;
use crate::worldgen::intersect::relation;
use crate::worldgen::intersect::IntersectState;
use crate::worldgen::intersect::Order;
use vstd::prelude::*;

verus! {

/// The mathematical values of a list of rooms.
pub open spec fn room_views(rooms: Seq<Room>) -> Seq<RoomView> {
    Seq::new(rooms.len(), |i: int| rooms[i]@)
}

/// The room is well formed, and each of its rectangles has an interior and
/// lies on the map.
pub open spec fn room_ok(room: RoomView, map_width: int, map_height: int) -> bool {
    room.wf() && room.fits_map(map_width, map_height)
}

/// Every room of the list is well formed and lies on the map.
pub open spec fn rooms_ok(rooms: Seq<RoomView>, map_width: int, map_height: int) -> bool {
    forall|i: int| 0 <= i < rooms.len() ==> room_ok(#[trigger] rooms[i], map_width, map_height)
}

/// What becomes of the accepted rooms and of a candidate.
pub struct Placement {
    /// The accepted rooms that stay, in their order.
    pub kept: Seq<RoomView>,
    /// The candidate, with every room merged into it that it overlapped.
    pub candidate: RoomView,
    /// Whether the candidate joins the accepted rooms.
    pub accepted: bool,
}

impl Placement {
    /// The same outcome with `room` kept in front of the others.
    pub open spec fn keeping(self, room: RoomView) -> Placement {
        Placement { kept: seq![room] + self.kept, ..self }
    }

    /// The accepted rooms afterwards: those kept, then the candidate where
    /// it was accepted.
    pub open spec fn rooms(self) -> Seq<RoomView> {
        if self.accepted {
            self.kept.push(self.candidate)
        } else {
            self.kept
        }
    }
}

/// Holds the candidate against the accepted rooms `rooms[from..]` in order.
/// A room that does not touch it stays. A room that overlaps it in part is
/// merged into it and leaves the list. A room that lies inside it leaves the
/// list. A room that it lies inside, or equals, ends the scan: the candidate
/// is rejected and the rooms not yet looked at stay.
pub open spec fn place_scan(rooms: Seq<RoomView>, from: int, candidate: RoomView) -> Result<
    Placement,
    WorldgenError,
>
    decreases rooms.len() - from,
{
    if from < 0 || from >= rooms.len() {
        Ok(Placement { kept: Seq::empty(), candidate, accepted: true })
    } else {
        match relation(rooms[from], candidate) {
            Err(e) => Err(e),
            Ok((IntersectState::Disjoint, _)) => match place_scan(rooms, from + 1, candidate) {
                Ok(rest) => Ok(rest.keeping(rooms[from])),
                Err(e) => Err(e),
            },
            Ok((IntersectState::Partial, _)) => place_scan(
                rooms,
                from + 1,
                rooms[from].merged_with(candidate),
            ),
            Ok((IntersectState::Full, Order::FirstGreater)) => place_scan(
                rooms,
                from + 1,
                candidate,
            ),
            Ok((IntersectState::Full, _)) => Ok(
                Placement {
                    kept: rooms.subrange(from, rooms.len() as int),
                    candidate,
                    accepted: false,
                },
            ),
        }
    }
}

/// The outcome of placing `candidate` among `rooms`.
pub open spec fn placed(rooms: Seq<RoomView>, candidate: RoomView) -> Result<
    Placement,
    WorldgenError,
> {
    place_scan(rooms, 0, candidate)
}

/// The accepted rooms after the rectangles `drawn` were placed among `rooms`
/// one after the other, each as a room of its own.
pub open spec fn placed_all(rooms: Seq<RoomView>, drawn: Seq<Rect>) -> Result<
    Seq<RoomView>,
    WorldgenError,
>
    decreases drawn.len(),
{
    if drawn.len() == 0 {
        Ok(rooms)
    } else {
        match placed_all(rooms, drawn.drop_last()) {
            Ok(before) => match placed(before, RoomView::Basic { rect: drawn.last() }) {
                Ok(placement) => Ok(placement.rooms()),
                Err(e) => Err(e),
            },
            Err(e) => Err(e),
        }
    }
}

/// The first `count` rooms without those that are marked.
pub open spec fn unmarked(rooms: Seq<RoomView>, marks: Seq<bool>, count: int) -> Seq<RoomView>
    decreases count,
{
    if count <= 0 {
        Seq::empty()
    } else if marks[count - 1] {
        unmarked(rooms, marks, count - 1)
    } else {
        unmarked(rooms, marks, count - 1).push(rooms[count - 1])
    }
}

/// The outcome `rest` with the rooms `front` kept before its own.
pub open spec fn with_front(front: Seq<RoomView>, rest: Result<Placement, WorldgenError>) -> Result<
    Placement,
    WorldgenError,
> {
    match rest {
        Ok(placement) => Ok(Placement { kept: front + placement.kept, ..placement }),
        Err(e) => Err(e),
    }
}

/// A merged room rejects a candidate that one of its parts holds: the
/// candidate is not accepted and the list stays as it is.
pub proof fn lemma_merged_room_rejects_what_it_holds(
    rooms: Seq<RoomView>,
    candidate: Rect,
    part: int,
)
    requires
        rooms.len() >= 1,
        rooms[0] is Complex,
        0 <= part < rooms[0].rects().len(),
        rect_relation(candidate, rooms[0].bounds()) matches Ok(found) && !(found.0 is Disjoint),
        rect_relation(candidate, rooms[0].rects()[part]) == Ok::<
            (IntersectState, Order),
            WorldgenError,
        >((IntersectState::Full, Order::FirstGreater)),
        forall|i: int|
            0 <= i < part ==> (#[trigger] rect_relation(candidate, rooms[0].rects()[i])) is Ok,
    ensures
        placed(rooms, RoomView::Basic { rect: candidate }) matches Ok(placement)
            && !placement.accepted && placement.rooms() == rooms,
{
    lemma_scan_ends_where_a_part_holds(
        candidate,
        rooms[0].rects(),
        0,
        (IntersectState::Disjoint, Order::Same),
        part,
    );
    assert(rooms.subrange(0, rooms.len() as int) =~= rooms);
}

/// Which of the first `count` rooms are left depends on their marks only.
pub proof fn lemma_unmarked_prefix(
    rooms: Seq<RoomView>,
    marks: Seq<bool>,
    longer: Seq<bool>,
    count: int,
)
    requires
        forall|i: int| 0 <= i < count ==> marks[i] == longer[i],
    ensures
        unmarked(rooms, marks, count) == unmarked(rooms, longer, count),
    decreases count,
{
    if count > 0 {
        lemma_unmarked_prefix(rooms, marks, longer, count - 1);
    }
}

/// Placing fails only with a conflict of orders.
pub proof fn lemma_place_failure(rooms: Seq<RoomView>, from: int, candidate: RoomView)
    ensures
        place_scan(rooms, from, candidate) matches Err(e) ==> e == WorldgenError::ConflictingOrder,
    decreases rooms.len() - from,
{
    if 0 <= from < rooms.len() {
        lemma_relation_failure(rooms[from], candidate);
        lemma_place_failure(rooms, from + 1, candidate);
        lemma_place_failure(rooms, from + 1, rooms[from].merged_with(candidate));
    }
}

/// Merging keeps rooms on the map.
pub proof fn lemma_merge_stays_ok(this: RoomView, that: RoomView, map_width: int, map_height: int)
    requires
        room_ok(this, map_width, map_height),
        room_ok(that, map_width, map_height),
    ensures
        room_ok(this.merged_with(that), map_width, map_height),
{
    lemma_merge_keeps_bounding_box(this, that);
    let merged = this.merged_with(that);
    assert forall|i: int| 0 <= i < merged.rects().len() implies (
    #[trigger] merged.rects()[i]).has_interior() && merged.rects()[i].within(
        map_width,
        map_height,
    ) by {
        if this is Basic && that is Complex {
            if i < that.rects().len() {
                assert(merged.rects()[i] == that.rects()[i]);
            } else {
                assert(merged.rects()[i] == this.rects()[i - that.rects().len()]);
            }
        } else {
            if i < this.rects().len() {
                assert(merged.rects()[i] == this.rects()[i]);
            } else {
                assert(merged.rects()[i] == that.rects()[i - this.rects().len()]);
            }
        }
    }
}

/// Placing a sound candidate among sound rooms leaves sound rooms, and at
/// least one of them.
pub proof fn lemma_place_stays_ok(
    rooms: Seq<RoomView>,
    from: int,
    candidate: RoomView,
    map_width: int,
    map_height: int,
)
    requires
        rooms_ok(rooms, map_width, map_height),
        room_ok(candidate, map_width, map_height),
        0 <= from <= rooms.len(),
    ensures
        place_scan(rooms, from, candidate) matches Ok(placement) ==> {
            &&& rooms_ok(placement.kept, map_width, map_height)
            &&& room_ok(placement.candidate, map_width, map_height)
            &&& rooms_ok(placement.rooms(), map_width, map_height)
            &&& placement.rooms().len() >= 1
            &&& placement.kept.len() <= rooms.len() - from
        },
    decreases rooms.len() - from,
{
    if from < rooms.len() {
        assert(room_ok(rooms[from], map_width, map_height));
        match relation(rooms[from], candidate) {
            Err(e) => {},
            Ok((IntersectState::Disjoint, _)) => {
                lemma_place_stays_ok(rooms, from + 1, candidate, map_width, map_height);
                match place_scan(rooms, from + 1, candidate) {
                    Ok(rest) => {
                        let placement = rest.keeping(rooms[from]);
                        assert forall|i: int| 0 <= i < placement.kept.len() implies room_ok(
                            #[trigger] placement.kept[i],
                            map_width,
                            map_height,
                        ) by {
                            if i > 0 {
                                assert(placement.kept[i] == rest.kept[i - 1]);
                            }
                        }
                        lemma_rooms_of(placement, map_width, map_height);
                    },
                    Err(e) => {},
                }
            },
            Ok((IntersectState::Partial, _)) => {
                lemma_merge_stays_ok(rooms[from], candidate, map_width, map_height);
                lemma_place_stays_ok(
                    rooms,
                    from + 1,
                    rooms[from].merged_with(candidate),
                    map_width,
                    map_height,
                );
            },
            Ok((IntersectState::Full, Order::FirstGreater)) => {
                lemma_place_stays_ok(rooms, from + 1, candidate, map_width, map_height);
            },
            Ok((IntersectState::Full, _)) => {
                let placement = Placement {
                    kept: rooms.subrange(from, rooms.len() as int),
                    candidate,
                    accepted: false,
                };
                assert forall|i: int| 0 <= i < placement.kept.len() implies room_ok(
                    #[trigger] placement.kept[i],
                    map_width,
                    map_height,
                ) by {
                    assert(placement.kept[i] == rooms[from + i]);
                }
            },
        }
    } else {
        let placement = Placement { kept: Seq::<RoomView>::empty(), candidate, accepted: true };
        lemma_rooms_of(placement, map_width, map_height);
    }
}

/// Sound kept rooms and a sound candidate make a sound list.
pub proof fn lemma_rooms_of(placement: Placement, map_width: int, map_height: int)
    requires
        rooms_ok(placement.kept, map_width, map_height),
        room_ok(placement.candidate, map_width, map_height),
    ensures
        rooms_ok(placement.rooms(), map_width, map_height),
{
    let all = placement.rooms();
    assert forall|i: int| 0 <= i < all.len() implies room_ok(
        #[trigger] all[i],
        map_width,
        map_height,
    ) by {
        if i < placement.kept.len() {
            assert(all[i] == placement.kept[i]);
        }
    }
}

impl RoomGenerator {
    /// The accepted rooms are well formed and lie on the map.
    pub open spec fn rooms_ok(&self) -> bool {
        rooms_ok(room_views(self.rooms@), self.map_width as int, self.map_height as int)
    }

    /// Places a candidate among the accepted rooms: rooms that it overlaps in
    /// part are merged into it, rooms inside it are dropped, and a room that
    /// holds it rejects it.
    ///
    /// Returns whether the candidate was accepted. Fails, and changes
    /// nothing, where it meets a room that it contains on one axis and is
    /// contained in on the other.
    pub fn place_room(&mut self, candidate: Room) -> (outcome: Result<bool, WorldgenError>)
        requires
            old(self).rooms_ok(),
            room_ok(candidate@, old(self).map_width as int, old(self).map_height as int),
        ensures
            match placed(room_views(old(self).rooms@), candidate@) {
                Ok(placement) => outcome == Ok::<bool, WorldgenError>(placement.accepted)
                    && room_views(final(self).rooms@) == placement.rooms(),
                Err(e) => outcome == Err::<bool, WorldgenError>(e) && final(self).rooms@ == old(
                    self,
                ).rooms@,
            },
            outcome matches Err(e) ==> e == WorldgenError::ConflictingOrder,
            final(self).rooms_ok(),
            outcome is Ok ==> final(self).rooms.len() >= 1,
            final(self).rooms.len() <= old(self).rooms.len() + 1,
            final(self).same_config(old(self)),
    {
        let ghost before = room_views(self.rooms@);
        let ghost first = candidate@;
        let ghost map_width = self.map_width as int;
        let ghost map_height = self.map_height as int;
        proof {
            lemma_place_failure(before, 0, first);
            lemma_place_stays_ok(before, 0, first, map_width, map_height);
        }
        let mut merged = candidate;
        let mut should_add = true;
        let mut marks: Vec<bool> = Vec::new();
        let mut idx: usize = 0;
        assert(placed(before, first) == with_front(
            unmarked(before, marks@, 0),
            place_scan(before, 0, first),
        )) by {
            match place_scan(before, 0, first) {
                Ok(placement) => {
                    assert(Seq::<RoomView>::empty() + placement.kept =~= placement.kept);
                },
                Err(_) => {},
            }
        }
        while should_add && idx < self.rooms.len()
            invariant
                *self == *old(self),
                before == room_views(self.rooms@),
                first == candidate@,
                map_width == self.map_width as int,
                map_height == self.map_height as int,
                rooms_ok(before, map_width, map_height),
                room_ok(merged@, map_width, map_height),
                marks.len() == idx,
                idx <= self.rooms.len(),
                !should_add ==> idx < self.rooms.len(),
                placed(before, first) == with_front(
                    unmarked(before, marks@, idx as int),
                    if should_add {
                        place_scan(before, idx as int, merged@)
                    } else {
                        Ok(
                            Placement {
                                kept: before.subrange(idx as int, before.len() as int),
                                candidate: merged@,
                                accepted: false,
                            },
                        )
                    },
                ),
            decreases self.rooms.len() - idx + if should_add { 1int } else { 0int },
        {
            let ghost front = unmarked(before, marks@, idx as int);
            let ghost marks_before = marks@;
            assert(before[idx as int] == self.rooms[idx as int]@);
            assert(room_ok(before[idx as int], map_width, map_height));
            let found = match self.rooms[idx].intersects(merged.clone()) {
                Ok(found) => found,
                Err(e) => {
                    assert(place_scan(before, idx as int, merged@) == Err::<
                        Placement,
                        WorldgenError,
                    >(e));
                    return Err(e);
                },
            };
            match found.0 {
                IntersectState::Disjoint => {
                    marks.push(false);
                    proof {
                        let rest = place_scan(before, idx + 1, merged@);
                        lemma_unmarked_prefix(before, marks_before, marks@, idx as int);
                        assert(unmarked(before, marks@, idx + 1) == front.push(before[idx as int]));
                        if rest is Ok {
                            assert(front + rest.unwrap().keeping(before[idx as int]).kept
                                =~= front.push(before[idx as int]) + rest.unwrap().kept);
                        }
                    }
                    idx += 1;
                },
                IntersectState::Full => {
                    if found.1 == Order::FirstGreater {
                        marks.push(true);
                        proof {
                            lemma_unmarked_prefix(before, marks_before, marks@, idx as int);
                        }
                        assert(unmarked(before, marks@, idx + 1) == front);
                        idx += 1;
                    } else {
                        should_add = false;
                    }
                },
                IntersectState::Partial => {
                    marks.push(true);
                    proof {
                        lemma_unmarked_prefix(before, marks_before, marks@, idx as int);
                    }
                    assert(unmarked(before, marks@, idx + 1) == front);
                    proof {
                        lemma_merge_stays_ok(before[idx as int], merged@, map_width, map_height);
                    }
                    merged = Room::combine_rooms(self.rooms[idx].clone(), merged);
                    idx += 1;
                },
            }
        }
        let ghost front = unmarked(before, marks@, idx as int);
        let ghost back = before.subrange(idx as int, before.len() as int);
        assert(placed(before, first) == Ok::<Placement, WorldgenError>(
            Placement { kept: front + back, candidate: merged@, accepted: should_add },
        )) by {
            if should_add {
                assert(back =~= Seq::<RoomView>::empty());
            }
        }
        let mut count: usize = idx;
        assert(before.subrange(0, count as int) + back =~= before);
        while count > 0
            invariant
                count <= idx,
                marks.len() == idx,
                idx <= before.len(),
                self.same_config(old(self)),
                exists|tail: Seq<RoomView>|
                    {
                        &&& room_views(self.rooms@) == before.subrange(0, count as int) + tail
                        &&& #[trigger] (unmarked(before, marks@, count as int) + tail) == front
                            + back
                    },
            decreases count,
        {
            let ghost tail = choose|tail: Seq<RoomView>|
                {
                    &&& room_views(self.rooms@) == before.subrange(0, count as int) + tail
                    &&& #[trigger] (unmarked(before, marks@, count as int) + tail) == front + back
                };
            let ghost now = room_views(self.rooms@);
            count -= 1;
            assert(now.len() == self.rooms.len());
            if marks[count] {
                let ghost rooms_before = self.rooms@;
                self.rooms.remove(count);
                proof {
                    let after = room_views(self.rooms@);
                    assert(after =~= before.subrange(0, count as int) + tail) by {
                        assert forall|i: int| 0 <= i < after.len() implies after[i] == (
                        before.subrange(0, count as int) + tail)[i] by {
                            if i < count {
                                assert(self.rooms@[i] == rooms_before[i]);
                                assert(now[i] == before[i]);
                            } else {
                                assert(self.rooms@[i] == rooms_before[i + 1]);
                                assert(now[i + 1] == tail[i - count]);
                            }
                        }
                    }
                    assert(unmarked(before, marks@, count as int) + tail == front + back);
                }
            } else {
                proof {
                    let longer = seq![before[count as int]] + tail;
                    assert(now =~= before.subrange(0, count as int) + longer);
                    assert(unmarked(before, marks@, count as int) + longer =~= unmarked(
                        before,
                        marks@,
                        count + 1,
                    ) + tail);
                }
            }
        }
        assert(room_views(self.rooms@) =~= front + back) by {
            let tail = choose|tail: Seq<RoomView>|
                {
                    &&& room_views(self.rooms@) == before.subrange(0, 0) + tail
                    &&& #[trigger] (unmarked(before, marks@, 0) + tail) == front + back
                };
            assert(before.subrange(0, 0) + tail =~= tail);
            assert(unmarked(before, marks@, 0) + tail =~= tail);
        }
        if should_add {
            let ghost without = self.rooms@;
            self.rooms.push(merged);
            assert(room_views(self.rooms@) =~= room_views(without).push(merged@));
        }
        Ok(should_add)
    }
}

} // verus!
