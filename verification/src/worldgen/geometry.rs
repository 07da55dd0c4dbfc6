use vstd::prelude::*;

verus! {

/// An axis-aligned rectangle of map cells, walls included.
#[derive(Default, Eq, PartialEq, Clone, Debug, Copy, Structural)]
pub struct Rect {
    pub x: u8,
    pub y: u8,
    pub width: u8,
    pub height: u8,
}

impl Rect {
    /// One past the last column.
    pub open spec fn right(self) -> int {
        self.x + self.width
    }

    /// One past the last row.
    pub open spec fn top(self) -> int {
        self.y + self.height
    }

    /// The rectangle is not empty and its far edges fit the coordinate type.
    pub open spec fn wf(self) -> bool {
        &&& self.width >= 1
        &&& self.height >= 1
        &&& self.right() <= u8::MAX
        &&& self.top() <= u8::MAX
    }

    /// There is at least one cell inside the ring of walls.
    pub open spec fn has_interior(self) -> bool {
        self.width >= 3 && self.height >= 3
    }

    /// The rectangle lies on a map of the given extent.
    pub open spec fn within(self, map_width: int, map_height: int) -> bool {
        self.right() <= map_width && self.top() <= map_height
    }

    /// The cell `(x, y)` belongs to the rectangle.
    pub open spec fn holds(self, x: int, y: int) -> bool {
        self.x <= x < self.right() && self.y <= y < self.top()
    }

    /// The cell `(x, y)` lies inside the ring of walls.
    pub open spec fn holds_inside(self, x: int, y: int) -> bool {
        self.x < x < self.right() - 1 && self.y < y < self.top() - 1
    }

    /// Every cell of `other` belongs to this rectangle.
    pub open spec fn covers(self, other: Rect) -> bool {
        &&& self.x <= other.x
        &&& self.y <= other.y
        &&& other.right() <= self.right()
        &&& other.top() <= self.top()
    }

    /// Builds a rectangle from its corner and extent.
    pub fn new(x: u8, y: u8, width: u8, height: u8) -> (rect: Rect)
        ensures
            rect == (Rect { x, y, width, height }),
    {
        Rect { x, y, width, height }
    }

    /// Tests the condition [`Rect::wf`].
    pub fn is_valid(&self) -> (valid: bool)
        ensures
            valid == self.wf(),
    {
        self.width >= 1 && self.height >= 1 && self.width <= u8::MAX - self.x && self.height
            <= u8::MAX - self.y
    }
}

/// The smallest rectangle that covers both `a` and `b`.
pub open spec fn hull(a: Rect, b: Rect) -> Rect {
    let x = if a.x <= b.x { a.x } else { b.x };
    let y = if a.y <= b.y { a.y } else { b.y };
    let right = if a.right() >= b.right() { a.right() } else { b.right() };
    let top = if a.top() >= b.top() { a.top() } else { b.top() };
    Rect { x, y, width: (right - x) as u8, height: (top - y) as u8 }
}

/// `aabb` covers every rectangle of `rects` and is tight on all four sides.
pub open spec fn is_bounding_box(aabb: Rect, rects: Seq<Rect>) -> bool {
    &&& forall|i: int| 0 <= i < rects.len() ==> aabb.covers(#[trigger] rects[i])
    &&& exists|i: int| 0 <= i < rects.len() && (#[trigger] rects[i]).x == aabb.x
    &&& exists|i: int| 0 <= i < rects.len() && (#[trigger] rects[i]).y == aabb.y
    &&& exists|i: int| 0 <= i < rects.len() && (#[trigger] rects[i]).right() == aabb.right()
    &&& exists|i: int| 0 <= i < rects.len() && (#[trigger] rects[i]).top() == aabb.top()
}

/// Every rectangle of the sequence is well formed.
pub open spec fn all_wf(rects: Seq<Rect>) -> bool {
    forall|i: int| 0 <= i < rects.len() ==> (#[trigger] rects[i]).wf()
}

/// A room: one rectangle, or several merged into one shape.
#[derive(Eq, PartialEq, Debug)]
pub enum Room {
    Basic { rect: Rect },
    Complex { rooms: Vec<Rect>, aabb: Rect },
}

/// The mathematical value of a [`Room`].
pub enum RoomView {
    Basic { rect: Rect },
    Complex { rooms: Seq<Rect>, aabb: Rect },
}

impl View for Room {
    type V = RoomView;

    open spec fn view(&self) -> RoomView {
        match self {
            Room::Basic { rect } => RoomView::Basic { rect: *rect },
            Room::Complex { rooms, aabb } => RoomView::Complex { rooms: rooms@, aabb: *aabb },
        }
    }
}

impl RoomView {
    /// The rectangles that make up the room, in order.
    pub open spec fn rects(self) -> Seq<Rect> {
        match self {
            RoomView::Basic { rect } => seq![rect],
            RoomView::Complex { rooms, .. } => rooms,
        }
    }

    /// The rectangle that bounds the room.
    pub open spec fn bounds(self) -> Rect {
        match self {
            RoomView::Basic { rect } => rect,
            RoomView::Complex { aabb, .. } => aabb,
        }
    }

    /// All rectangles are well formed and the bounding box is exact.
    pub open spec fn wf(self) -> bool {
        &&& all_wf(self.rects())
        &&& is_bounding_box(self.bounds(), self.rects())
    }

    /// Every rectangle has an interior and lies on the map.
    pub open spec fn fits_map(self, map_width: int, map_height: int) -> bool {
        forall|i: int|
            0 <= i < self.rects().len() ==> (#[trigger] self.rects()[i]).has_interior()
                && self.rects()[i].within(map_width, map_height)
    }

    /// The room made of the rectangles of both.
    ///
    /// A single rectangle joins a merged room at the end of its list.
    pub open spec fn merged_with(self, that: RoomView) -> RoomView {
        RoomView::Complex {
            rooms: if self is Basic && that is Complex {
                that.rects() + self.rects()
            } else {
                self.rects() + that.rects()
            },
            aabb: hull(self.bounds(), that.bounds()),
        }
    }
}

/// The room that `first` becomes when the rooms of `rest` are merged into it
/// one after the other.
pub open spec fn merged_all(first: RoomView, rest: Seq<RoomView>) -> RoomView
    decreases rest.len(),
{
    if rest.len() == 0 {
        first
    } else {
        merged_all(first, rest.drop_last()).merged_with(rest.last())
    }
}

/// The hull of two exact bounding boxes is the exact bounding box of the two
/// lists put together, in either order.
pub proof fn lemma_hull_is_bounding_box(a_box: Rect, a: Seq<Rect>, b_box: Rect, b: Seq<Rect>)
    requires
        all_wf(a),
        all_wf(b),
        is_bounding_box(a_box, a),
        is_bounding_box(b_box, b),
    ensures
        all_wf(a + b),
        is_bounding_box(hull(a_box, b_box), a + b),
        hull(a_box, b_box) == hull(b_box, a_box),
        hull(a_box, b_box).wf(),
{
    let joined = a + b;
    let h = hull(a_box, b_box);
    let ax = choose|i: int| 0 <= i < a.len() && (#[trigger] a[i]).x == a_box.x;
    let ay = choose|i: int| 0 <= i < a.len() && (#[trigger] a[i]).y == a_box.y;
    let ar = choose|i: int| 0 <= i < a.len() && (#[trigger] a[i]).right() == a_box.right();
    let at = choose|i: int| 0 <= i < a.len() && (#[trigger] a[i]).top() == a_box.top();
    let bx = choose|i: int| 0 <= i < b.len() && (#[trigger] b[i]).x == b_box.x;
    let by = choose|i: int| 0 <= i < b.len() && (#[trigger] b[i]).y == b_box.y;
    let br = choose|i: int| 0 <= i < b.len() && (#[trigger] b[i]).right() == b_box.right();
    let bt = choose|i: int| 0 <= i < b.len() && (#[trigger] b[i]).top() == b_box.top();
    assert(a[ax].wf() && a[ay].wf() && a[ar].wf() && a[at].wf());
    assert(b[bx].wf() && b[by].wf() && b[br].wf() && b[bt].wf());
    assert(a_box.covers(a[ax]) && a_box.covers(a[ar]) && a_box.covers(a[at]));
    assert(b_box.covers(b[bx]) && b_box.covers(b[br]) && b_box.covers(b[bt]));
    assert forall|i: int| 0 <= i < joined.len() implies (#[trigger] joined[i]).wf() && h.covers(
        joined[i],
    ) by {
        if i < a.len() {
            assert(joined[i] == a[i]);
        } else {
            assert(joined[i] == b[i - a.len()]);
        }
    }
    let ix = if a_box.x <= b_box.x { ax } else { a.len() + bx };
    let iy = if a_box.y <= b_box.y { ay } else { a.len() + by };
    let ir = if a_box.right() >= b_box.right() { ar } else { a.len() + br };
    let it = if a_box.top() >= b_box.top() { at } else { a.len() + bt };
    assert(joined[ix].x == h.x);
    assert(joined[iy].y == h.y);
    assert(joined[ir].right() == h.right());
    assert(joined[it].top() == h.top());
}

/// The bounding box of a well-formed room is itself well formed.
pub proof fn lemma_bounds_wf(room: RoomView)
    requires
        room.wf(),
    ensures
        room.bounds().wf(),
{
    let rects = room.rects();
    let b = room.bounds();
    let ix = choose|i: int| 0 <= i < rects.len() && (#[trigger] rects[i]).x == b.x;
    let ir = choose|i: int| 0 <= i < rects.len() && (#[trigger] rects[i]).right() == b.right();
    let iy = choose|i: int| 0 <= i < rects.len() && (#[trigger] rects[i]).y == b.y;
    let it = choose|i: int| 0 <= i < rects.len() && (#[trigger] rects[i]).top() == b.top();
    assert(rects[ix].wf() && rects[ir].wf() && rects[iy].wf() && rects[it].wf());
    assert(b.covers(rects[ix]) && b.covers(rects[iy]));
}

/// Merging keeps the bounding box exact.
pub proof fn lemma_merge_keeps_bounding_box(this: RoomView, that: RoomView)
    requires
        this.wf(),
        that.wf(),
    ensures
        this.merged_with(that).wf(),
        is_bounding_box(this.merged_with(that).bounds(), this.merged_with(that).rects()),
{
    if this is Basic && that is Complex {
        lemma_hull_is_bounding_box(that.bounds(), that.rects(), this.bounds(), this.rects());
    } else {
        lemma_hull_is_bounding_box(this.bounds(), this.rects(), that.bounds(), that.rects());
    }
}

/// However many rooms are merged into one, the bounding box of the result is
/// the smallest rectangle that covers all of its rectangles.
pub proof fn lemma_merges_keep_bounding_box(first: RoomView, rest: Seq<RoomView>)
    requires
        first.wf(),
        forall|i: int| 0 <= i < rest.len() ==> (#[trigger] rest[i]).wf(),
    ensures
        merged_all(first, rest).wf(),
        is_bounding_box(merged_all(first, rest).bounds(), merged_all(first, rest).rects()),
    decreases rest.len(),
{
    if rest.len() > 0 {
        let front = rest.drop_last();
        assert forall|i: int| 0 <= i < front.len() implies (#[trigger] front[i]).wf() by {
            assert(front[i] == rest[i]);
        }
        lemma_merges_keep_bounding_box(first, front);
        lemma_merge_keeps_bounding_box(merged_all(first, front), rest.last());
    }
}

impl Clone for Room {
    fn clone(&self) -> (copy: Room)
        ensures
            copy@ == self@,
    {
        match self {
            Room::Basic { rect } => Room::Basic { rect: *rect },
            Room::Complex { rooms, aabb } => {
                let mut copied: Vec<Rect> = Vec::new();
                for i in 0..rooms.len()
                    invariant
                        copied@ == rooms@.subrange(0, i as int),
                {
                    copied.push(rooms[i]);
                }
                assert(rooms@.subrange(0, rooms.len() as int) == rooms@);
                Room::Complex { rooms: copied, aabb: *aabb }
            },
        }
    }
}

/// The first `count` rectangles are well formed, have an interior and lie on
/// the map.
pub open spec fn prefix_sound(rects: Seq<Rect>, count: int, map_width: int, map_height: int) -> bool {
    forall|i: int|
        0 <= i < count ==> (#[trigger] rects[i]).wf() && rects[i].has_interior()
            && rects[i].within(map_width, map_height)
}

/// `frame` is the smallest rectangle that covers the first `count`
/// rectangles.
pub open spec fn prefix_hull(frame: Rect, rects: Seq<Rect>, count: int) -> bool {
    &&& forall|i: int| 0 <= i < count ==> frame.covers(#[trigger] rects[i])
    &&& exists|i: int| 0 <= i < count && (#[trigger] rects[i]).x == frame.x
    &&& exists|i: int| 0 <= i < count && (#[trigger] rects[i]).y == frame.y
    &&& exists|i: int| 0 <= i < count && (#[trigger] rects[i]).right() == frame.right()
    &&& exists|i: int| 0 <= i < count && (#[trigger] rects[i]).top() == frame.top()
}

/// Taking one more rectangle into the hull.
pub proof fn lemma_prefix_hull_grows(frame: Rect, rects: Seq<Rect>, count: int)
    requires
        0 < count < rects.len(),
        prefix_hull(frame, rects, count),
        frame.wf(),
        rects[count].wf(),
    ensures
        prefix_hull(hull(frame, rects[count]), rects, count + 1),
        hull(frame, rects[count]).wf(),
{
    let next = rects[count];
    let grown = hull(frame, next);
    let ix = choose|i: int| 0 <= i < count && (#[trigger] rects[i]).x == frame.x;
    let iy = choose|i: int| 0 <= i < count && (#[trigger] rects[i]).y == frame.y;
    let ir = choose|i: int| 0 <= i < count && (#[trigger] rects[i]).right() == frame.right();
    let it = choose|i: int| 0 <= i < count && (#[trigger] rects[i]).top() == frame.top();
    let jx = if frame.x <= next.x { ix } else { count };
    let jy = if frame.y <= next.y { iy } else { count };
    let jr = if frame.right() >= next.right() { ir } else { count };
    let jt = if frame.top() >= next.top() { it } else { count };
    assert(0 <= jx < count + 1 && rects[jx].x == grown.x);
    assert(0 <= jy < count + 1 && rects[jy].y == grown.y);
    assert(0 <= jr < count + 1 && rects[jr].right() == grown.right());
    assert(0 <= jt < count + 1 && rects[jt].top() == grown.top());
    assert forall|i: int| 0 <= i < count + 1 implies grown.covers(#[trigger] rects[i]) by {
        if i < count {
            assert(frame.covers(rects[i]));
        }
    }
}

/// The smallest rectangle that covers given rectangles is the only one.
pub proof fn lemma_hull_is_unique(first: Rect, second: Rect, rects: Seq<Rect>)
    requires
        is_bounding_box(first, rects),
        is_bounding_box(second, rects),
    ensures
        first == second,
{
    let ix = choose|i: int| 0 <= i < rects.len() && (#[trigger] rects[i]).x == first.x;
    let iy = choose|i: int| 0 <= i < rects.len() && (#[trigger] rects[i]).y == first.y;
    let ir = choose|i: int| 0 <= i < rects.len() && (#[trigger] rects[i]).right() == first.right();
    let it = choose|i: int| 0 <= i < rects.len() && (#[trigger] rects[i]).top() == first.top();
    let jx = choose|i: int| 0 <= i < rects.len() && (#[trigger] rects[i]).x == second.x;
    let jy = choose|i: int| 0 <= i < rects.len() && (#[trigger] rects[i]).y == second.y;
    let jr = choose|i: int| 0 <= i < rects.len() && (#[trigger] rects[i]).right() == second.right();
    let jt = choose|i: int| 0 <= i < rects.len() && (#[trigger] rects[i]).top() == second.top();
    assert(second.covers(rects[ix]) && second.covers(rects[iy]) && second.covers(rects[ir])
        && second.covers(rects[it]));
    assert(first.covers(rects[jx]) && first.covers(rects[jy]) && first.covers(rects[jr])
        && first.covers(rects[jt]));
}

impl Rect {
    /// Tests whether the rectangle is well formed, has an interior and lies
    /// on a map of the given extent.
    pub fn is_sound(&self, map_width: usize, map_height: usize) -> (sound: bool)
        ensures
            sound == (self.wf() && self.has_interior() && self.within(
                map_width as int,
                map_height as int,
            )),
    {
        self.is_valid() && self.width >= 3 && self.height >= 3 && (self.x as usize)
            + (self.width as usize) <= map_width && (self.y as usize) + (self.height as usize)
            <= map_height
    }
}

impl Room {
    /// Tests whether the room is well formed, with an exact bounding box,
    /// and whether each of its rectangles has an interior and lies on a map
    /// of the given extent.
    pub fn is_sound(&self, map_width: usize, map_height: usize) -> (sound: bool)
        ensures
            sound == (self@.wf() && self@.fits_map(map_width as int, map_height as int)),
    {
        match self {
            Room::Basic { rect } => {
                let sound = rect.is_sound(map_width, map_height);
                proof {
                    assert(self@.rects()[0] == *rect);
                    if sound {
                        assert(self@.wf());
                        assert(self@.fits_map(map_width as int, map_height as int));
                    }
                }
                sound
            },
            Room::Complex { rooms, aabb } => {
                if rooms.len() == 0 {
                    return false;
                }
                if !rooms[0].is_sound(map_width, map_height) {
                    assert(!(self@.rects()[0].wf() && self@.rects()[0].has_interior()
                        && self@.rects()[0].within(map_width as int, map_height as int)));
                    return false;
                }
                let mut frame = rooms[0];
                for idx in 1..rooms.len()
                    invariant
                        self@ == (RoomView::Complex { rooms: rooms@, aabb: *aabb }),
                        rooms.len() >= 1,
                        frame.wf(),
                        prefix_sound(rooms@, idx as int, map_width as int, map_height as int),
                        prefix_hull(frame, rooms@, idx as int),
                {
                    if !rooms[idx].is_sound(map_width, map_height) {
                        assert(!(self@.rects()[idx as int].wf()
                            && self@.rects()[idx as int].has_interior()
                            && self@.rects()[idx as int].within(
                            map_width as int,
                            map_height as int,
                        )));
                        return false;
                    }
                    proof {
                        lemma_prefix_hull_grows(frame, rooms@, idx as int);
                    }
                    frame = Room::calculate_aabb(frame, rooms[idx]);
                }
                assert(is_bounding_box(frame, rooms@));
                assert(all_wf(rooms@));
                proof {
                    if is_bounding_box(*aabb, rooms@) {
                        lemma_hull_is_unique(frame, *aabb, rooms@);
                    }
                }
                frame.x == aabb.x && frame.y == aabb.y && frame.width == aabb.width
                    && frame.height == aabb.height
            },
        }
    }

    /// The smallest rectangle that covers both arguments.
    pub fn calculate_aabb(rect1: Rect, rect2: Rect) -> (aabb: Rect)
        requires
            rect1.wf(),
            rect2.wf(),
        ensures
            aabb == hull(rect1, rect2),
    {
        let right1 = rect1.x + rect1.width;
        let right2 = rect2.x + rect2.width;
        let top1 = rect1.y + rect1.height;
        let top2 = rect2.y + rect2.height;
        let far_x = if right1 >= right2 { right1 } else { right2 };
        let far_y = if top1 >= top2 { top1 } else { top2 };
        let close_x = if rect1.x <= rect2.x { rect1.x } else { rect2.x };
        let close_y = if rect1.y <= rect2.y { rect1.y } else { rect2.y };
        Rect { x: close_x, y: close_y, width: far_x - close_x, height: far_y - close_y }
    }

    /// Merges two rooms into one shape that holds the rectangles of both.
    pub fn combine_rooms(this: Room, that: Room) -> (merged: Room)
        requires
            this@.wf(),
            that@.wf(),
        ensures
            merged@ == this@.merged_with(that@),
            merged@.wf(),
    {
        proof {
            lemma_merge_keeps_bounding_box(this@, that@);
            lemma_hull_is_bounding_box(
                this@.bounds(),
                this@.rects(),
                that@.bounds(),
                that@.rects(),
            );
        }
        match (this, that) {
            (Room::Basic { rect: this_rect }, Room::Basic { rect: that_rect }) => {
                let mut rooms: Vec<Rect> = Vec::new();
                rooms.push(this_rect);
                rooms.push(that_rect);
                assert(rooms@ == seq![this_rect] + seq![that_rect]);
                Room::Complex { rooms, aabb: Room::calculate_aabb(this_rect, that_rect) }
            },
            (Room::Basic { rect }, Room::Complex { rooms, aabb }) => {
                let mut rooms = rooms;
                rooms.push(rect);
                assert(rooms@ == that@.rects() + seq![rect]);
                let aabb = Room::calculate_aabb(rect, aabb);
                Room::Complex { rooms, aabb }
            },
            (Room::Complex { rooms, aabb }, Room::Basic { rect }) => {
                let mut rooms = rooms;
                rooms.push(rect);
                assert(rooms@ == this@.rects() + seq![rect]);
                let aabb = Room::calculate_aabb(rect, aabb);
                Room::Complex { rooms, aabb }
            },
            (
                Room::Complex { rooms: this_rooms, aabb: this_aabb },
                Room::Complex { rooms: that_rooms, aabb: that_aabb },
            ) => {
                let mut this_rooms = this_rooms;
                let mut that_rooms = that_rooms;
                this_rooms.append(&mut that_rooms);
                let aabb = Room::calculate_aabb(this_aabb, that_aabb);
                Room::Complex { rooms: this_rooms, aabb }
            },
        }
    }
}

} // verus!
