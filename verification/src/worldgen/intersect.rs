use crate::worldgen::error::WorldgenError;
use crate::worldgen::geometry::Rect;
use crate::worldgen::geometry::Room;
use crate::worldgen::geometry::RoomView;
use vstd::prelude::*;

verus! {

/// How far two shapes overlap.
#[derive(Default, Eq, PartialEq, Clone, Debug, Copy, Structural)]
pub enum IntersectState {
    /// No overlap.
    #[default]
    Disjoint,
    /// One shape contains the other.
    Full,
    /// The shapes overlap and neither contains the other.
    Partial,
}

/// Which of two overlapping shapes lies inside the other.
#[derive(Eq, PartialEq, Copy, Clone, Debug, Structural)]
pub enum Order {
    /// The first lies inside the second.
    FirstGreater,
    /// The second lies inside the first.
    SecondGreater,
    /// Both are the same.
    Same,
}

/// The state and order of one comparison.
pub type Relation = (IntersectState, Order);

/// How the closed intervals `[s1, e1]` and `[s2, e2]` overlap.
pub open spec fn axis_state(s1: int, e1: int, s2: int, e2: int) -> IntersectState {
    if e1 < s2 || e2 < s1 {
        IntersectState::Disjoint
    } else if (s2 <= s1 && e1 <= e2) || (s1 <= s2 && e2 <= e1) {
        IntersectState::Full
    } else {
        IntersectState::Partial
    }
}

/// Which of the closed intervals `[s1, e1]` and `[s2, e2]` lies inside the
/// other. Where neither does, the order carries no meaning: it is
/// `FirstGreater` for intervals apart and `SecondGreater` for a partial overlap.
pub open spec fn axis_order(s1: int, e1: int, s2: int, e2: int) -> Order {
    match axis_state(s1, e1, s2, e2) {
        IntersectState::Disjoint => Order::FirstGreater,
        IntersectState::Partial => Order::SecondGreater,
        IntersectState::Full => if s1 == s2 && e1 == e2 {
            Order::Same
        } else if s2 <= s1 && e1 <= e2 {
            Order::FirstGreater
        } else {
            Order::SecondGreater
        },
    }
}

/// The state of the columns of two rectangles, each taken without its first
/// wall.
pub open spec fn x_state(a: Rect, b: Rect) -> IntersectState {
    axis_state(a.x + 1, a.right() - 1, b.x + 1, b.right() - 1)
}

/// The order of the columns of two rectangles.
pub open spec fn x_order(a: Rect, b: Rect) -> Order {
    axis_order(a.x + 1, a.right() - 1, b.x + 1, b.right() - 1)
}

/// The state of the rows of two rectangles, each taken without its first
/// wall.
pub open spec fn y_state(a: Rect, b: Rect) -> IntersectState {
    axis_state(a.y + 1, a.top() - 1, b.y + 1, b.top() - 1)
}

/// The order of the rows of two rectangles.
pub open spec fn y_order(a: Rect, b: Rect) -> Order {
    axis_order(a.y + 1, a.top() - 1, b.y + 1, b.top() - 1)
}

/// How two rectangles overlap: partially as soon as one axis does; fully
/// where both axes do, with the order on which the axes agree; otherwise not
/// at all. Axes that name different rectangles as the inner one are a failure.
pub open spec fn rect_relation(a: Rect, b: Rect) -> Result<Relation, WorldgenError> {
    if x_state(a, b) is Partial || y_state(a, b) is Partial {
        Ok((IntersectState::Partial, Order::Same))
    } else if x_state(a, b) is Full && y_state(a, b) is Full {
        if x_order(a, b) == y_order(a, b) || y_order(a, b) is Same {
            Ok((IntersectState::Full, x_order(a, b)))
        } else if x_order(a, b) is Same {
            Ok((IntersectState::Full, y_order(a, b)))
        } else {
            Err(WorldgenError::ConflictingOrder)
        }
    } else {
        Ok((IntersectState::Disjoint, Order::Same))
    }
}

/// What comparing `rect` with the rectangles `parts[from..]` one by one
/// arrives at, given what was `seen` before. A part that holds `rect` ends
/// the scan: the rectangle lies inside the room. A part inside `rect`, or
/// equal to it, is kept as a finding and the scan goes on; a partial overlap,
/// once seen, is kept over such a finding.
pub open spec fn scan_parts(rect: Rect, parts: Seq<Rect>, from: int, seen: Relation) -> Result<
    Relation,
    WorldgenError,
>
    decreases parts.len() - from,
{
    if from < 0 || from >= parts.len() {
        Ok(seen)
    } else {
        match rect_relation(rect, parts[from]) {
            Err(e) => Err(e),
            Ok((IntersectState::Full, Order::FirstGreater)) => Ok(
                (IntersectState::Full, Order::FirstGreater),
            ),
            Ok((IntersectState::Full, order)) => scan_parts(
                rect,
                parts,
                from + 1,
                if seen.0 is Partial {
                    seen
                } else {
                    (IntersectState::Full, order)
                },
            ),
            Ok((IntersectState::Partial, order)) => scan_parts(
                rect,
                parts,
                from + 1,
                (IntersectState::Partial, order),
            ),
            Ok((IntersectState::Disjoint, _)) => scan_parts(rect, parts, from + 1, seen),
        }
    }
}

/// How a rectangle overlaps a merged room: not at all where it misses the
/// bounding box, else as the scan of the parts finds. In a containment the
/// order is `FirstGreater` where a part holds the rectangle, `SecondGreater`
/// where parts lie inside it, and `Same` where a part equals it.
pub open spec fn rect_vs_merged(rect: Rect, parts: Seq<Rect>, aabb: Rect) -> Result<
    Relation,
    WorldgenError,
> {
    match rect_relation(rect, aabb) {
        Err(e) => Err(e),
        Ok((IntersectState::Disjoint, order)) => Ok((IntersectState::Disjoint, order)),
        Ok(_) => scan_parts(rect, parts, 0, (IntersectState::Disjoint, Order::Same)),
    }
}

/// Whether one of `parts[from..]` overlaps the merged room `(others, aabb)`,
/// the parts taken in order up to the first that does.
pub open spec fn scan_pairs(parts: Seq<Rect>, others: Seq<Rect>, aabb: Rect, from: int) -> Result<
    bool,
    WorldgenError,
>
    decreases parts.len() - from,
{
    if from < 0 || from >= parts.len() {
        Ok(false)
    } else {
        match rect_vs_merged(parts[from], others, aabb) {
            Err(e) => Err(e),
            Ok((IntersectState::Disjoint, _)) => scan_pairs(parts, others, aabb, from + 1),
            Ok(_) => Ok(true),
        }
    }
}

/// How two merged rooms overlap: partially where the bounding boxes meet and
/// some part of the first overlaps the second, else not at all. The order is
/// that of the bounding boxes.
pub open spec fn merged_vs_merged(
    parts: Seq<Rect>,
    aabb: Rect,
    others: Seq<Rect>,
    other_aabb: Rect,
) -> Result<Relation, WorldgenError> {
    match rect_relation(aabb, other_aabb) {
        Err(e) => Err(e),
        Ok((IntersectState::Disjoint, order)) => Ok((IntersectState::Disjoint, order)),
        Ok((_, order)) => match scan_pairs(parts, others, other_aabb, 0) {
            Err(e) => Err(e),
            Ok(true) => Ok((IntersectState::Partial, order)),
            Ok(false) => Ok((IntersectState::Disjoint, order)),
        },
    }
}

/// The order with the two shapes taken the other way round.
pub open spec fn turned(order: Order) -> Order {
    match order {
        Order::FirstGreater => Order::SecondGreater,
        Order::SecondGreater => Order::FirstGreater,
        Order::Same => Order::Same,
    }
}

/// The outcome of a comparison with the two shapes taken the other way
/// round.
pub open spec fn turned_round(found: Result<Relation, WorldgenError>) -> Result<
    Relation,
    WorldgenError,
> {
    match found {
        Ok((state, order)) => Ok((state, turned(order))),
        Err(e) => Err(e),
    }
}

/// How two rooms overlap, with the order that of the arguments: the first
/// lies inside the second, or the second inside the first. A merged room
/// against a single rectangle is the rectangle against the merged room,
/// turned round.
pub open spec fn relation(a: RoomView, b: RoomView) -> Result<Relation, WorldgenError> {
    match (a, b) {
        (RoomView::Basic { rect: first }, RoomView::Basic { rect: second }) => rect_relation(
            first,
            second,
        ),
        (RoomView::Basic { rect }, RoomView::Complex { rooms, aabb }) => rect_vs_merged(
            rect,
            rooms,
            aabb,
        ),
        (RoomView::Complex { rooms, aabb }, RoomView::Basic { rect }) => turned_round(
            rect_vs_merged(rect, rooms, aabb),
        ),
        (
            RoomView::Complex { rooms, aabb },
            RoomView::Complex { rooms: others, aabb: other_aabb },
        ) => merged_vs_merged(rooms, aabb, others, other_aabb),
    }
}

/// Two rectangles compare the same in either order, with the order turned
/// round.
pub proof fn lemma_rect_relation_turns(a: Rect, b: Rect)
    ensures
        rect_relation(b, a) == turned_round(rect_relation(a, b)),
{
    lemma_axis_symmetry(a.x + 1, a.right() - 1, b.x + 1, b.right() - 1);
    lemma_axis_symmetry(a.y + 1, a.top() - 1, b.y + 1, b.top() - 1);
}

/// Unless both are merged, two rooms compare the same in either order of the
/// arguments, with the order turned round.
pub proof fn lemma_relation_turns(a: RoomView, b: RoomView)
    requires
        a is Basic || b is Basic,
    ensures
        relation(b, a) == turned_round(relation(a, b)),
{
    match (a, b) {
        (RoomView::Basic { rect: first }, RoomView::Basic { rect: second }) => {
            lemma_rect_relation_turns(first, second);
        },
        (RoomView::Basic { rect }, RoomView::Complex { rooms, aabb }) => {},
        (RoomView::Complex { rooms, aabb }, RoomView::Basic { rect }) => {
            match rect_vs_merged(rect, rooms, aabb) {
                Ok((state, order)) => {
                    assert(turned(turned(order)) == order);
                },
                Err(_) => {},
            }
        },
        _ => {},
    }
}

/// Two extents along one axis that share at most one cell of wall.
pub open spec fn apart_on_axis(a_pos: u8, a_len: u8, b_pos: u8, b_len: u8) -> bool {
    a_pos + a_len <= b_pos + 1 || b_pos + b_len <= a_pos + 1
}

/// Extents that share at most a wall do not overlap, whichever comes first.
pub proof fn lemma_apart_axis_is_disjoint(a_pos: u8, a_len: u8, b_pos: u8, b_len: u8)
    requires
        apart_on_axis(a_pos, a_len, b_pos, b_len),
    ensures
        axis_state(a_pos + 1, a_pos + a_len - 1, b_pos + 1, b_pos + b_len - 1) is Disjoint,
        axis_state(b_pos + 1, b_pos + b_len - 1, a_pos + 1, a_pos + a_len - 1) is Disjoint,
{
}

/// The state of two intervals does not depend on their order, and the order
/// of a containment turns round with them.
pub proof fn lemma_axis_symmetry(s1: int, e1: int, s2: int, e2: int)
    ensures
        axis_state(s1, e1, s2, e2) == axis_state(s2, e2, s1, e1),
        axis_state(s1, e1, s2, e2) is Full ==> (axis_order(s1, e1, s2, e2) is Same <==> axis_order(
            s2,
            e2,
            s1,
            e1,
        ) is Same),
        axis_state(s1, e1, s2, e2) is Full ==> (axis_order(s1, e1, s2, e2) is FirstGreater
            <==> axis_order(s2, e2, s1, e1) is SecondGreater),
{
}

/// Two single rooms whose rectangles lie apart on an axis, and overlap
/// partially on none, do not intersect in either order of the arguments.
pub proof fn lemma_apart_rooms_are_disjoint(a: Rect, b: Rect)
    requires
        apart_on_axis(a.x, a.width, b.x, b.width) || apart_on_axis(a.y, a.height, b.y, b.height),
        !(x_state(a, b) is Partial),
        !(y_state(a, b) is Partial),
    ensures
        relation(RoomView::Basic { rect: a }, RoomView::Basic { rect: b }) matches Ok(found)
            && found.0 is Disjoint,
        relation(RoomView::Basic { rect: b }, RoomView::Basic { rect: a }) matches Ok(found)
            && found.0 is Disjoint,
{
    lemma_axis_symmetry(a.x + 1, a.right() - 1, b.x + 1, b.right() - 1);
    lemma_axis_symmetry(a.y + 1, a.top() - 1, b.y + 1, b.top() - 1);
    if apart_on_axis(a.x, a.width, b.x, b.width) {
        lemma_apart_axis_is_disjoint(a.x, a.width, b.x, b.width);
    } else {
        lemma_apart_axis_is_disjoint(a.y, a.height, b.y, b.height);
    }
}

/// Rectangles that lie apart on both axes do not intersect in either order of
/// the arguments.
pub proof fn lemma_rooms_apart_on_both_axes(a: Rect, b: Rect)
    requires
        apart_on_axis(a.x, a.width, b.x, b.width),
        apart_on_axis(a.y, a.height, b.y, b.height),
    ensures
        relation(RoomView::Basic { rect: a }, RoomView::Basic { rect: b }) matches Ok(found)
            && found.0 is Disjoint,
        relation(RoomView::Basic { rect: b }, RoomView::Basic { rect: a }) matches Ok(found)
            && found.0 is Disjoint,
{
    lemma_apart_axis_is_disjoint(a.x, a.width, b.x, b.width);
    lemma_apart_axis_is_disjoint(a.y, a.height, b.y, b.height);
    lemma_apart_rooms_are_disjoint(a, b);
}

impl Room {
    /// Classifies the overlap of the closed intervals `[edge1_start,
    /// edge1_end]` and `[edge2_start, edge2_end]`.
    pub fn edge_intersects(edge1_start: u8, edge1_end: u8, edge2_start: u8, edge2_end: u8) -> (found:
        Relation)
        ensures
            found.0 == axis_state(
                edge1_start as int,
                edge1_end as int,
                edge2_start as int,
                edge2_end as int,
            ),
            found.1 == axis_order(
                edge1_start as int,
                edge1_end as int,
                edge2_start as int,
                edge2_end as int,
            ),
    {
        let first_inside = edge2_start <= edge1_start && edge1_end <= edge2_end;
        let second_inside = edge1_start <= edge2_start && edge2_end <= edge1_end;
        if edge1_end < edge2_start || edge2_end < edge1_start {
            (IntersectState::Disjoint, Order::FirstGreater)
        } else if first_inside && second_inside {
            (IntersectState::Full, Order::Same)
        } else if first_inside {
            (IntersectState::Full, Order::FirstGreater)
        } else if second_inside {
            (IntersectState::Full, Order::SecondGreater)
        } else {
            (IntersectState::Partial, Order::SecondGreater)
        }
    }

    /// Classifies the overlap of two rectangles.
    pub fn basic_basic_intersection(this: Rect, that: Rect) -> (found: Result<
        Relation,
        WorldgenError,
    >)
        requires
            this.wf(),
            that.wf(),
        ensures
            found == rect_relation(this, that),
    {
        let (x_intersection, x_order) = Room::edge_intersects(
            this.x + 1,
            this.x + (this.width - 1),
            that.x + 1,
            that.x + (that.width - 1),
        );
        let (y_intersection, y_order) = Room::edge_intersects(
            this.y + 1,
            this.y + (this.height - 1),
            that.y + 1,
            that.y + (that.height - 1),
        );
        match (x_intersection, y_intersection) {
            (IntersectState::Partial, _) => Ok((IntersectState::Partial, Order::Same)),
            (_, IntersectState::Partial) => Ok((IntersectState::Partial, Order::Same)),
            (IntersectState::Full, IntersectState::Full) => {
                if x_order == y_order {
                    Ok((IntersectState::Full, x_order))
                } else {
                    match (x_order, y_order) {
                        (Order::Same, total) => Ok((IntersectState::Full, total)),
                        (total, Order::Same) => Ok((IntersectState::Full, total)),
                        (_, _) => Err(WorldgenError::ConflictingOrder),
                    }
                }
            },
            _ => Ok((IntersectState::Disjoint, Order::Same)),
        }
    }

    /// Classifies the overlap of a rectangle with a merged room, given by
    /// its parts and its bounding box.
    pub fn basic_complex_intersection(this: Rect, that_rooms: &Vec<Rect>, that_aabb: Rect) -> (found:
        Result<Relation, WorldgenError>)
        requires
            this.wf(),
            that_aabb.wf(),
            crate::worldgen::geometry::all_wf(that_rooms@),
        ensures
            found == rect_vs_merged(this, that_rooms@, that_aabb),
    {
        let (intersection, order) = match Room::basic_basic_intersection(this, that_aabb) {
            Ok(outer) => outer,
            Err(e) => { return Err(e); },
        };
        if intersection == IntersectState::Disjoint {
            return Ok((intersection, order));
        }
        let mut seen: Relation = (IntersectState::Disjoint, Order::Same);
        let mut idx: usize = 0;
        while idx < that_rooms.len()
            invariant
                idx <= that_rooms.len(),
                this.wf(),
                crate::worldgen::geometry::all_wf(that_rooms@),
                rect_vs_merged(this, that_rooms@, that_aabb) == scan_parts(
                    this,
                    that_rooms@,
                    idx as int,
                    seen,
                ),
            decreases that_rooms.len() - idx,
        {
            let that_room = that_rooms[idx];
            let (inner_intersection, inner_order) = match Room::basic_basic_intersection(
                this,
                that_room,
            ) {
                Ok(inner) => inner,
                Err(e) => { return Err(e); },
            };
            if inner_intersection == IntersectState::Full {
                if inner_order == Order::FirstGreater {
                    return Ok((IntersectState::Full, Order::FirstGreater));
                }
                if seen.0 != IntersectState::Partial {
                    seen = (IntersectState::Full, inner_order);
                }
            } else if inner_intersection == IntersectState::Partial {
                seen = (IntersectState::Partial, inner_order);
            }
            idx += 1;
        }
        Ok(seen)
    }

    /// Classifies the overlap of two merged rooms, each given by its parts
    /// and its bounding box.
    pub fn complex_complex_intersection(
        this_rooms: &Vec<Rect>,
        this_aabb: Rect,
        that_rooms: &Vec<Rect>,
        that_aabb: Rect,
    ) -> (found: Result<Relation, WorldgenError>)
        requires
            this_aabb.wf(),
            that_aabb.wf(),
            crate::worldgen::geometry::all_wf(this_rooms@),
            crate::worldgen::geometry::all_wf(that_rooms@),
        ensures
            found == merged_vs_merged(this_rooms@, this_aabb, that_rooms@, that_aabb),
    {
        let (intersection, order) = match Room::basic_basic_intersection(this_aabb, that_aabb) {
            Ok(outer) => outer,
            Err(e) => { return Err(e); },
        };
        if intersection == IntersectState::Disjoint {
            return Ok((intersection, order));
        }
        let mut idx: usize = 0;
        while idx < this_rooms.len()
            invariant
                idx <= this_rooms.len(),
                that_aabb.wf(),
                rect_relation(this_aabb, that_aabb) == Ok::<Relation, WorldgenError>(
                    (intersection, order),
                ),
                !(intersection is Disjoint),
                crate::worldgen::geometry::all_wf(this_rooms@),
                crate::worldgen::geometry::all_wf(that_rooms@),
                scan_pairs(this_rooms@, that_rooms@, that_aabb, 0) == scan_pairs(
                    this_rooms@,
                    that_rooms@,
                    that_aabb,
                    idx as int,
                ),
            decreases this_rooms.len() - idx,
        {
            let (inner_intersection, _) = match Room::basic_complex_intersection(
                this_rooms[idx],
                that_rooms,
                that_aabb,
            ) {
                Ok(inner) => inner,
                Err(e) => { return Err(e); },
            };
            if inner_intersection != IntersectState::Disjoint {
                return Ok((IntersectState::Partial, order));
            }
            idx += 1;
        }
        Ok((IntersectState::Disjoint, order))
    }

    /// The order with the two shapes taken the other way round.
    pub fn turn_order(order: Order) -> (other: Order)
        ensures
            other == turned(order),
    {
        match order {
            Order::FirstGreater => Order::SecondGreater,
            Order::SecondGreater => Order::FirstGreater,
            Order::Same => Order::Same,
        }
    }

    /// Classifies the overlap of this room with another. In a containment
    /// the order says whether this room lies inside the other or the other
    /// inside this one.
    ///
    /// Fails where two rectangles contain each other on different axes.
    pub fn intersects(&self, other: Room) -> (found: Result<Relation, WorldgenError>)
        requires
            self@.wf(),
            other@.wf(),
        ensures
            found == relation(self@, other@),
            found matches Err(e) ==> e == WorldgenError::ConflictingOrder,
    {
        proof {
            lemma_relation_failure(self@, other@);
            crate::worldgen::geometry::lemma_bounds_wf(self@);
            crate::worldgen::geometry::lemma_bounds_wf(other@);
        }
        match (self, &other) {
            (Room::Basic { rect: this_rect }, Room::Basic { rect: that_rect }) => {
                Room::basic_basic_intersection(*this_rect, *that_rect)
            },
            (Room::Basic { rect }, Room::Complex { rooms, aabb }) => {
                Room::basic_complex_intersection(*rect, rooms, *aabb)
            },
            (Room::Complex { rooms, aabb }, Room::Basic { rect }) => {
                match Room::basic_complex_intersection(*rect, rooms, *aabb) {
                    Ok((state, order)) => Ok((state, Room::turn_order(order))),
                    Err(e) => Err(e),
                }
            },
            (
                Room::Complex { rooms: this_rooms, aabb: this_aabb },
                Room::Complex { rooms: that_rooms, aabb: that_aabb },
            ) => Room::complex_complex_intersection(this_rooms, *this_aabb, that_rooms, *that_aabb),
        }
    }
}

/// The two rectangles compare without failure and do not overlap.
pub open spec fn misses(a: Rect, b: Rect) -> bool {
    match rect_relation(a, b) {
        Ok(found) => found.0 is Disjoint,
        Err(_) => false,
    }
}

/// The rectangle overlaps none of `parts[from..]`.
pub open spec fn misses_all(rect: Rect, parts: Seq<Rect>, from: int) -> bool {
    forall|i: int| from <= i < parts.len() ==> misses(rect, #[trigger] parts[i])
}

/// A scan that has seen nothing yet finds no overlap exactly if no part
/// overlaps the rectangle.
pub proof fn lemma_scan_finds_every_overlap(rect: Rect, parts: Seq<Rect>, from: int, order: Order)
    requires
        0 <= from <= parts.len(),
    ensures
        match scan_parts(rect, parts, from, (IntersectState::Disjoint, order)) {
            Ok(found) => found.0 is Disjoint <==> misses_all(rect, parts, from),
            Err(_) => !misses_all(rect, parts, from),
        },
        misses_all(rect, parts, from) ==> scan_parts(
            rect,
            parts,
            from,
            (IntersectState::Disjoint, order),
        ) == Ok::<Relation, WorldgenError>((IntersectState::Disjoint, order)),
    decreases parts.len() - from,
{
    if from < parts.len() {
        let _ = parts[from];
        match rect_relation(rect, parts[from]) {
            Ok((IntersectState::Disjoint, _)) => {
                lemma_scan_finds_every_overlap(rect, parts, from + 1, order);
                assert(misses(rect, parts[from]));
                if misses_all(rect, parts, from + 1) {
                    assert forall|i: int| from <= i < parts.len() implies misses(
                        rect,
                        #[trigger] parts[i],
                    ) by {
                        if i > from {
                        }
                    }
                }
            },
            Ok((IntersectState::Full, Order::FirstGreater)) => {
                assert(!misses(rect, parts[from]));
            },
            Ok((IntersectState::Full, inner)) => {
                assert(!misses(rect, parts[from]));
                lemma_scan_keeps_what_it_saw(
                    rect,
                    parts,
                    from + 1,
                    (IntersectState::Full, inner),
                );
            },
            Ok((IntersectState::Partial, inner)) => {
                assert(!misses(rect, parts[from]));
                lemma_scan_keeps_what_it_saw(
                    rect,
                    parts,
                    from + 1,
                    (IntersectState::Partial, inner),
                );
            },
            Err(_) => {
                assert(!misses(rect, parts[from]));
            },
        }
    }
}

/// A scan that comes to a part holding the rectangle, without a failure
/// before it, finds the rectangle inside the room, whatever it saw before.
pub proof fn lemma_scan_ends_where_a_part_holds(
    rect: Rect,
    parts: Seq<Rect>,
    from: int,
    seen: Relation,
    part: int,
)
    requires
        0 <= from <= part < parts.len(),
        rect_relation(rect, parts[part]) == Ok::<Relation, WorldgenError>(
            (IntersectState::Full, Order::FirstGreater),
        ),
        forall|i: int| from <= i < part ==> (#[trigger] rect_relation(rect, parts[i])) is Ok,
    ensures
        scan_parts(rect, parts, from, seen) == Ok::<Relation, WorldgenError>(
            (IntersectState::Full, Order::FirstGreater),
        ),
    decreases part - from,
{
    if from < part {
        assert(rect_relation(rect, parts[from]) is Ok);
        match rect_relation(rect, parts[from]) {
            Ok((IntersectState::Full, Order::FirstGreater)) => {},
            Ok((IntersectState::Full, order)) => {
                lemma_scan_ends_where_a_part_holds(
                    rect,
                    parts,
                    from + 1,
                    if seen.0 is Partial {
                        seen
                    } else {
                        (IntersectState::Full, order)
                    },
                    part,
                );
            },
            Ok((IntersectState::Partial, order)) => {
                lemma_scan_ends_where_a_part_holds(
                    rect,
                    parts,
                    from + 1,
                    (IntersectState::Partial, order),
                    part,
                );
            },
            Ok((IntersectState::Disjoint, _)) => {
                lemma_scan_ends_where_a_part_holds(rect, parts, from + 1, seen, part);
            },
            Err(_) => {},
        }
    }
}

/// Once a scan has seen an overlap, it ends with an overlap.
pub proof fn lemma_scan_keeps_what_it_saw(rect: Rect, parts: Seq<Rect>, from: int, seen: Relation)
    requires
        !(seen.0 is Disjoint),
    ensures
        scan_parts(rect, parts, from, seen) matches Ok(found) ==> !(found.0 is Disjoint),
    decreases parts.len() - from,
{
    if 0 <= from < parts.len() {
        match rect_relation(rect, parts[from]) {
            Ok((IntersectState::Full, Order::FirstGreater)) => {},
            Ok((IntersectState::Full, inner)) => {
                lemma_scan_keeps_what_it_saw(
                    rect,
                    parts,
                    from + 1,
                    if seen.0 is Partial {
                        seen
                    } else {
                        (IntersectState::Full, inner)
                    },
                );
            },
            Ok((IntersectState::Partial, inner)) => {
                lemma_scan_keeps_what_it_saw(
                    rect,
                    parts,
                    from + 1,
                    (IntersectState::Partial, inner),
                );
            },
            Ok((IntersectState::Disjoint, _)) => {
                lemma_scan_keeps_what_it_saw(rect, parts, from + 1, seen);
            },
            Err(_) => {},
        }
    }
}

/// Two merged rooms overlap in part or not at all: that one contains the
/// other is never found.
pub proof fn lemma_merged_rooms_never_contain(
    parts: Seq<Rect>,
    aabb: Rect,
    others: Seq<Rect>,
    other_aabb: Rect,
)
    ensures
        merged_vs_merged(parts, aabb, others, other_aabb) matches Ok(found) ==> !(
        found.0 is Full),
{
}

/// A scan of parts fails only with a conflict of orders.
pub proof fn lemma_scan_parts_failure(rect: Rect, parts: Seq<Rect>, from: int, seen: Relation)
    ensures
        scan_parts(rect, parts, from, seen) matches Err(e) ==> e == WorldgenError::ConflictingOrder,
    decreases parts.len() - from,
{
    if 0 <= from < parts.len() {
        match rect_relation(rect, parts[from]) {
            Err(e) => {},
            Ok((IntersectState::Full, Order::FirstGreater)) => {},
            Ok((IntersectState::Full, order)) => {
                lemma_scan_parts_failure(
                    rect,
                    parts,
                    from + 1,
                    if seen.0 is Partial {
                        seen
                    } else {
                        (IntersectState::Full, order)
                    },
                );
            },
            Ok((IntersectState::Partial, order)) => {
                lemma_scan_parts_failure(rect, parts, from + 1, (IntersectState::Partial, order));
            },
            Ok((IntersectState::Disjoint, _)) => {
                lemma_scan_parts_failure(rect, parts, from + 1, seen);
            },
        }
    }
}

/// A scan of pairs fails only with a conflict of orders.
pub proof fn lemma_scan_pairs_failure(parts: Seq<Rect>, others: Seq<Rect>, aabb: Rect, from: int)
    ensures
        scan_pairs(parts, others, aabb, from) matches Err(e) ==> e
            == WorldgenError::ConflictingOrder,
    decreases parts.len() - from,
{
    if 0 <= from < parts.len() {
        lemma_scan_parts_failure(
            parts[from],
            others,
            0,
            (IntersectState::Disjoint, Order::Same),
        );
        lemma_scan_pairs_failure(parts, others, aabb, from + 1);
    }
}

/// Comparing two rooms fails only with a conflict of orders.
pub proof fn lemma_relation_failure(a: RoomView, b: RoomView)
    ensures
        relation(a, b) matches Err(e) ==> e == WorldgenError::ConflictingOrder,
{
    match (a, b) {
        (RoomView::Basic { rect: first }, RoomView::Basic { rect: second }) => {},
        (RoomView::Basic { rect }, RoomView::Complex { rooms, aabb }) => {
            lemma_scan_parts_failure(rect, rooms, 0, (IntersectState::Disjoint, Order::Same));
        },
        (RoomView::Complex { rooms, aabb }, RoomView::Basic { rect }) => {
            lemma_scan_parts_failure(rect, rooms, 0, (IntersectState::Disjoint, Order::Same));
        },
        (
            RoomView::Complex { rooms, aabb },
            RoomView::Complex { rooms: others, aabb: other_aabb },
        ) => {
            lemma_scan_pairs_failure(rooms, others, other_aabb, 0);
        },
    }
}

} // verus!
