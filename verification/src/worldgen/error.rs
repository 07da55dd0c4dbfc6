use vstd::prelude::*;

verus! {

/// Why a map could not be generated.
#[derive(Eq, PartialEq, Clone, Debug, Copy, Structural)]
pub enum WorldgenError {
    /// The configuration asks for no room at all.
    NoRooms,
    /// The map is wider or higher than room coordinates can express.
    MapTooLarge,
    /// The mean room size leaves no cell inside the walls.
    RoomTooSmall,
    /// A variance of zero leaves no size to draw from.
    NoVariance,
    /// The largest room that can be drawn does not fit the map with room to
    /// place it.
    RoomTooLarge,
    /// An enemy bound of zero leaves no count to draw from.
    NoEnemyBound,
    /// Two rectangles contain each other on different axes, so neither is the
    /// superset of the other.
    ConflictingOrder,
}

impl WorldgenError {
    /// The description of each failure.
    pub open spec fn description(self) -> Seq<char> {
        match self {
            WorldgenError::NoRooms => "room count must be at least one"@,
            WorldgenError::MapTooLarge => "map extent exceeds 255 cells"@,
            WorldgenError::RoomTooSmall => "mean room size must be at least three cells"@,
            WorldgenError::NoVariance => "room size variance must be at least one"@,
            WorldgenError::RoomTooLarge => "largest room does not fit inside the map"@,
            WorldgenError::NoEnemyBound => "enemy bound must be at least one"@,
            WorldgenError::ConflictingOrder => "rooms contain each other on different axes"@,
        }
    }

    /// A short description of the failure.
    pub fn message(&self) -> (text: &'static str)
        ensures
            text@ == self.description(),
    {
        match self {
            WorldgenError::NoRooms => "room count must be at least one",
            WorldgenError::MapTooLarge => "map extent exceeds 255 cells",
            WorldgenError::RoomTooSmall => "mean room size must be at least three cells",
            WorldgenError::NoVariance => "room size variance must be at least one",
            WorldgenError::RoomTooLarge => "largest room does not fit inside the map",
            WorldgenError::NoEnemyBound => "enemy bound must be at least one",
            WorldgenError::ConflictingOrder => "rooms contain each other on different axes",
        }
    }
}

} // verus!
