use vstd::prelude::*;

verus! {

/// What a single cell of the map holds.
#[derive(Default, Eq, Hash, PartialEq, Clone, Debug, Copy, Structural)]
pub enum TileTextureData {
    #[default]
    Empty,
    Floor,
    Corridor { start: bool },
    Player,
    Enemy,
    Wall { connects_north: bool, connects_south: bool, connects_east: bool, connects_west: bool },
    Entrance,
    Exit,
}

/// A replacement that the precedence table does not define.
#[derive(Eq, PartialEq, Clone, Debug, Copy, Structural)]
pub enum TileError {
    /// An enemy was asked to replace something other than a player.
    EnemyReplacingNonEntity,
    /// A player was asked to replace something other than an enemy.
    PlayerReplacingNonEntity,
}

impl TileError {
    /// A short description of the failure.
    pub fn message(&self) -> (text: &'static str)
        ensures
            *self == TileError::EnemyReplacingNonEntity ==> text@ == "Enemy replacing non-entity"@,
            *self == TileError::PlayerReplacingNonEntity ==> text@ == "Player replacing non-entity"@,
    {
        match self {
            TileError::EnemyReplacingNonEntity => "Enemy replacing non-entity",
            TileError::PlayerReplacingNonEntity => "Player replacing non-entity",
        }
    }
}

/// A wall whose connections have not been worked out yet.
pub open spec fn empty_wall() -> TileTextureData {
    TileTextureData::Wall {
        connects_north: false,
        connects_south: false,
        connects_east: false,
        connects_west: false,
    }
}

impl TileTextureData {
    /// Entrance and exit: the markers that nothing may overwrite.
    pub open spec fn is_marker(self) -> bool {
        self is Entrance || self is Exit
    }

    /// Player and enemy: the kinds that stand for creatures.
    pub open spec fn is_entity(self) -> bool {
        self is Player || self is Enemy
    }

    /// The failure, if any, of writing `self` over `old`.
    ///
    /// A creature may only displace the other kind of creature; over a marker
    /// the write is refused without being a failure.
    pub open spec fn replace_failure(self, old: TileTextureData) -> Option<TileError> {
        if old.is_marker() {
            None
        } else if self is Enemy && !(old is Player) {
            Some(TileError::EnemyReplacingNonEntity)
        } else if self is Player && !(old is Enemy) {
            Some(TileError::PlayerReplacingNonEntity)
        } else {
            None
        }
    }

    /// Whether `self` takes the place of `old`, where that is defined.
    pub open spec fn replaces(self, old: TileTextureData) -> bool {
        !old.is_marker() && match self {
            TileTextureData::Corridor { start } => old matches TileTextureData::Corridor {
                start: old_start,
            } ==> start || !old_start,
            TileTextureData::Floor => !(old is Corridor),
            TileTextureData::Wall { .. } => !(old is Corridor) && !(old is Floor),
            TileTextureData::Enemy => false,
            TileTextureData::Player => old is Enemy,
            _ => true,
        }
    }

    /// What a cell holds after `self` was offered to it.
    pub open spec fn written_over(self, old: TileTextureData) -> TileTextureData {
        if self.replaces(old) {
            self
        } else {
            old
        }
    }

    /// Floors and corridors: the kinds that call for walls around them.
    pub open spec fn spec_makes_walls(&self) -> bool {
        self is Corridor || self is Floor
    }

    /// Walls: the kind that a neighbouring wall joins up with.
    pub open spec fn spec_connects_to_walls(&self) -> bool {
        self is Wall
    }

    /// A wall without any connection becomes an east-west wall; everything
    /// else stays as it is.
    pub open spec fn repaired(self) -> TileTextureData {
        if self == empty_wall() {
            TileTextureData::Wall {
                connects_north: false,
                connects_south: false,
                connects_east: true,
                connects_west: true,
            }
        } else {
            self
        }
    }

    /// Decides whether this tile may be written over `old`.
    pub fn can_replace(&self, old: TileTextureData) -> (decision: Result<bool, TileError>)
        ensures
            match self.replace_failure(old) {
                Some(failure) => decision == Err::<bool, TileError>(failure),
                None => decision == Ok::<bool, TileError>(self.replaces(old)),
            },
            old.is_marker() ==> decision == Ok::<bool, TileError>(false),
    {
        match (*self, old) {
            (TileTextureData::Corridor { start }, TileTextureData::Corridor { start: old_start }) => {
                Ok(start || !old_start)
            },
            (_, TileTextureData::Entrance) => Ok(false),
            (_, TileTextureData::Exit) => Ok(false),
            (TileTextureData::Corridor { .. }, _) => Ok(true),
            (TileTextureData::Floor, TileTextureData::Corridor { .. }) => Ok(false),
            (TileTextureData::Wall { .. }, TileTextureData::Corridor { .. }) => Ok(false),
            (TileTextureData::Wall { .. }, TileTextureData::Floor) => Ok(false),
            (TileTextureData::Enemy, TileTextureData::Player) => Ok(false),
            (TileTextureData::Player, TileTextureData::Enemy) => Ok(true),
            (TileTextureData::Enemy, _) => Err(TileError::EnemyReplacingNonEntity),
            (TileTextureData::Player, _) => Err(TileError::PlayerReplacingNonEntity),
            (_, _) => Ok(true),
        }
    }

    /// Whether walls are raised around this tile.
    #[verifier::when_used_as_spec(spec_makes_walls)]
    pub fn makes_walls(&self) -> (answer: bool)
        ensures
            answer == self.spec_makes_walls(),
    {
        match self {
            TileTextureData::Corridor { .. } => true,
            TileTextureData::Floor => true,
            _ => false,
        }
    }

    /// Whether a neighbouring wall connects to this tile.
    #[verifier::when_used_as_spec(spec_connects_to_walls)]
    pub fn connects_to_walls(&self) -> (answer: bool)
        ensures
            answer == self.spec_connects_to_walls(),
    {
        match self {
            TileTextureData::Wall { .. } => true,
            _ => false,
        }
    }

    /// Gives a wall without connections its default orientation.
    pub fn repair_tile_data(&self) -> (fixed: TileTextureData)
        ensures
            fixed == self.repaired(),
    {
        match self {
            TileTextureData::Wall { connects_north, connects_south, connects_east, connects_west } => {
                if !*connects_north && !*connects_south && !*connects_east && !*connects_west {
                    TileTextureData::Wall {
                        connects_north: false,
                        connects_east: true,
                        connects_south: false,
                        connects_west: true,
                    }
                } else {
                    *self
                }
            },
            _ => *self,
        }
    }
}

/// Writing over a marker never happens and never fails.
pub proof fn lemma_markers_are_kept(new: TileTextureData, old: TileTextureData)
    requires
        old.is_marker(),
    ensures
        new.replace_failure(old) is None,
        !new.replaces(old),
        new.written_over(old) == old,
{
}

/// Offering the same tile twice changes nothing the second time.
pub proof fn lemma_write_twice(new: TileTextureData, old: TileTextureData)
    ensures
        new.written_over(new.written_over(old)) == new.written_over(old),
{
}

/// What holds of a tile wherever it stands.
pub struct TileData {
    pub passable: bool,
}

impl Default for TileData {
    fn default() -> (data: TileData)
        ensures
            !data.passable,
    {
        TileData { passable: false }
    }
}

} // verus!
