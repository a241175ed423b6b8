use vstd::prelude::*;
use crate::id::ID;

verus! {

/// What a tile does to whatever touches it.
#[derive(Clone, Copy, Debug, PartialEq, Eq)]
pub enum CollisionType {
    NoEffect,
    Block,
    Transition(usize),
    SpawnGate((u16, u16, u16, u16)),
    Hit(i32),
    Burn,
    ClearTiles((u16, u16, u16, u16)),
    SwitchToggleGate((u16, u16, u16, u16)),
    SwitchTriggerGen(ID),
    Key,
    KeyBlock,
    Abyss,
    SnakeKill,
    SwitchImmune,
    Health,
    TriggerGen(ID),
    SwitchToggleGateAbyss((u16, u16, u16, u16)),
    CannonSword,
    Win,
    /// Stands for every position outside a screen.
    OOB,
}

/// A map cell: its graphic id and its collision behaviour.
#[derive(Clone, Copy, Debug, PartialEq, Eq)]
pub struct Tile {
    pub id: u16,
    pub collision: CollisionType,
}

/// Graphic id of the tile that stands for positions outside a screen.
pub const OOB_TILE_ID: u16 = 0xffff;

/// Highest collision code that `TileBuilder` knows.
pub const MAX_COLLISION_IDX: usize = 18;

/// Highest graphic id of the tile set.
pub const MAX_TILE_IDX: u16 = 23;

pub open spec fn spec_oob() -> Tile {
    Tile { id: OOB_TILE_ID, collision: CollisionType::OOB }
}

impl Tile {
    pub fn new(id: u16, collision: CollisionType) -> (r: Tile)
        ensures
            r == (Tile { id, collision }),
    {
        Tile { id, collision }
    }

    /// A tile shown with the given graphic and no collision behaviour.
    pub fn preview(id: u16) -> (r: Tile)
        ensures
            r == (Tile { id, collision: CollisionType::NoEffect }),
    {
        Tile { id, collision: CollisionType::NoEffect }
    }

    pub fn OOB() -> (r: Tile)
        ensures
            r == spec_oob(),
    {
        Tile { id: OOB_TILE_ID, collision: CollisionType::OOB }
    }

    pub fn getId(&self) -> (r: u16)
        ensures
            r == self.id,
    {
        self.id
    }

    pub fn getCollisionType(&self) -> (r: CollisionType)
        ensures
            r == self.collision,
    {
        self.collision
    }

    pub fn gate() -> (r: Tile)
        ensures
            r == (Tile { id: 2, collision: CollisionType::Block }),
    {
        Tile::new(2, CollisionType::Block)
    }

    pub fn abyss() -> (r: Tile)
        ensures
            r == (Tile { id: 18, collision: CollisionType::Abyss }),
    {
        Tile::new(18, CollisionType::Abyss)
    }
}

impl Tile {
    pub open spec fn spec_default() -> Tile {
        Tile { id: 0, collision: CollisionType::NoEffect }
    }
}

impl Default for Tile {
    fn default() -> (r: Tile)
        ensures
            r == (Tile { id: 0, collision: CollisionType::NoEffect }),
    {
        Tile { id: 0, collision: CollisionType::NoEffect }
    }
}

/// What a `TileBuilder` needs next, or the finished tile and its position.
#[derive(Debug, PartialEq, Eq)]
pub enum TileBuilderSignals {
    GetUserUsize(&'static str),
    GetCoordinate(&'static str),
    Complete(Tile, (u16, u16)),
    GetEntity(&'static str),
    InvalidId,
}

pub const ASK_MAP_ID: &'static str = "Enter the map id to transition to: ";
pub const ASK_CLEAR_BEGIN: &'static str = "Click where to begin clearing";
pub const ASK_CLEAR_END: &'static str = "Click where to stop clearing";
pub const ASK_GATE_BEGIN: &'static str = "Click where the barrier begins";
pub const ASK_GATE_END: &'static str = "Click where the barrier ends";
pub const ASK_GENERATOR: &'static str = "Pick generator";

/// Collects, one answer at a time, what a tile of a given collision code needs.
pub struct TileBuilder {
    pub id: u16,
    pub collisionType: usize,
    pub pos: (u16, u16),
    pub mapId: Option<usize>,
    pub location: Option<(u16, u16)>,
    pub locationEnd: Option<(u16, u16)>,
    pub complete: Option<Tile>,
    pub entity: Option<ID>,
}

/// Whether the collision code takes a rectangle of two tile positions.
pub open spec fn takes_locations(code: usize) -> bool {
    code == 5 || code == 6 || code == 7 || code == 16
}

/// The collision of a rectangle-taking code, given both corners.
pub open spec fn located_collision(code: usize, a: (u16, u16), b: (u16, u16)) -> CollisionType {
    let r = (a.0, a.1, b.0, b.1);
    if code == 5 {
        CollisionType::ClearTiles(r)
    } else if code == 6 {
        CollisionType::SpawnGate(r)
    } else if code == 7 {
        CollisionType::SwitchToggleGate(r)
    } else {
        CollisionType::SwitchToggleGateAbyss(r)
    }
}

/// The collision of a code that needs no answer.
pub open spec fn plain_collision(code: usize) -> Option<CollisionType> {
    if code == 0 {
        Some(CollisionType::NoEffect)
    } else if code == 1 {
        Some(CollisionType::Block)
    } else if code == 3 {
        Some(CollisionType::Hit(0))
    } else if code == 4 {
        Some(CollisionType::Burn)
    } else if code == 9 {
        Some(CollisionType::Key)
    } else if code == 10 {
        Some(CollisionType::KeyBlock)
    } else if code == 11 {
        Some(CollisionType::Abyss)
    } else if code == 12 {
        Some(CollisionType::SnakeKill)
    } else if code == 13 {
        Some(CollisionType::SwitchImmune)
    } else if code == 14 {
        Some(CollisionType::Health)
    } else if code == 17 {
        Some(CollisionType::CannonSword)
    } else if code == 18 {
        Some(CollisionType::Win)
    } else {
        None
    }
}

impl TileBuilder {
    /// What `build` answers in the builder's present state.
    pub open spec fn spec_build(&self) -> TileBuilderSignals {
        let code = self.collisionType;
        if self.complete is Some {
            TileBuilderSignals::Complete(self.complete->0, self.pos)
        } else if plain_collision(code) is Some {
            TileBuilderSignals::Complete(Tile { id: self.id, collision: plain_collision(code)->0 }, self.pos)
        } else if code == 2 {
            match self.mapId {
                Some(m) => TileBuilderSignals::Complete(
                    Tile { id: self.id, collision: CollisionType::Transition(m) },
                    self.pos,
                ),
                None => TileBuilderSignals::GetUserUsize(ASK_MAP_ID),
            }
        } else if takes_locations(code) {
            match (self.location, self.locationEnd) {
                (Some(a), Some(b)) => TileBuilderSignals::Complete(
                    Tile { id: self.id, collision: located_collision(code, a, b) },
                    self.pos,
                ),
                (Some(_), None) => TileBuilderSignals::GetCoordinate(
                    if code == 5 { ASK_CLEAR_END } else { ASK_GATE_END },
                ),
                _ => TileBuilderSignals::GetCoordinate(
                    if code == 5 { ASK_CLEAR_BEGIN } else { ASK_GATE_BEGIN },
                ),
            }
        } else if code == 8 || code == 15 {
            match self.entity {
                Some(e) => TileBuilderSignals::Complete(
                    Tile {
                        id: self.id,
                        collision: if code == 8 {
                            CollisionType::SwitchTriggerGen(e)
                        } else {
                            CollisionType::TriggerGen(e)
                        },
                    },
                    self.pos,
                ),
                None => TileBuilderSignals::GetEntity(ASK_GENERATOR),
            }
        } else {
            TileBuilderSignals::InvalidId
        }
    }

    pub fn new(id: u16, collisionType: usize, pos: (u16, u16)) -> (r: TileBuilder)
        ensures
            r == (TileBuilder {
                id,
                collisionType,
                pos,
                mapId: None,
                location: None,
                locationEnd: None,
                complete: None,
                entity: None,
            }),
    {
        TileBuilder {
            id,
            collisionType,
            pos,
            mapId: None,
            location: None,
            locationEnd: None,
            complete: None,
            entity: None,
        }
    }

    /// A builder that hands back a copy of an existing tile at `pos`.
    pub fn fromTile(tile: &Tile, pos: (u16, u16)) -> (r: TileBuilder)
        ensures
            r == (TileBuilder {
                id: 0,
                collisionType: 0,
                pos,
                mapId: None,
                location: None,
                locationEnd: None,
                complete: Some(*tile),
                entity: None,
            }),
    {
        TileBuilder {
            id: 0,
            collisionType: 0,
            pos,
            mapId: None,
            location: None,
            locationEnd: None,
            complete: Some(*tile),
            entity: None,
        }
    }

    pub fn build(&self) -> (r: TileBuilderSignals)
        ensures
            r == self.spec_build(),
    {
        if let Some(tile) = self.complete {
            return TileBuilderSignals::Complete(tile, self.pos);
        }
        let done = |c: CollisionType| -> (r: TileBuilderSignals)
            ensures
                r == TileBuilderSignals::Complete(Tile { id: self.id, collision: c }, self.pos),
            { TileBuilderSignals::Complete(Tile::new(self.id, c), self.pos) };
        match self.collisionType {
            0 => done(CollisionType::NoEffect),
            1 => done(CollisionType::Block),
            2 => {
                if let Some(id) = self.mapId {
                    done(CollisionType::Transition(id))
                } else {
                    TileBuilderSignals::GetUserUsize(ASK_MAP_ID)
                }
            },
            3 => done(CollisionType::Hit(0)),
            4 => done(CollisionType::Burn),
            5 => self.createLocationTile((ASK_CLEAR_BEGIN, ASK_CLEAR_END)),
            6 | 7 | 16 => self.createLocationTile((ASK_GATE_BEGIN, ASK_GATE_END)),
            8 => {
                if let Some(entity) = self.entity {
                    done(CollisionType::SwitchTriggerGen(entity))
                } else {
                    TileBuilderSignals::GetEntity(ASK_GENERATOR)
                }
            },
            9 => done(CollisionType::Key),
            10 => done(CollisionType::KeyBlock),
            11 => done(CollisionType::Abyss),
            12 => done(CollisionType::SnakeKill),
            13 => done(CollisionType::SwitchImmune),
            14 => done(CollisionType::Health),
            15 => {
                if let Some(entity) = self.entity {
                    done(CollisionType::TriggerGen(entity))
                } else {
                    TileBuilderSignals::GetEntity(ASK_GENERATOR)
                }
            },
            17 => done(CollisionType::CannonSword),
            18 => done(CollisionType::Win),
            _ => TileBuilderSignals::InvalidId,
        }
    }

    /// Finishes a rectangle-taking tile, or asks for the corner still missing.
    fn createLocationTile(&self, msg: (&'static str, &'static str)) -> (r: TileBuilderSignals)
        requires
            takes_locations(self.collisionType),
        ensures
            r == (match (self.location, self.locationEnd) {
                (Some(a), Some(b)) => TileBuilderSignals::Complete(
                    Tile { id: self.id, collision: located_collision(self.collisionType, a, b) },
                    self.pos,
                ),
                (Some(_), None) => TileBuilderSignals::GetCoordinate(msg.1),
                _ => TileBuilderSignals::GetCoordinate(msg.0),
            }),
    {
        match (self.location, self.locationEnd) {
            (Some(a), Some(b)) => {
                let r = (a.0, a.1, b.0, b.1);
                let c = match self.collisionType {
                    5 => CollisionType::ClearTiles(r),
                    6 => CollisionType::SpawnGate(r),
                    7 => CollisionType::SwitchToggleGate(r),
                    _ => CollisionType::SwitchToggleGateAbyss(r),
                };
                TileBuilderSignals::Complete(Tile::new(self.id, c), self.pos)
            },
            (Some(_), None) => TileBuilderSignals::GetCoordinate(msg.1),
            _ => TileBuilderSignals::GetCoordinate(msg.0),
        }
    }

    /// Records the answer to `GetUserUsize`; only transition tiles take one.
    pub fn addUsize(&mut self, num: usize)
        ensures
            *final(self) == (if old(self).collisionType == 2 {
                TileBuilder { mapId: Some(num), ..*old(self) }
            } else {
                *old(self)
            }),
    {
        if self.collisionType == 2 {
            self.mapId = Some(num);
        }
    }

    /// Records a corner: the first one given, then the second (which a later
    /// call replaces). Codes that take no rectangle ignore it.
    pub fn addLocation(&mut self, location: (u16, u16))
        ensures
            *final(self) == (if !takes_locations(old(self).collisionType) {
                *old(self)
            } else if old(self).location is None {
                TileBuilder { location: Some(location), ..*old(self) }
            } else {
                TileBuilder { locationEnd: Some(location), ..*old(self) }
            }),
    {
        let c = self.collisionType;
        if c == 5 || c == 6 || c == 7 || c == 16 {
            if self.location.is_none() {
                self.location = Some(location);
            } else {
                self.locationEnd = Some(location);
            }
        }
    }

    pub fn addGenerator(&mut self, entity: ID)
        ensures
            *final(self) == (TileBuilder { entity: Some(entity), ..*old(self) }),
    {
        self.entity = Some(entity);
    }
}

/// The side of a tile that a hitbox has entered the least.
#[derive(Clone, Copy, Debug, PartialEq, Eq, Structural)]
pub enum Side {
    Top,
    Bottom,
    Left,
    Right,
}

pub open spec fn side_of(code: u8) -> Side {
    if code == 0 {
        Side::Top
    } else if code == 1 {
        Side::Bottom
    } else if code == 2 {
        Side::Left
    } else {
        Side::Right
    }
}

impl Side {
    pub fn new(code: u8) -> (r: Side)
        requires
            code < 4,
        ensures
            r == side_of(code),
    {
        match code {
            0 => Side::Top,
            1 => Side::Bottom,
            2 => Side::Left,
            _ => Side::Right,
        }
    }
}

/// Position of the first smallest of four values.
pub open spec fn first_min4(v: (i32, i32, i32, i32)) -> u8 {
    let m01 = if v.1 < v.0 { 1u8 } else { 0u8 };
    let a = if m01 == 1 { v.1 } else { v.0 };
    let m012 = if v.2 < a { 2u8 } else { m01 };
    let b = if v.2 < a { v.2 } else { a };
    if v.3 < b { 3u8 } else { m012 }
}

/// The side with the smallest overlap among (top, bottom, left, right); the
/// earliest one wins a tie.
pub fn determineCollidedSide(sides: (i32, i32, i32, i32)) -> (r: Side)
    ensures
        r == side_of(first_min4(sides)),
{
    let arr = [sides.0, sides.1, sides.2, sides.3];
    let mut best: usize = 0;
    let mut i: usize = 1;
    while i < 4
        invariant
            1 <= i <= 4,
            best < i,
            arr@ == seq![sides.0, sides.1, sides.2, sides.3],
            forall|j: int| 0 <= j < i ==> arr@[best as int] <= arr@[j],
            forall|j: int| 0 <= j < best ==> arr@[best as int] < arr@[j],
        decreases 4 - i,
    {
        if arr[i] < arr[best] {
            best = i;
        }
        i = i + 1;
    }
    Side::new(best as u8)
}

} // verus!
