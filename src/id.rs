use vstd::prelude::*;

verus! {

/// Index that no live entity ever receives; `ID::empty()` carries it.
pub const EMPTY_INDEX: u64 = 0xffff_ffff_ffff_ffff;

/// Sub-index of the sentinel identity.
pub const EMPTY_SUB: u8 = 0xff;

/// Identity of an entity (`index`) or of one of its addressable parts (`sub`).
/// Two identities are equal exactly when both fields are equal.
#[derive(Clone, Copy, Debug, PartialEq, Eq, Structural, Hash)]
pub struct ID {
    pub index: u64,
    pub sub: u8,
}

impl ID {
    pub open spec fn spec_empty() -> ID {
        ID { index: EMPTY_INDEX, sub: EMPTY_SUB }
    }

    pub open spec fn spec_is_empty(self) -> bool {
        self == ID::spec_empty()
    }

    pub fn new(id: u64, subID: u8) -> (r: ID)
        ensures
            r.index == id,
            r.sub == subID,
    {
        ID { index: id, sub: subID }
    }

    /// The identity of another part of the same owner.
    pub fn sub(&self, subID: u8) -> (r: ID)
        ensures
            r.index == self.index,
            r.sub == subID,
    {
        ID { index: self.index, sub: subID }
    }

    /// The sentinel identity, which stands for "no entity".
    pub fn empty() -> (r: ID)
        ensures
            r == ID::spec_empty(),
    {
        ID { index: EMPTY_INDEX, sub: EMPTY_SUB }
    }

    pub fn getID(&self) -> (r: u64)
        ensures
            r == self.index,
    {
        self.index
    }

    pub fn getSubID(&self) -> (r: u8)
        ensures
            r == self.sub,
    {
        self.sub
    }

    pub fn isEmpty(&self) -> (r: bool)
        ensures
            r == (*self == ID::spec_empty()),
    {
        self.index == EMPTY_INDEX && self.sub == EMPTY_SUB
    }

    /// The identity of the owning entity itself (sub-index 0).
    pub fn mask(&self) -> (r: ID)
        ensures
            r.index == self.index,
            r.sub == 0,
    {
        ID { index: self.index, sub: 0 }
    }
}

#[derive(Clone, Copy, Debug, PartialEq, Eq, Structural)]
pub enum Direction {
    Up,
    Down,
    Left,
    Right,
}

impl Default for Direction {
    fn default() -> (r: Direction)
        ensures
            r == Direction::Up,
    {
        Direction::Up
    }
}

} // verus!
