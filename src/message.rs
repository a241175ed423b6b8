use vstd::prelude::*;
use crate::id::ID;
use crate::geometry::Rect;
use crate::tile::Tile;

verus! {

/// A message about a collision.
#[derive(Clone, Copy, Debug, PartialEq, Eq)]
pub enum CollisionMsg {
    /// The receiver takes this much damage.
    Damage(i32),
    /// The receiver stands on a moving ground with this hitbox and velocity.
    Ground(Rect, (i32, i32)),
}

/// Adds its amount to the receiver's counter.
#[derive(Clone, Copy, Debug, PartialEq, Eq, Structural)]
pub struct CounterMsg(pub i32);

/// A letter with its receiver and its sender.
#[derive(Clone, Copy, Debug, PartialEq, Eq)]
pub struct Envelope<T> {
    pub priority: i32,
    pub letter: T,
    pub recv: ID,
    pub sender: ID,
}

impl<T> Envelope<T> {
    pub fn new(letter: T, recv: ID, sender: ID) -> (r: Envelope<T>)
        ensures
            r == (Envelope { priority: 0, letter, recv, sender }),
    {
        Envelope { priority: 0, letter, recv, sender }
    }

    pub fn getMsg(&self) -> (r: &T)
        ensures
            *r == self.letter,
    {
        &self.letter
    }

    pub fn getSender(&self) -> (r: ID)
        ensures
            r == self.sender,
    {
        self.sender
    }

    pub fn getReciever(&self) -> (r: ID)
        ensures
            r == self.recv,
    {
        self.recv
    }
}

/// A change of the world that waits for the end of the frame.
#[derive(Clone, Copy, Debug, PartialEq, Eq)]
pub enum Command {
    PlaceTile(Tile, (u16, u16)),
    PlaceTiles(Tile, (u16, u16), (u16, u16)),
    ActivateEntity(ID, bool),
    InformPlayerSnakeBoss(ID),
    InformPlayerSnakeBossDeath,
    Win,
}

/// What an entity asks of the world while it commits its update; carried out
/// right after the entity's update returns, in the order asked.
#[derive(Clone, Copy, Debug, PartialEq, Eq)]
pub enum Request {
    UpdatePosition(ID, Rect, Rect),
    RemoveCollision(ID, Rect),
    Purge(ID),
    Counter(Envelope<CounterMsg>),
    Collision(Envelope<CollisionMsg>),
}

} // verus!
