use vstd::prelude::*;
use crate::id::ID;
use crate::geometry::{Rect, rects_intersect};
use crate::message::{CollisionMsg, Envelope, Request};
use crate::common::{clamp_i32, clamp_i64};

verus! {

/// Pixels a player moves per frame along an axis while a key is held.
pub const PLAYER_SPEED: i32 = 5;

/// Frames of invulnerability after a hit.
pub const PLAYER_IFRAMES: u32 = 60;

/// The state of the movement keys; `None` everywhere when no key changed.
#[derive(Clone, Copy, Debug, PartialEq, Eq, Structural)]
pub struct Signals {
    pub up: Option<bool>,
    pub down: Option<bool>,
    pub left: Option<bool>,
    pub right: Option<bool>,
    pub attack: Option<bool>,
}

pub open spec fn held(k: Option<bool>) -> int {
    if k == Some(true) { 1 } else { 0 }
}

/// The player character.
pub struct Player {
    pub id: ID,
    pub position: (i32, i32),
    pub velocity: (i32, i32),
    pub hitbox: Rect,
    pub health: i32,
    pub iframeCounter: u32,
    pub snakeBoss: Option<ID>,
}

/// What the player decided in the read half of a frame.
pub struct PlayerData {
    pub nextPos: (i32, i32),
    /// Replies proposed by the entities whose hitboxes overlap the player's.
    pub messages: Vec<Envelope<CollisionMsg>>,
}

/// Plain data of a player, for saving.
#[derive(Clone, Copy, Debug, PartialEq, Eq)]
pub struct InnerPlayer {
    pub id: ID,
    pub position: (i32, i32),
    pub health: i32,
}

/// The position after one frame at the given velocity.
pub open spec fn next_position(p: (i32, i32), v: (i32, i32)) -> (i32, i32) {
    (clamp_i32(p.0 as int + v.0 as int), clamp_i32(p.1 as int + v.1 as int))
}

/// The velocity the keys ask for; `None` when no key was reported.
pub open spec fn signalled_velocity(signals: Signals) -> Option<(i32, i32)> {
    if signals.up is None && signals.down is None && signals.left is None && signals.right is None {
        None
    } else {
        Some((
            ((held(signals.right) - held(signals.left)) * PLAYER_SPEED) as i32,
            ((held(signals.down) - held(signals.up)) * PLAYER_SPEED) as i32,
        ))
    }
}

/// A player after a collision message: damage lowers health unless the
/// player is still invulnerable from a previous hit.
pub open spec fn player_collided(p: Player, msg: CollisionMsg) -> Player {
    if msg is Damage && p.iframeCounter == 0 {
        Player { health: clamp_i32(p.health as int - (msg->Damage_0) as int), iframeCounter: PLAYER_IFRAMES, ..p }
    } else {
        p
    }
}

impl Player {
    pub open spec fn spec_new(position: (i32, i32)) -> Player {
        Player {
            id: ID::spec_empty(),
            position,
            velocity: (0i32, 0i32),
            hitbox: Rect { x: position.0, y: position.1, w: 50, h: 50 },
            health: 100,
            iframeCounter: 0,
            snakeBoss: None,
        }
    }

    /// A player standing still at `position`, with a 50 x 50 hitbox and full health.
    pub fn new(position: (i32, i32)) -> (r: Player)
        ensures
            r.id == ID::spec_empty(),
            r.position == position,
            r.velocity == (0i32, 0i32),
            r.hitbox == (Rect { x: position.0, y: position.1, w: 50, h: 50 }),
            r.health == 100,
            r.iframeCounter == 0,
            r.snakeBoss is None,
    {
        Player {
            id: ID::empty(),
            position,
            velocity: (0, 0),
            hitbox: Rect::new(position.0, position.1, 50, 50),
            health: 100,
            iframeCounter: 0,
            snakeBoss: None,
        }
    }

    pub fn fromInner(inner: InnerPlayer) -> (r: Player)
        ensures
            r.id == inner.id,
            r.position == inner.position,
            r.health == inner.health,
            r.velocity == (0i32, 0i32),
            r.hitbox == (Rect { x: inner.position.0, y: inner.position.1, w: 50, h: 50 }),
    {
        let mut p = Player::new(inner.position);
        p.id = inner.id;
        p.health = inner.health;
        p
    }

    pub fn toInner(&self) -> (r: InnerPlayer)
        ensures
            r == (InnerPlayer { id: self.id, position: self.position, health: self.health }),
    {
        InnerPlayer { id: self.id, position: self.position, health: self.health }
    }

    pub fn getPosition(&self) -> (r: (i32, i32))
        ensures
            r == self.position,
    {
        self.position
    }

    pub fn collidesStatic(&self, hitbox: Rect) -> (r: bool)
        ensures
            r == rects_intersect(self.hitbox, hitbox),
    {
        self.hitbox.has_intersection(hitbox)
    }

    /// Takes the keys: while any key is reported, the velocity follows the
    /// held direction keys; with no report it stays as it was.
    pub fn signal(&mut self, signals: Signals)
        ensures
            final(self).id == old(self).id,
            final(self).position == old(self).position,
            final(self).hitbox == old(self).hitbox,
            final(self).health == old(self).health,
            final(self).iframeCounter == old(self).iframeCounter,
            final(self).snakeBoss == old(self).snakeBoss,
            (signals.up is None && signals.down is None && signals.left is None && signals.right is None)
                ==> final(self).velocity == old(self).velocity,
            !(signals.up is None && signals.down is None && signals.left is None && signals.right is None)
                ==> final(self).velocity == (
                    ((held(signals.right) - held(signals.left)) * PLAYER_SPEED) as i32,
                    ((held(signals.down) - held(signals.up)) * PLAYER_SPEED) as i32,
                ),
    {
        if signals.up.is_none() && signals.down.is_none() && signals.left.is_none() && signals.right.is_none() {
            return;
        }
        let r: i32 = if signals.right == Some(true) { 1 } else { 0 };
        let l: i32 = if signals.left == Some(true) { 1 } else { 0 };
        let d: i32 = if signals.down == Some(true) { 1 } else { 0 };
        let u: i32 = if signals.up == Some(true) { 1 } else { 0 };
        self.velocity = ((r - l) * PLAYER_SPEED, (d - u) * PLAYER_SPEED);
    }

    /// The read half of a frame: where the player will be, and the replies
    /// already gathered from overlapping entities.
    pub fn getData(&self, messages: Vec<Envelope<CollisionMsg>>) -> (r: PlayerData)
        ensures
            r.nextPos == next_position(self.position, self.velocity),
            r.messages@ == messages@,
    {
        PlayerData {
            nextPos: (
                clamp_i64(self.position.0 as i64 + self.velocity.0 as i64),
                clamp_i64(self.position.1 as i64 + self.velocity.1 as i64),
            ),
            messages,
        }
    }

    /// The commit half of a frame: moves to the planned position, asks for
    /// its hitbox to move in the collision index, then for each gathered
    /// reply to be delivered.
    pub fn update(&mut self, data: &PlayerData, out: &mut Vec<Request>)
        ensures
            final(self).position == data.nextPos,
            final(self).hitbox == (Rect { x: data.nextPos.0, y: data.nextPos.1, ..old(self).hitbox }),
            final(self).id == old(self).id,
            final(self).velocity == old(self).velocity,
            final(self).health == old(self).health,
            final(self).snakeBoss == old(self).snakeBoss,
            final(self).iframeCounter == if old(self).iframeCounter > 0 { (old(self).iframeCounter - 1) as u32 } else { 0 },
            final(out)@ == old(out)@ + seq![Request::UpdatePosition(old(self).id, final(self).hitbox, old(self).hitbox)]
                + data.messages@.map_values(|m: Envelope<CollisionMsg>| Request::Collision(m)),
    {
        self.position = data.nextPos;
        let prev = self.hitbox;
        self.hitbox.reposition(data.nextPos.0, data.nextPos.1);
        out.push(Request::UpdatePosition(self.id, self.hitbox, prev));
        let ghost start = out@;
        let mut i: usize = 0;
        while i < data.messages.len()
            invariant
                i <= data.messages@.len(),
                out@ == start + data.messages@.subrange(0, i as int).map_values(|m: Envelope<CollisionMsg>| Request::Collision(m)),
            decreases data.messages@.len() - i,
        {
            out.push(Request::Collision(data.messages[i]));
            proof {
                assert(data.messages@.subrange(0, i as int + 1).map_values(|m: Envelope<CollisionMsg>| Request::Collision(m))
                    =~= data.messages@.subrange(0, i as int).map_values(|m: Envelope<CollisionMsg>| Request::Collision(m)).push(Request::Collision(data.messages@[i as int])));
            }
            i = i + 1;
        }
        proof {
            assert(data.messages@.subrange(0, i as int) =~= data.messages@);
        }
        if self.iframeCounter > 0 {
            self.iframeCounter = self.iframeCounter - 1;
        }
    }

    /// Damage lowers health unless the player is still invulnerable from a
    /// previous hit; a hit makes it invulnerable for a while.
    pub fn collide(&mut self, msg: CollisionMsg)
        ensures
            *final(self) == player_collided(*old(self), msg),
    {
        if let CollisionMsg::Damage(d) = msg {
            if self.iframeCounter == 0 {
                self.health = clamp_i64(self.health as i64 - d as i64);
                self.iframeCounter = PLAYER_IFRAMES;
            }
        }
    }

    pub fn informSnakeBoss(&mut self, id: ID)
        ensures
            *final(self) == (Player { snakeBoss: Some(id), ..*old(self) }),
    {
        self.snakeBoss = Some(id);
    }

    pub fn informSnakeBossDeath(&mut self)
        ensures
            *final(self) == (Player { snakeBoss: None, ..*old(self) }),
    {
        self.snakeBoss = None;
    }
}

} // verus!
