use vstd::prelude::*;
use crate::id::ID;
use crate::geometry::{Rect, rects_intersect};
use crate::message::{CollisionMsg, Envelope, Request, CounterMsg};
use crate::common::{DeathCounter, IDRegistration, step_toward, step_toward_exec, clamp_i32, clamp_i64};
use crate::map::{TileMap, blockCollide, spec_block_collide};
use crate::screen::{CollisionBounds, walk, advance, spec_bounds};
use crate::tile::CollisionType;

verus! {

/// Pixels a skeleton walks per frame along an axis.
pub const SKELETON_SPEED: i32 = 3;

/// Damage a skeleton deals to the player it touches.
pub const SKELETON_DAMAGE: i32 = 8;

/// Frames a hit skeleton stands still and cannot be hurt.
pub const SKELETON_IFRAMES: u32 = 90;

/// An enemy that walks toward the player.
pub struct Skeleton {
    pub id: ID,
    pub timer: u32,
    pub position: (i32, i32),
    pub idle: bool,
    pub hitbox: Rect,
    pub iframeCounter: u32,
    pub health: i32,
    pub deathCounter: Option<DeathCounter>,
}

/// What a skeleton decided in the read half of a frame.
#[derive(Clone, Copy, Debug, PartialEq, Eq)]
pub struct SkeletonData {
    pub nextPos: (i32, i32),
}

/// Plain data of a skeleton, for saving.
#[derive(Clone, Copy, Debug, PartialEq, Eq)]
pub struct InnerSkeleton {
    pub id: ID,
    pub timer: u32,
    pub position: (i32, i32),
    pub idle: bool,
    pub iframeCounter: u32,
    pub health: i32,
    pub deathCounter: Option<DeathCounter>,
}

/// A position after being pushed out of each blocking tile of `cells`, in
/// order, the hitbox following the position.
pub open spec fn settle(map: TileMap, cells: Seq<(u16, u16)>, pos: (i32, i32), hb: Rect) -> (i32, i32)
    decreases cells.len(),
{
    if cells.len() == 0 {
        pos
    } else {
        let c = cells[0];
        let next = if map.spec_active_tile(c.0 as int, c.1 as int).collision is Block {
            let e = spec_block_collide(c, Rect { x: pos.0, y: pos.1, ..hb }, map);
            (clamp_i32(pos.0 + e.0), clamp_i32(pos.1 + e.1))
        } else {
            pos
        };
        settle(map, cells.drop_first(), next, hb)
    }
}

/// A skeleton after a collision message: damage lowers health unless it is
/// still recovering from a previous hit, and a hit makes it stand still.
pub open spec fn self_collided(s: Skeleton, msg: CollisionMsg) -> Skeleton {
    if msg is Damage && s.iframeCounter == 0 {
        Skeleton {
            health: clamp_i32(s.health as int - (msg->Damage_0) as int),
            iframeCounter: SKELETON_IFRAMES,
            idle: true,
            ..s
        }
    } else {
        s
    }
}

impl Skeleton {
    pub open spec fn spec_new(position: (i32, i32)) -> Skeleton {
        Skeleton {
            id: ID::spec_empty(),
            timer: 0,
            position,
            idle: false,
            hitbox: Rect { x: position.0, y: position.1, w: 50, h: 100 },
            iframeCounter: 0,
            health: 10,
            deathCounter: None,
        }
    }

    /// Where a skeleton plans to be: a step toward the player as read at the
    /// start of the frame, then pushed out of the walls it would enter; in
    /// place while idle or when there is no player.
    pub open spec fn planned(&self, map: TileMap, player: Option<(i32, i32)>) -> (i32, i32) {
        match player {
            Some(p) if !self.idle => {
                let step = step_toward(self.position, p, SKELETON_SPEED);
                match map.spec_active() {
                    Some(s) if s.spec_width() > 0 && s.spec_height() > 0 => settle(
                        map,
                        walk(spec_bounds(Rect { x: step.0, y: step.1, ..self.hitbox }, s.spec_width() as int, s.spec_height() as int)),
                        step,
                        self.hitbox,
                    ),
                    _ => step,
                }
            },
            _ => self.position,
        }
    }

    /// A skeleton at `position` (its 50 x 100 hitbox there), with full health.
    pub fn new(position: (i32, i32)) -> (r: Skeleton)
        ensures
            r.id == ID::spec_empty(),
            r.position == position,
            r.hitbox == (Rect { x: position.0, y: position.1, w: 50, h: 100 }),
            !r.idle,
            r.health == 10,
            r.iframeCounter == 0,
            r.timer == 0,
            r.deathCounter is None,
    {
        Skeleton {
            id: ID::empty(),
            timer: 0,
            position,
            idle: false,
            hitbox: Rect::new(position.0, position.1, 50, 100),
            iframeCounter: 0,
            health: 10,
            deathCounter: None,
        }
    }

    pub fn fromInner(inner: InnerSkeleton) -> (r: Skeleton)
        ensures
            r.id == inner.id,
            r.timer == inner.timer,
            r.position == inner.position,
            r.idle == inner.idle,
            r.hitbox == (Rect { x: inner.position.0, y: inner.position.1, w: 50, h: 100 }),
            r.iframeCounter == inner.iframeCounter,
            r.health == inner.health,
            r.deathCounter == inner.deathCounter,
    {
        Skeleton {
            id: inner.id,
            timer: inner.timer,
            position: inner.position,
            idle: inner.idle,
            hitbox: Rect::new(inner.position.0, inner.position.1, 50, 100),
            iframeCounter: inner.iframeCounter,
            health: inner.health,
            deathCounter: inner.deathCounter,
        }
    }

    pub fn toInner(&self) -> (r: InnerSkeleton)
        ensures
            r == (InnerSkeleton {
                id: self.id,
                timer: self.timer,
                position: self.position,
                idle: self.idle,
                iframeCounter: self.iframeCounter,
                health: self.health,
                deathCounter: self.deathCounter,
            }),
    {
        InnerSkeleton {
            id: self.id,
            timer: self.timer,
            position: self.position,
            idle: self.idle,
            iframeCounter: self.iframeCounter,
            health: self.health,
            deathCounter: self.deathCounter,
        }
    }

    pub fn collidesStatic(&self, hitbox: Rect) -> (r: bool)
        ensures
            r == rects_intersect(self.hitbox, hitbox),
    {
        self.hitbox.has_intersection(hitbox)
    }

    /// Pushes `pos` out of the blocking tiles that the rest of the walk `b`
    /// meets (`doCollision`).
    fn settleWalk(&self, map: &TileMap, b: CollisionBounds, pos: (i32, i32)) -> (r: (i32, i32))
        requires
            map.wf(),
            b.endY < u16::MAX,
        ensures
            r == settle(*map, walk(b), pos, self.hitbox),
    {
        let mut b = b;
        let mut pos = pos;
        let ghost target = settle(*map, walk(b), pos, self.hitbox);
        while b.y <= b.endY
            invariant
                map.wf(),
                b.endY < u16::MAX,
                settle(*map, walk(b), pos, self.hitbox) == target,
            decreases b.endY + 1 - b.y, 65536 - b.x,
        {
            let ghost before = b;
            let loc = (b.x, b.y);
            b.next();
            proof {
                assert(b == advance(before));
                assert(walk(before) == seq![loc] + walk(b));
                assert(walk(before).drop_first() =~= walk(b));
            }
            match map.getTile(loc).collision {
                CollisionType::Block => {
                    let moved = Rect { x: pos.0, y: pos.1, ..self.hitbox };
                    let e = blockCollide(loc, moved, map);
                    pos = (clamp_i64(pos.0 as i64 + e.0), clamp_i64(pos.1 as i64 + e.1));
                },
                _ => {},
            }
        }
        proof {
            assert(walk(b).len() == 0);
        }
        pos
    }

    /// The read half of a frame, given the player's position as it stood at
    /// the start of the frame (`None` when there is no player to chase).
    pub fn getData(&self, map: &TileMap, player: Option<(i32, i32)>) -> (r: SkeletonData)
        requires
            map.wf(),
        ensures
            r.nextPos == self.planned(*map, player),
    {
        match player {
            Some(p) if !self.idle => {
                let step = step_toward_exec(self.position, p, SKELETON_SPEED);
                let moved = Rect { x: step.0, y: step.1, ..self.hitbox };
                match map.calculateCollisionBounds(moved) {
                    Some(b) => SkeletonData { nextPos: self.settleWalk(map, b, step) },
                    None => SkeletonData { nextPos: step },
                }
            },
            _ => SkeletonData { nextPos: self.position },
        }
    }

    /// The commit half of a frame. A skeleton without health asks to be
    /// purged, to leave the collision index and to tell its death counter
    /// (by -1); otherwise it moves to the planned position and asks for its
    /// hitbox to follow.
    pub fn update(&mut self, data: &SkeletonData, out: &mut Vec<Request>)
        ensures
            old(self).health <= 0 ==> {
                &&& *final(self) == *old(self)
                &&& final(out)@ == old(out)@ + seq![
                    Request::Purge(old(self).id),
                    Request::RemoveCollision(old(self).id, old(self).hitbox),
                ] + match old(self).deathCounter {
                    Some(c) => seq![Request::Counter(Envelope { priority: 0, letter: CounterMsg(-1i32), recv: c.dst, sender: old(self).id })],
                    None => Seq::<Request>::empty(),
                }
            },
            old(self).health > 0 ==> {
                &&& final(self).position == data.nextPos
                &&& final(self).hitbox == (Rect { x: data.nextPos.0, y: data.nextPos.1, ..old(self).hitbox })
                &&& final(self).id == old(self).id
                &&& final(self).health == old(self).health
                &&& final(self).deathCounter == old(self).deathCounter
                &&& final(self).iframeCounter == if old(self).iframeCounter > 0 { (old(self).iframeCounter - 1) as u32 } else { 0 }
                &&& final(self).idle == (final(self).iframeCounter != 0)
                &&& final(self).timer == if old(self).idle { old(self).timer } else if old(self).timer >= 20 { 0 } else { (old(self).timer + 1) as u32 }
                &&& final(out)@ == old(out)@.push(Request::UpdatePosition(old(self).id, final(self).hitbox, old(self).hitbox))
            },
    {
        if self.health <= 0 {
            out.push(Request::Purge(self.id));
            out.push(Request::RemoveCollision(self.id, self.hitbox));
            if let Some(counter) = self.deathCounter {
                out.push(Request::Counter(counter.inc(Some(self.id), -1)));
            }
            return;
        }
        self.position = data.nextPos;
        let prev = self.hitbox;
        self.hitbox.reposition(data.nextPos.0, data.nextPos.1);
        out.push(Request::UpdatePosition(self.id, self.hitbox, prev));
        if !self.idle {
            self.timer = if self.timer >= 20 { 0 } else { self.timer + 1 };
        }
        if self.iframeCounter > 0 {
            self.iframeCounter = self.iframeCounter - 1;
        }
        self.idle = self.iframeCounter != 0;
    }

    /// Damage lowers health unless the skeleton is still recovering from a
    /// previous hit; a hit makes it stand still for a while.
    pub fn collide(&mut self, msg: CollisionMsg)
        ensures
            *final(self) == self_collided(*old(self), msg),
    {
        if let CollisionMsg::Damage(d) = msg {
            if self.iframeCounter == 0 {
                self.health = clamp_i64(self.health as i64 - d as i64);
                self.iframeCounter = SKELETON_IFRAMES;
                self.idle = true;
            }
        }
    }

    /// Touching the player hurts it.
    pub fn collideWith(&self, other: ID, player: ID) -> (r: Option<Envelope<CollisionMsg>>)
        ensures
            r == if other == player {
                Some(Envelope { priority: 0, letter: CollisionMsg::Damage(SKELETON_DAMAGE), recv: other, sender: self.id })
            } else {
                None
            },
    {
        if other == player {
            Some(Envelope::new(CollisionMsg::Damage(SKELETON_DAMAGE), other, self.id))
        } else {
            None
        }
    }

    pub fn register(&mut self, id: IDRegistration)
        ensures
            *final(self) == (Skeleton { deathCounter: Some(DeathCounter { dst: id->DeathCounter_0 }), ..*old(self) }),
    {
        match id {
            IDRegistration::DeathCounter(dst) => self.deathCounter = Some(DeathCounter::new(dst)),
        }
    }
}

} // verus!
