use vstd::prelude::*;
use crate::id::ID;
use crate::geometry::{Rect, rects_intersect};
use crate::common::{DeathCounter, IDRegistration};

verus! {

/// A rock that follows a path of tile positions; the first position is where it starts.
pub struct Rock {
    pub id: ID,
    pub path: Vec<(u16, u16)>,
    pub hitbox: Rect,
}

/// Plain data of a rock, for saving.
#[derive(Clone, Debug, PartialEq, Eq)]
pub struct InnerRock {
    pub id: ID,
    pub path: Vec<(u16, u16)>,
}

/// A cannon standing at a pixel position.
pub struct Cannon {
    pub id: ID,
    pub pos: (i32, i32),
    pub variant: u8,
    pub deathEvent: Option<DeathCounter>,
    pub hitbox: Rect,
    pub health: i32,
}

/// Plain data of a cannon, for saving.
#[derive(Clone, Copy, Debug, PartialEq, Eq)]
pub struct InnerCannon {
    pub id: ID,
    pub pos: (i32, i32),
    pub variant: u8,
    pub deathEvent: Option<DeathCounter>,
}

/// A copy of a list of tile positions.
pub fn copy_path(v: &Vec<(u16, u16)>) -> (r: Vec<(u16, u16)>)
    ensures
        r@ == v@,
{
    let mut r: Vec<(u16, u16)> = Vec::new();
    let mut i: usize = 0;
    while i < v.len()
        invariant
            i <= v@.len(),
            r@ == v@.subrange(0, i as int),
        decreases v@.len() - i,
    {
        r.push(v[i]);
        proof {
            assert(v@.subrange(0, i as int + 1) =~= v@.subrange(0, i as int).push(v@[i as int]));
        }
        i = i + 1;
    }
    proof {
        assert(v@.subrange(0, i as int) =~= v@);
    }
    r
}

impl Rock {
    /// The hitbox of a rock standing on the first tile of its path.
    pub open spec fn start_box(path: Seq<(u16, u16)>) -> Rect {
        Rect { x: (path[0].0 * 50) as i32, y: (path[0].1 * 50) as i32, w: 50, h: 50 }
    }

    /// A rock on the first tile of `path`.
    pub fn new(path: Vec<(u16, u16)>) -> (r: Rock)
        requires
            path@.len() > 0,
        ensures
            r.id == ID::spec_empty(),
            r.path@ == path@,
            r.hitbox == Rock::start_box(path@),
    {
        let start = path[0];
        Rock { id: ID::empty(), hitbox: Rect::new(start.0 as i32 * 50, start.1 as i32 * 50, 50, 50), path }
    }

    /// Where a rock with this path stands: its first tile (the origin
    /// when the path is empty).
    pub open spec fn home_box(path: Seq<(u16, u16)>) -> Rect {
        if path.len() > 0 { Rock::start_box(path) } else { Rect { x: 0, y: 0, w: 50, h: 50 } }
    }

    /// The rock restored from plain data.
    pub fn fromInner(inner: InnerRock) -> (r: Rock)
        ensures
            r.id == inner.id,
            r.path@ == inner.path@,
            r.hitbox == Rock::home_box(inner.path@),
    {
        if inner.path.len() == 0 {
            return Rock { id: inner.id, path: inner.path, hitbox: Rect::new(0, 0, 50, 50) };
        }
        let mut r = Rock::new(inner.path);
        r.id = inner.id;
        r
    }

    pub fn toInner(&self) -> (r: InnerRock)
        ensures
            r.id == self.id,
            r.path@ == self.path@,
    {
        InnerRock { id: self.id, path: copy_path(&self.path) }
    }

    pub fn collidesStatic(&self, hitbox: Rect) -> (r: bool)
        ensures
            r == rects_intersect(self.hitbox, hitbox),
    {
        self.hitbox.has_intersection(hitbox)
    }
}

impl Cannon {
    pub open spec fn spec_new(pos: (i32, i32)) -> Cannon {
        Cannon {
            id: ID::spec_empty(),
            pos,
            variant: 0,
            deathEvent: None,
            hitbox: Rect { x: pos.0, y: pos.1, w: 50, h: 50 },
            health: 20,
        }
    }

    /// A cannon of the first variant at `pos`.
    pub fn new(pos: (i32, i32)) -> (r: Cannon)
        ensures
            r == Cannon::spec_new(pos),
    {
        Cannon { id: ID::empty(), pos, variant: 0, deathEvent: None, hitbox: Rect::new(pos.0, pos.1, 50, 50), health: 20 }
    }

    /// The cannon restored from plain data; the second variant is sturdier.
    pub fn fromInner(inner: InnerCannon) -> (r: Cannon)
        ensures
            r == (Cannon {
                id: inner.id,
                pos: inner.pos,
                variant: inner.variant,
                deathEvent: inner.deathEvent,
                hitbox: Rect { x: inner.pos.0, y: inner.pos.1, w: 50, h: 50 },
                health: if inner.variant == 1 { 50 } else { 20 },
            }),
    {
        Cannon {
            id: inner.id,
            pos: inner.pos,
            variant: inner.variant,
            deathEvent: inner.deathEvent,
            hitbox: Rect::new(inner.pos.0, inner.pos.1, 50, 50),
            health: if inner.variant == 1 { 50 } else { 20 },
        }
    }

    pub fn toInner(&self) -> (r: InnerCannon)
        ensures
            r == (InnerCannon { id: self.id, pos: self.pos, variant: self.variant, deathEvent: self.deathEvent }),
    {
        InnerCannon { id: self.id, pos: self.pos, variant: self.variant, deathEvent: self.deathEvent }
    }

    pub fn collidesStatic(&self, hitbox: Rect) -> (r: bool)
        ensures
            r == rects_intersect(self.hitbox, hitbox),
    {
        self.hitbox.has_intersection(hitbox)
    }

    /// Remembers whom to tell on death.
    pub fn register(&mut self, id: IDRegistration)
        ensures
            *final(self) == (Cannon { deathEvent: Some(DeathCounter { dst: id->DeathCounter_0 }), ..*old(self) }),
    {
        match id {
            IDRegistration::DeathCounter(dst) => self.deathEvent = Some(DeathCounter::new(dst)),
        }
    }
}

} // verus!
