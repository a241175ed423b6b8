use vstd::prelude::*;
use crate::id::ID;
use crate::tile::{Tile, CollisionType, Side, spec_oob, side_of, first_min4, determineCollidedSide};
use crate::screen::{Screen, CollisionBounds, spec_leads_to, spec_bounds};
use crate::geometry::Rect;
use crate::common::{clamp_i32, clamp_i64};

verus! {

/// The screens of a level, each under a numeric id, and which one is active.
pub struct TileMap {
    screens: Vec<(usize, Screen)>,
    lastActiveScreen: usize,
    activeScreen: usize,
    nextId: usize,
}

/// Keys strictly increasing: the order in which the screens were added.
pub open spec fn keys_increasing(s: Seq<(usize, Screen)>) -> bool {
    forall|i: int, j: int| 0 <= i < j < s.len() ==> s[i].0 < s[j].0
}

/// Pushes a hitbox out of the tile at `location`; see `spec_block_collide`.
pub fn blockCollide(location: (u16, u16), hitbox: Rect, map: &TileMap) -> (r: (i64, i64))
    requires
        map.wf(),
    ensures
        r.0 as int == spec_block_collide(location, hitbox, *map).0,
        r.1 as int == spec_block_collide(location, hitbox, *map).1,
{
    let tx: i64 = location.0 as i64 * 50;
    let ty: i64 = location.1 as i64 * 50;
    let top: i64 = ty + 50 - hitbox.y as i64;
    let bottom: i64 = hitbox.y as i64 + hitbox.h as i64 - ty;
    let left: i64 = tx + 50 - hitbox.x as i64;
    let right: i64 = hitbox.x as i64 + hitbox.w as i64 - tx;
    if top <= 0 || bottom <= 0 || left <= 0 || right <= 0 {
        return (0, 0);
    }
    let side = determineCollidedSide((clamp_i64(top), clamp_i64(bottom), clamp_i64(left), clamp_i64(right)));
    let (beyond, eject) = match side {
        Side::Top => ((location.0, if location.1 == u16::MAX { 0 } else { location.1 + 1 }), (0i64, top)),
        Side::Bottom => ((location.0, if location.1 == 0 { u16::MAX } else { location.1 - 1 }), (0i64, -bottom)),
        Side::Left => ((if location.0 == u16::MAX { 0 } else { location.0 + 1 }, location.1), (left, 0i64)),
        Side::Right => ((if location.0 == 0 { u16::MAX } else { location.0 - 1 }, location.1), (-right, 0i64)),
    };
    match map.getTile(beyond).collision {
        CollisionType::Block | CollisionType::OOB => (0, 0),
        _ => eject,
    }
}

/// A coordinate one step up or down, wrapping around at the ends.
pub open spec fn wrap_inc(v: u16) -> u16 {
    if v == u16::MAX { 0 } else { (v + 1) as u16 }
}

pub open spec fn wrap_dec(v: u16) -> u16 {
    if v == 0 { u16::MAX } else { (v - 1) as u16 }
}

/// How far a hitbox overlapping the tile at `location` is pushed out of it:
/// through the side it entered least, unless the tile beyond that side
/// blocks too (then not at all); not at all when they do not overlap.
pub open spec fn spec_block_collide(location: (u16, u16), hb: Rect, map: TileMap) -> (int, int) {
    let tx = location.0 as int * 50;
    let ty = location.1 as int * 50;
    let top = ty + 50 - hb.y as int;
    let bottom = hb.y as int + hb.h as int - ty;
    let left = tx + 50 - hb.x as int;
    let right = hb.x as int + hb.w as int - tx;
    if top <= 0 || bottom <= 0 || left <= 0 || right <= 0 {
        (0, 0)
    } else {
        let side = side_of(first_min4((clamp_i32(top), clamp_i32(bottom), clamp_i32(left), clamp_i32(right))));
        let (beyond, eject) = match side {
            Side::Top => ((location.0, wrap_inc(location.1)), (0, top)),
            Side::Bottom => ((location.0, wrap_dec(location.1)), (0, -bottom)),
            Side::Left => ((wrap_inc(location.0), location.1), (left, 0)),
            Side::Right => ((wrap_dec(location.0), location.1), (-right, 0)),
        };
        let t = map.spec_active_tile(beyond.0 as int, beyond.1 as int);
        if t.collision is Block || t.collision is OOB {
            (0, 0)
        } else {
            eject
        }
    }
}

/// The middle of a hitbox, kept within the range of `i32`.
pub open spec fn spec_center(hb: Rect) -> (i64, i64) {
    (clamp_i32(hb.x as int + hb.w as int / 2) as i64, clamp_i32(hb.y as int + hb.h as int / 2) as i64)
}

/// A rectangle of the given size centred on `c` (kept within `i32`).
pub open spec fn spec_from_center(c: (i32, i32), w: u32, h: u32) -> Rect {
    Rect { x: clamp_i32(c.0 as int - w as int / 2), y: clamp_i32(c.1 as int - h as int / 2), w, h }
}

impl TileMap {
    /// Where a hitbox goes when its middle has left the active screen: the
    /// screen the tile under its middle leads to, or else the active screen
    /// itself, and the hitbox moved to its entry point there. `None` while
    /// its middle is on the active screen, or without an active screen.
    pub open spec fn spec_transition(&self, hb: Rect) -> Option<(usize, Rect)> {
        match self.spec_active() {
            None => None,
            Some(s) => {
                let c = spec_center(hb);
                if s.spec_width() == 0 || s.spec_height() == 0 || (0 <= c.0 < s.spec_width() * 50 && 0 <= c.1 < s.spec_height() * 50) {
                    None
                } else {
                    match spec_leads_to(s, *self, c) {
                        Some(t) => Some((t.0, spec_from_center(t.1, hb.w, hb.h))),
                        None => Some((self.spec_active_id(), spec_from_center((c.0 as i32, c.1 as i32), hb.w, hb.h))),
                    }
                }
            },
        }
    }

    pub closed spec fn wf(&self) -> bool {
        &&& keys_increasing(self.screens@)
        &&& forall|i: int| 0 <= i < self.screens@.len() ==> #[trigger] self.screens@[i].1.wf()
        &&& forall|i: int| 0 <= i < self.screens@.len() ==> #[trigger] self.screens@[i].0 < self.nextId
        &&& self.screens@.len() > 0 ==> self.has(self.activeScreen)
    }

    pub closed spec fn has(&self, k: usize) -> bool {
        exists|i: int| 0 <= i < self.screens@.len() && #[trigger] self.screens@[i].0 == k
    }

    pub closed spec fn pos(&self, k: usize) -> int {
        choose|i: int| 0 <= i < self.screens@.len() && #[trigger] self.screens@[i].0 == k
    }

    /// The screen stored under id `k`, if any.
    pub closed spec fn spec_screen(&self, k: usize) -> Option<Screen> {
        if self.has(k) {
            Some(self.screens@[self.pos(k)].1)
        } else {
            None
        }
    }

    pub closed spec fn spec_active_id(&self) -> usize {
        self.activeScreen
    }

    pub closed spec fn spec_next_id(&self) -> usize {
        self.nextId
    }

    /// The screen being played, if the map has any screen.
    pub open spec fn spec_active(&self) -> Option<Screen> {
        self.spec_screen(self.spec_active_id())
    }

    /// The tile at `(x, y)` of the active screen; the out-of-bounds tile
    /// when there is no active screen.
    pub open spec fn spec_active_tile(&self, x: int, y: int) -> Tile {
        match self.spec_active() {
            Some(s) => s.spec_tile(x, y),
            None => spec_oob(),
        }
    }

    proof fn lemma_pos(&self, i: int)
        requires
            self.wf(),
            0 <= i < self.screens@.len(),
        ensures
            self.has(self.screens@[i].0),
            self.pos(self.screens@[i].0) == i,
            self.spec_screen(self.screens@[i].0) == Some(self.screens@[i].1),
    {
        let k = self.screens@[i].0;
        assert(self.has(k));
        let p = self.pos(k);
        if p < i {
            assert(self.screens@[p].0 < self.screens@[i].0);
        } else if p > i {
            assert(self.screens@[i].0 < self.screens@[p].0);
        }
    }

    /// A map without screens.
    pub fn new() -> (r: TileMap)
        ensures
            r.wf(),
            r.spec_active() is None,
            forall|k: usize| #[trigger] r.spec_screen(k) is None,
    {
        TileMap { screens: Vec::new(), lastActiveScreen: 0, activeScreen: 0, nextId: 0 }
    }

    /// Whether a screen has the id `k`.
    fn hasKey(&self, k: usize) -> (r: bool)
        ensures
            r == self.has(k),
    {
        let mut i: usize = 0;
        while i < self.screens.len()
            invariant
                i <= self.screens@.len(),
                forall|j: int| 0 <= j < i ==> self.screens@[j].0 != k,
            decreases self.screens@.len() - i,
        {
            if self.screens[i].0 == k {
                assert(self.screens@[i as int].0 == k);
                return true;
            }
            i = i + 1;
        }
        false
    }

    /// Position in the vector of the screen with id `k`.
    fn find(&self, k: usize) -> (r: Option<usize>)
        requires
            self.wf(),
        ensures
            r is None <==> !self.has(k),
            r matches Some(i) ==> i < self.screens@.len() && self.pos(k) == i && self.screens@[i as int].0 == k,
    {
        let mut i: usize = 0;
        while i < self.screens.len()
            invariant
                i <= self.screens@.len(),
                self.wf(),
                forall|j: int| 0 <= j < i ==> self.screens@[j].0 != k,
            decreases self.screens@.len() - i,
        {
            if self.screens[i].0 == k {
                proof {
                    self.lemma_pos(i as int);
                }
                return Some(i);
            }
            i = i + 1;
        }
        None
    }

    /// Adds a `width` x `height` screen at `location` under the next id and makes it active.
    pub fn addScreen(&mut self, width: u16, height: u16, location: (u32, u32))
        requires
            old(self).wf(),
            old(self).spec_next_id() < usize::MAX,
        ensures
            final(self).wf(),
            final(self).spec_active_id() == old(self).spec_next_id(),
            final(self).spec_next_id() == old(self).spec_next_id() + 1,
            final(self).spec_active() matches Some(s) && s.spec_width() == width && s.spec_height()
                == height && s.spec_position() == location && s.spec_entities().len() == 0,
            forall|k: usize| k != old(self).spec_next_id() ==> #[trigger] final(self).spec_screen(k) == old(self).spec_screen(k),
    {
        let ghost before = *self;
        let id = self.nextId;
        self.screens.push((id, Screen::new(width, height, location)));
        self.lastActiveScreen = self.activeScreen;
        self.activeScreen = id;
        self.nextId = id + 1;
        proof {
            let n = self.screens@.len() - 1;
            assert(self.screens@[n].0 == id);
            assert forall|j: int| 0 <= j < n implies #[trigger] self.screens@[j] == before.screens@[j] by {}
            assert forall|a: int, b: int| 0 <= a < b < self.screens@.len() implies self.screens@[a].0 < self.screens@[b].0 by {
                if b < n {
                    assert(before.screens@[a].0 < before.screens@[b].0);
                } else {
                    assert(before.screens@[a].0 < before.nextId);
                }
            }
            assert forall|j: int| 0 <= j < self.screens@.len() implies #[trigger] self.screens@[j].1.wf() by {
                if j < n {
                    assert(before.screens@[j].1.wf());
                }
            }
            assert forall|j: int| 0 <= j < self.screens@.len() implies #[trigger] self.screens@[j].0 < self.nextId by {
                if j < n {
                    assert(before.screens@[j].0 < before.nextId);
                }
            }
            assert(self.has(id));
            self.lemma_pos(n);
            assert forall|k: usize| k != before.nextId implies #[trigger] self.spec_screen(k) == before.spec_screen(k) by {
                if before.has(k) {
                    let p = before.pos(k);
                    assert(self.screens@[p] == before.screens@[p]);
                    self.lemma_pos(p);
                }
                if self.has(k) {
                    let p = self.pos(k);
                    assert(p != n);
                    assert(before.screens@[p].0 == k);
                }
            }
        }
    }

    pub fn getScreen(&self, screen: usize) -> (r: Option<&Screen>)
        requires
            self.wf(),
        ensures
            r.is_some() == self.spec_screen(screen).is_some(),
            r matches Some(s) ==> self.spec_screen(screen) == Some(*s),
    {
        match self.find(screen) {
            Some(i) => Some(&self.screens[i].1),
            None => None,
        }
    }

    pub fn getActiveScreenId(&self) -> (r: usize)
        ensures
            r == self.spec_active_id(),
    {
        self.activeScreen
    }

    /// Makes the screen with id `screen` the active one; an error if there is none.
    pub fn setCurrentScreen(&mut self, screen: usize) -> (r: Result<(), &'static str>)
        requires
            old(self).wf(),
        ensures
            final(self).wf(),
            r is Ok <==> old(self).spec_screen(screen) is Some,
            final(self).spec_active_id() == if r is Ok { screen } else { old(self).spec_active_id() },
            final(self).spec_next_id() == old(self).spec_next_id(),
            forall|k: usize| #[trigger] final(self).spec_screen(k) == old(self).spec_screen(k),
    {
        if self.find(screen).is_some() {
            self.lastActiveScreen = self.activeScreen;
            self.activeScreen = screen;
            Ok(())
        } else {
            Err("Attempted to switch to invalid screen")
        }
    }

    /// The tile at `position` of the active screen (out of bounds without one).
    pub fn getTile(&self, position: (u16, u16)) -> (r: Tile)
        requires
            self.wf(),
        ensures
            r == self.spec_active_tile(position.0 as int, position.1 as int),
    {
        match self.find(self.activeScreen) {
            Some(i) => self.screens[i].1.getTile(position),
            None => Tile::OOB(),
        }
    }

    /// Replaces the tile at `position` of the active screen. Returns false, and
    /// changes nothing, when there is no active screen or the position lies outside it.
    pub fn changeTile(&mut self, position: (u16, u16), replacement: Tile) -> (r: bool)
        requires
            old(self).wf(),
        ensures
            final(self).wf(),
            r == (old(self).spec_active() matches Some(s) && position.0 < s.spec_width() && position.1 < s.spec_height()),
            final(self).spec_active_id() == old(self).spec_active_id(),
            final(self).spec_next_id() == old(self).spec_next_id(),
            forall|x: int, y: int| #[trigger] final(self).spec_active_tile(x, y) == if r && x == position.0 && y == position.1 {
                replacement
            } else {
                old(self).spec_active_tile(x, y)
            },
            final(self).spec_active() matches Some(s) ==> old(self).spec_active() matches Some(o) && s.spec_entities() == o.spec_entities()
                && s.spec_width() == o.spec_width() && s.spec_height() == o.spec_height(),
            old(self).spec_active() is Some ==> final(self).spec_active() is Some,
            forall|k: usize| k != old(self).spec_active_id() ==> #[trigger] final(self).spec_screen(k) == old(self).spec_screen(k),
    {
        let ghost before = *self;
        match self.find(self.activeScreen) {
            Some(i) => {
                let (w, h) = self.screens[i].1.getDimensions();
                if position.0 < w && position.1 < h {
                    let entry = &mut self.screens[i];
                    entry.1.replaceTile(position, replacement);
                    proof {
                        self.lemma_unchanged_keys(before, i as int);
                    }
                    true
                } else {
                    false
                }
            },
            None => false,
        }
    }

    /// After the screen at position `i` alone changed (keeping its id and
    /// staying well formed), every other id maps to what it did before.
    proof fn lemma_unchanged_keys(&self, before: TileMap, i: int)
        requires
            before.wf(),
            0 <= i < before.screens@.len(),
            self.screens@.len() == before.screens@.len(),
            self.screens@[i].0 == before.screens@[i].0,
            self.screens@[i].1.wf(),
            forall|j: int| 0 <= j < self.screens@.len() && j != i ==> self.screens@[j] == before.screens@[j],
            self.activeScreen == before.activeScreen,
            self.nextId == before.nextId,
        ensures
            self.wf(),
            self.has(before.screens@[i].0),
            self.pos(before.screens@[i].0) == i,
            self.spec_screen(before.screens@[i].0) == Some(self.screens@[i].1),
            forall|k: usize| k != before.screens@[i].0 ==> #[trigger] self.spec_screen(k) == before.spec_screen(k),
    {
        assert forall|a: int, b: int| 0 <= a < b < self.screens@.len() implies self.screens@[a].0 < self.screens@[b].0 by {
            assert(before.screens@[a].0 < before.screens@[b].0);
        }
        assert forall|j: int| 0 <= j < self.screens@.len() implies #[trigger] self.screens@[j].1.wf() by {
            if j != i {
                assert(self.screens@[j] == before.screens@[j]);
            }
        }
        assert forall|j: int| 0 <= j < self.screens@.len() implies #[trigger] self.screens@[j].0 < self.nextId by {
            if j != i {
                assert(self.screens@[j] == before.screens@[j]);
            } else {
                assert(before.screens@[j].0 < before.nextId);
            }
        }
        if self.screens@.len() > 0 {
            let p = before.pos(before.activeScreen);
            if p != i {
                assert(self.screens@[p] == before.screens@[p]);
            }
            assert(self.screens@[p].0 == self.activeScreen);
        }
        self.lemma_pos(i);
        assert forall|k: usize| k != before.screens@[i].0 implies #[trigger] self.spec_screen(k) == before.spec_screen(k) by {
            if before.has(k) {
                let p = before.pos(k);
                assert(self.screens@[p] == before.screens@[p]);
                self.lemma_pos(p);
                before.lemma_pos(p);
            }
            if self.has(k) {
                let p = self.pos(k);
                assert(before.screens@[p].0 == k);
            }
        }
    }

    /// Puts the entity on the active screen; false if there is no active
    /// screen or the entity was on it already.
    pub fn addEntityActiveScreen(&mut self, id: ID) -> (r: bool)
        requires
            old(self).wf(),
        ensures
            final(self).wf(),
            final(self).spec_active_id() == old(self).spec_active_id(),
            final(self).spec_next_id() == old(self).spec_next_id(),
            old(self).spec_active() is None ==> !r && *final(self) == *old(self),
            old(self).spec_active() matches Some(o) ==> final(self).spec_active() matches Some(s) && {
                &&& r == !o.spec_entities().contains(id.index)
                &&& s.spec_entities() == if r { o.spec_entities().push(id.index) } else { o.spec_entities() }
                &&& s.spec_width() == o.spec_width() && s.spec_height() == o.spec_height()
            },
            forall|x: int, y: int| #[trigger] final(self).spec_active_tile(x, y) == old(self).spec_active_tile(x, y),
            forall|k: usize| k != old(self).spec_active_id() ==> #[trigger] final(self).spec_screen(k) == old(self).spec_screen(k),
    {
        let ghost before = *self;
        match self.find(self.activeScreen) {
            Some(i) => {
                let entry = &mut self.screens[i];
                let r = entry.1.addEntity(id);
                proof {
                    self.lemma_unchanged_keys(before, i as int);
                }
                r
            },
            None => false,
        }
    }

    /// Takes the entity off the active screen; false if it was not there.
    pub fn removeEntityActiveScreen(&mut self, id: ID) -> (r: bool)
        requires
            old(self).wf(),
        ensures
            final(self).wf(),
            final(self).spec_active_id() == old(self).spec_active_id(),
            final(self).spec_next_id() == old(self).spec_next_id(),
            old(self).spec_active() is None ==> !r && *final(self) == *old(self),
            old(self).spec_active() matches Some(o) ==> final(self).spec_active() matches Some(s) && {
                &&& r == o.spec_entities().contains(id.index)
                &&& s.spec_entities() == o.spec_entities().filter(|e: u64| e != id.index)
                &&& !s.spec_entities().contains(id.index)
                &&& forall|e: u64| e != id.index ==> (s.spec_entities().contains(e) == o.spec_entities().contains(e))
                &&& s.spec_width() == o.spec_width() && s.spec_height() == o.spec_height()
            },
            forall|x: int, y: int| #[trigger] final(self).spec_active_tile(x, y) == old(self).spec_active_tile(x, y),
            forall|k: usize| k != old(self).spec_active_id() ==> #[trigger] final(self).spec_screen(k) == old(self).spec_screen(k),
    {
        let ghost before = *self;
        match self.find(self.activeScreen) {
            Some(i) => {
                let entry = &mut self.screens[i];
                let r = entry.1.removeEntity(id);
                proof {
                    self.lemma_unchanged_keys(before, i as int);
                }
                r
            },
            None => false,
        }
    }

    pub fn hasActiveScreen(&self) -> (r: bool)
        requires
            self.wf(),
        ensures
            r == self.spec_active() is Some,
    {
        self.find(self.activeScreen).is_some()
    }

    /// The entities of the active screen, in the order they were added.
    pub fn activeScreenEntities(&self) -> (r: Vec<ID>)
        requires
            self.wf(),
        ensures
            self.spec_active() is None ==> r@.len() == 0,
            self.spec_active() matches Some(s) ==> r@.len() == s.spec_entities().len() && forall|i: int|
                0 <= i < r@.len() ==> #[trigger] r@[i] == (ID { index: s.spec_entities()[i], sub: 0 }),
    {
        match self.find(self.activeScreen) {
            Some(i) => self.screens[i].1.getEntitiesIter(),
            None => Vec::new(),
        }
    }

    /// Whether `(x, y)` lies on the active screen.
    pub open spec fn on_active(&self, x: int, y: int) -> bool {
        self.spec_active() matches Some(s) && 0 <= x < s.spec_width() && 0 <= y < s.spec_height()
    }

    /// Places `tile` on every position of the active screen from `location`
    /// to `locationEnd`, both corners included; positions off the screen are skipped.
    pub fn spawnTiles(&mut self, tile: Tile, location: (u16, u16), locationEnd: (u16, u16))
        requires
            old(self).wf(),
        ensures
            final(self).wf(),
            final(self).spec_active_id() == old(self).spec_active_id(),
            final(self).spec_next_id() == old(self).spec_next_id(),
            forall|x: int, y: int| #[trigger] final(self).spec_active_tile(x, y) == if location.0 <= x <= locationEnd.0
                && location.1 <= y <= locationEnd.1 && old(self).on_active(x, y) {
                tile
            } else {
                old(self).spec_active_tile(x, y)
            },
            forall|x: int, y: int| #[trigger] final(self).on_active(x, y) == old(self).on_active(x, y),
            final(self).spec_active() matches Some(s) ==> old(self).spec_active() matches Some(o) && s.spec_entities() == o.spec_entities(),
            old(self).spec_active() is Some ==> final(self).spec_active() is Some,
            forall|k: usize| k != old(self).spec_active_id() ==> #[trigger] final(self).spec_screen(k) == old(self).spec_screen(k),
    {
        let ghost before = *self;
        let mut x: u32 = location.0 as u32;
        while x <= locationEnd.0 as u32
            invariant
                self.wf(),
                location.0 <= x <= locationEnd.0 as u32 + 1 || (x == location.0 && x > locationEnd.0),
                self.spec_active_id() == before.spec_active_id(),
                self.spec_next_id() == before.spec_next_id(),
                forall|xx: int, yy: int| #[trigger] self.spec_active_tile(xx, yy) == if location.0 <= xx < x
                    && location.1 <= yy <= locationEnd.1 && before.on_active(xx, yy) {
                    tile
                } else {
                    before.spec_active_tile(xx, yy)
                },
                forall|xx: int, yy: int| #[trigger] self.on_active(xx, yy) == before.on_active(xx, yy),
                self.spec_active() matches Some(s) ==> before.spec_active() matches Some(o) && s.spec_entities() == o.spec_entities(),
                before.spec_active() is Some ==> self.spec_active() is Some,
                forall|k: usize| k != before.spec_active_id() ==> #[trigger] self.spec_screen(k) == before.spec_screen(k),
            decreases locationEnd.0 as u32 + 1 - x,
        {
            let mut y: u32 = location.1 as u32;
            while y <= locationEnd.1 as u32
                invariant
                    self.wf(),
                    location.0 <= x <= locationEnd.0,
                    location.1 <= y <= locationEnd.1 as u32 + 1 || (y == location.1 && y > locationEnd.1),
                    self.spec_active_id() == before.spec_active_id(),
                    self.spec_next_id() == before.spec_next_id(),
                    forall|xx: int, yy: int| #[trigger] self.spec_active_tile(xx, yy) == if ((location.0 <= xx < x
                        && location.1 <= yy <= locationEnd.1) || (xx == x && location.1 <= yy < y)) && before.on_active(xx, yy) {
                        tile
                    } else {
                        before.spec_active_tile(xx, yy)
                    },
                    forall|xx: int, yy: int| #[trigger] self.on_active(xx, yy) == before.on_active(xx, yy),
                    self.spec_active() matches Some(s) ==> before.spec_active() matches Some(o) && s.spec_entities() == o.spec_entities(),
                    before.spec_active() is Some ==> self.spec_active() is Some,
                    forall|k: usize| k != before.spec_active_id() ==> #[trigger] self.spec_screen(k) == before.spec_screen(k),
                decreases locationEnd.1 as u32 + 1 - y,
            {
                let ghost prev = *self;
                let placed = self.changeTile((x as u16, y as u16), tile);
                proof {
                    assert(placed == prev.on_active(x as int, y as int));
                    assert forall|xx: int, yy: int| #[trigger] self.spec_active_tile(xx, yy) == if ((location.0 <= xx < x
                        && location.1 <= yy <= locationEnd.1) || (xx == x && location.1 <= yy < y + 1)) && before.on_active(xx, yy) {
                        tile
                    } else {
                        before.spec_active_tile(xx, yy)
                    } by {
                        assert(prev.spec_active_tile(xx, yy) == if ((location.0 <= xx < x
                            && location.1 <= yy <= locationEnd.1) || (xx == x && location.1 <= yy < y)) && before.on_active(xx, yy) {
                            tile
                        } else {
                            before.spec_active_tile(xx, yy)
                        });
                        assert(prev.on_active(xx, yy) == before.on_active(xx, yy));
                    }
                    assert forall|xx: int, yy: int| #[trigger] self.on_active(xx, yy) == before.on_active(xx, yy) by {
                        assert(prev.on_active(xx, yy) == before.on_active(xx, yy));
                    }
                    assert forall|k: usize| k != before.spec_active_id() implies #[trigger] self.spec_screen(k) == before.spec_screen(k) by {
                        assert(prev.spec_screen(k) == before.spec_screen(k));
                    }
                }
                y = y + 1;
            }
            x = x + 1;
        }
    }

    /// The ids of the screens, in the order they were added.
    pub fn screenIds(&self) -> (r: Vec<usize>)
        requires
            self.wf(),
        ensures
            forall|k: usize| r@.contains(k) <==> self.spec_screen(k) is Some,
    {
        let mut r: Vec<usize> = Vec::new();
        let mut i: usize = 0;
        while i < self.screens.len()
            invariant
                self.wf(),
                i <= self.screens@.len(),
                r@.len() == i,
                forall|j: int| 0 <= j < i ==> #[trigger] r@[j] == self.screens@[j].0,
            decreases self.screens@.len() - i,
        {
            r.push(self.screens[i].0);
            i = i + 1;
        }
        proof {
            assert forall|k: usize| r@.contains(k) <==> self.spec_screen(k) is Some by {
                if r@.contains(k) {
                    let j = choose|j: int| 0 <= j < r@.len() && r@[j] == k;
                    self.lemma_pos(j);
                }
                if self.spec_screen(k) is Some {
                    let p = self.pos(k);
                    assert(r@[p] == k);
                }
            }
        }
        r
    }

    /// Whether every entity index listed on any screen is below `bound`.
    pub fn entitiesBelow(&self, bound: u64) -> (r: bool)
        requires
            self.wf(),
        ensures
            r == forall|k: usize| #[trigger] self.spec_screen(k) is Some ==> crate::context::all_below(self.spec_screen(k)->0.spec_entities(), bound),
    {
        let mut i: usize = 0;
        while i < self.screens.len()
            invariant
                self.wf(),
                i <= self.screens@.len(),
                forall|j: int| 0 <= j < i ==> crate::context::all_below(#[trigger] self.screens@[j].1.spec_entities(), bound),
            decreases self.screens@.len() - i,
        {
            let ids = self.screens[i].1.getEntitiesIter();
            let mut j: usize = 0;
            while j < ids.len()
                invariant
                    self.wf(),
                    i < self.screens@.len(),
                    j <= ids@.len(),
                    ids@.len() == self.screens@[i as int].1.spec_entities().len(),
                    forall|q: int| 0 <= q < ids@.len() ==> #[trigger] ids@[q] == (ID { index: self.screens@[i as int].1.spec_entities()[q], sub: 0 }),
                    forall|q: int| 0 <= q < j ==> #[trigger] self.screens@[i as int].1.spec_entities()[q] < bound,
                decreases ids@.len() - j,
            {
                if ids[j].index >= bound {
                    proof {
                        self.lemma_pos(i as int);
                        let k = self.screens@[i as int].0;
                        assert(self.spec_screen(k) == Some(self.screens@[i as int].1));
                        assert(self.screens@[i as int].1.spec_entities()[j as int] >= bound);
                    }
                    return false;
                }
                j = j + 1;
            }
            assert(crate::context::all_below(self.screens@[i as int].1.spec_entities(), bound));
            i = i + 1;
        }
        proof {
            assert forall|k: usize| #[trigger] self.spec_screen(k) is Some implies crate::context::all_below(self.spec_screen(k)->0.spec_entities(), bound) by {
                let p = self.pos(k);
                assert(crate::context::all_below(self.screens@[p].1.spec_entities(), bound));
            }
        }
        true
    }

    /// Moves the active screen to `newPos` on the overview of the level.
    pub fn moveActiveScreen(&mut self, newPos: (u32, u32))
        requires
            old(self).wf(),
        ensures
            final(self).wf(),
            final(self).spec_active_id() == old(self).spec_active_id(),
            old(self).spec_active() is None ==> *final(self) == *old(self),
            old(self).spec_active() matches Some(o) ==> (final(self).spec_active() matches Some(s)
                && s.spec_position() == newPos && s.spec_entities() == o.spec_entities()
                && s.spec_width() == o.spec_width() && s.spec_height() == o.spec_height()),
            forall|x: int, y: int| #[trigger] final(self).spec_active_tile(x, y) == old(self).spec_active_tile(x, y),
            forall|k: usize| k != old(self).spec_active_id() ==> #[trigger] final(self).spec_screen(k) == old(self).spec_screen(k),
    {
        let ghost before = *self;
        match self.find(self.activeScreen) {
            Some(i) => {
                let entry = &mut self.screens[i];
                entry.1.moveToPosition(newPos);
                proof {
                    self.lemma_unchanged_keys(before, i as int);
                }
            },
            None => {},
        }
    }

    /// Makes the next screen (by id) the active one, if there is one.
    pub fn incrementCurrentScreen(&mut self)
        requires
            old(self).wf(),
        ensures
            final(self).wf(),
            forall|k: usize| #[trigger] final(self).spec_screen(k) == old(self).spec_screen(k),
            final(self).spec_active_id() == old(self).spec_active_id() || (final(self).spec_active_id() > old(self).spec_active_id()
                && final(self).spec_screen(final(self).spec_active_id()) is Some
                && forall|k: usize| old(self).spec_active_id() < k < final(self).spec_active_id() ==> #[trigger] old(self).spec_screen(k) is None),
    {
        let mut best: Option<usize> = None;
        let mut i: usize = 0;
        while i < self.screens.len()
            invariant
                self.wf(),
                i <= self.screens@.len(),
                best matches Some(b) ==> b > self.activeScreen && self.has(b)
                    && forall|j: int| 0 <= j < i && self.screens@[j].0 > self.activeScreen ==> b <= #[trigger] self.screens@[j].0,
                best is None ==> forall|j: int| 0 <= j < i ==> #[trigger] self.screens@[j].0 <= self.activeScreen,
            decreases self.screens@.len() - i,
        {
            let k = self.screens[i].0;
            if k > self.activeScreen {
                match best {
                    Some(b) => {
                        if k < b {
                            best = Some(k);
                        }
                    },
                    None => {
                        best = Some(k);
                    },
                }
            }
            i = i + 1;
        }
        match best {
            Some(b) => {
                proof {
                    assert forall|k: usize| self.activeScreen < k < b implies #[trigger] self.spec_screen(k) is None by {
                        if self.has(k) {
                            let p = self.pos(k);
                            assert(b <= self.screens@[p].0);
                        }
                    }
                }
                self.lastActiveScreen = self.activeScreen;
                self.activeScreen = b;
            },
            None => {},
        }
    }

    /// Makes the previous screen (by id) the active one, if there is one.
    pub fn decrementCurrentScreen(&mut self)
        requires
            old(self).wf(),
        ensures
            final(self).wf(),
            forall|k: usize| #[trigger] final(self).spec_screen(k) == old(self).spec_screen(k),
            final(self).spec_active_id() == old(self).spec_active_id() || (final(self).spec_active_id() < old(self).spec_active_id()
                && final(self).spec_screen(final(self).spec_active_id()) is Some
                && forall|k: usize| final(self).spec_active_id() < k < old(self).spec_active_id() ==> #[trigger] old(self).spec_screen(k) is None),
    {
        let mut best: Option<usize> = None;
        let mut i: usize = 0;
        while i < self.screens.len()
            invariant
                self.wf(),
                i <= self.screens@.len(),
                best matches Some(b) ==> b < self.activeScreen && self.has(b)
                    && forall|j: int| 0 <= j < i && self.screens@[j].0 < self.activeScreen ==> #[trigger] self.screens@[j].0 <= b,
                best is None ==> forall|j: int| 0 <= j < i ==> #[trigger] self.screens@[j].0 >= self.activeScreen,
            decreases self.screens@.len() - i,
        {
            let k = self.screens[i].0;
            if k < self.activeScreen {
                match best {
                    Some(b) => {
                        if k > b {
                            best = Some(k);
                        }
                    },
                    None => {
                        best = Some(k);
                    },
                }
            }
            i = i + 1;
        }
        match best {
            Some(b) => {
                proof {
                    assert forall|k: usize| b < k < self.activeScreen implies #[trigger] self.spec_screen(k) is None by {
                        if self.has(k) {
                            let p = self.pos(k);
                            assert(self.screens@[p].0 <= b);
                        }
                    }
                }
                self.lastActiveScreen = self.activeScreen;
                self.activeScreen = b;
            },
            None => {},
        }
    }

    /// Moves play to the screen a hitbox leaves into (see `spec_transition`)
    /// and returns the hitbox placed at its entry point there.
    pub fn transitionScreen(&mut self, hitbox: Rect) -> (r: Option<Rect>)
        requires
            old(self).wf(),
        ensures
            final(self).wf(),
            forall|k: usize| #[trigger] final(self).spec_screen(k) == old(self).spec_screen(k),
            final(self).spec_next_id() == old(self).spec_next_id(),
            old(self).spec_transition(hitbox) matches Some(t) ==> r == Some(t.1) && final(self).spec_active_id() == t.0,
            old(self).spec_transition(hitbox) is None ==> r is None && *final(self) == *old(self),
    {
        let i = match self.find(self.activeScreen) {
            Some(i) => i,
            None => {
                return None;
            },
        };
        let (w, h) = self.screens[i].1.getDimensions();
        let (cx, cy) = hitbox.center();
        let c = (clamp_i64(cx) as i64, clamp_i64(cy) as i64);
        if w == 0 || h == 0 || (0 <= c.0 && c.0 < w as i64 * 50 && 0 <= c.1 && c.1 < h as i64 * 50) {
            return None;
        }
        let (screen, center) = match self.screens[i].1.getScreen(c, self) {
            Some(found) => found,
            None => (self.activeScreen, (c.0 as i32, c.1 as i32)),
        };
        proof {
            if let Some(t) = spec_leads_to(self.screens@[i as int].1, *self, c) {
                assert(self.spec_screen(t.0) is Some);
            }
        }
        self.lastActiveScreen = self.activeScreen;
        self.activeScreen = screen;
        let x = clamp_i64(center.0 as i64 - (hitbox.w / 2) as i64);
        let y = clamp_i64(center.1 as i64 - (hitbox.h / 2) as i64);
        Some(Rect::new(x, y, hitbox.w, hitbox.h))
    }

    /// The walk over the cells of the active screen that `hitbox` covers;
    /// `None` without an active screen of positive size.
    pub fn calculateCollisionBounds(&self, hitbox: Rect) -> (r: Option<CollisionBounds>)
        requires
            self.wf(),
        ensures
            r is Some == (self.spec_active() matches Some(s) && s.spec_width() > 0 && s.spec_height() > 0),
            r matches Some(b) ==> b == spec_bounds(hitbox, self.spec_active()->0.spec_width() as int, self.spec_active()->0.spec_height() as int)
                && b.endY < u16::MAX,
    {
        match self.find(self.activeScreen) {
            Some(i) => {
                let (w, h) = self.screens[i].1.getDimensions();
                if w > 0 && h > 0 {
                    Some(self.screens[i].1.calculateCollisionBounds(hitbox))
                } else {
                    None
                }
            },
            None => None,
        }
    }

    /// Takes the active screen out of the map, unless it is the only one,
    /// and hands it back. The screen active before it becomes active again
    /// when it is still there; otherwise the first screen added does.
    pub fn popActiveScreen(&mut self) -> (r: Option<Screen>)
        requires
            old(self).wf(),
        ensures
            final(self).wf(),
            r is Some <==> (old(self).spec_active() is Some && exists|k: usize| k != old(self).spec_active_id() && #[trigger] old(self).spec_screen(k) is Some),
            r is None ==> *final(self) == *old(self),
            r matches Some(s) ==> {
                &&& Some(s) == old(self).spec_active()
                &&& final(self).spec_screen(old(self).spec_active_id()) is None
                &&& forall|k: usize| k != old(self).spec_active_id() ==> #[trigger] final(self).spec_screen(k) == old(self).spec_screen(k)
                &&& final(self).spec_active() is Some
            },
            final(self).spec_next_id() == old(self).spec_next_id(),
    {
        let ghost before = *self;
        let i = match self.find(self.activeScreen) {
            Some(i) => i,
            None => {
                proof {
                    if exists|k: usize| k != before.activeScreen && #[trigger] before.spec_screen(k) is Some {
                        let k = choose|k: usize| k != before.activeScreen && #[trigger] before.spec_screen(k) is Some;
                        assert(before.screens@.len() > 0);
                    }
                }
                return None;
            },
        };
        if self.screens.len() <= 1 {
            proof {
                if exists|k: usize| k != before.activeScreen && #[trigger] before.spec_screen(k) is Some {
                    let k = choose|k: usize| k != before.activeScreen && #[trigger] before.spec_screen(k) is Some;
                    let p = before.pos(k);
                    assert(p == 0 && i == 0);
                }
            }
            return None;
        }
        proof {
            let other = if i == 0 { 1int } else { 0int };
            before.lemma_pos(other);
            assert(before.screens@[other].0 != before.activeScreen) by {
                if other < i {
                    assert(before.screens@[other].0 < before.screens@[i as int].0);
                } else {
                    assert(before.screens@[i as int].0 < before.screens@[other].0);
                }
            }
        }
        let (_, screen) = self.screens.remove(i);
        let removed = self.activeScreen;
        let keepLast = self.lastActiveScreen != removed && self.hasKey(self.lastActiveScreen);
        let next = if keepLast { self.lastActiveScreen } else { self.screens[0].0 };
        self.activeScreen = next;
        self.lastActiveScreen = next;
        proof {
            let s = before.screens@;
            assert forall|a: int, b: int| 0 <= a < b < self.screens@.len() implies self.screens@[a].0 < self.screens@[b].0 by {
                let a0 = if a < i { a } else { a + 1 };
                let b0 = if b < i { b } else { b + 1 };
                assert(s[a0].0 < s[b0].0);
            }
            assert forall|j: int| 0 <= j < self.screens@.len() implies #[trigger] self.screens@[j].1.wf() && self.screens@[j].0 < self.nextId by {
                let j0 = if j < i { j } else { j + 1 };
                assert(s[j0].1.wf());
                assert(s[j0].0 < before.nextId);
            }
            assert(self.screens@[0].0 == self.screens@[0].0);
            assert(self.has(next));
            assert forall|k: usize| k != removed implies #[trigger] self.spec_screen(k) == before.spec_screen(k) by {
                if self.has(k) {
                    let p = self.pos(k);
                    let p0 = if p < i { p } else { p + 1 };
                    assert(s[p0].0 == k);
                    before.lemma_pos(p0);
                    self.lemma_pos(p);
                }
                if before.has(k) {
                    let p = before.pos(k);
                    assert(p != i);
                    let p1 = if p < i { p } else { p - 1 };
                    assert(self.screens@[p1].0 == k);
                    self.lemma_pos(p1);
                    before.lemma_pos(p);
                }
            }
            if self.has(removed) {
                let p = self.pos(removed);
                let p0 = if p < i { p } else { p + 1 };
                assert(s[p0].0 == removed);
                if p0 < i { assert(s[p0].0 < s[i as int].0); } else { assert(s[i as int].0 < s[p0].0); }
            }
            before.lemma_pos(i as int);
        }
        Some(screen)
    }
}

} // verus!
