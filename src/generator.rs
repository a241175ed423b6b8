use vstd::prelude::*;
use crate::id::ID;
use crate::geometry::{Rect, rects_intersect};
use crate::tile::Tile;
use crate::message::Command;

verus! {

/// The counter after adding `amt`, kept within `0..=255`.
pub open spec fn clamp_count(cnt: u8, amt: i32) -> u8 {
    let v = cnt as int + amt as int;
    if v < 0 {
        0
    } else if v > 255 {
        255
    } else {
        v as u8
    }
}

/// One `PlaceTile` command per tile, in order.
pub open spec fn place_commands(tiles: Seq<(Tile, (u16, u16))>) -> Seq<Command> {
    tiles.map_values(|t: (Tile, (u16, u16))| Command::PlaceTile(t.0, t.1))
}

/// One `ActivateEntity` command per entity, in order.
pub open spec fn activate_commands(entities: Seq<(ID, bool)>) -> Seq<Command> {
    entities.map_values(|e: (ID, bool)| Command::ActivateEntity(e.0, e.1))
}

/// Places its tiles once its counter reaches zero.
pub struct Generator {
    pub renderRect: Rect,
    pub tiles: Vec<(Tile, (u16, u16))>,
    pub editor: bool,
    pub cnt: u8,
}

/// A generator that, besides its tiles, activates entities once its counter
/// reaches zero; each entity is activated globally or on the active screen,
/// as its flag says.
pub struct EntityGenerator {
    pub gen: Generator,
    pub entities: Vec<(ID, bool)>,
}

/// Plain data of a generator, for saving.
#[derive(Clone, Debug, PartialEq, Eq)]
pub struct InnerGenerator {
    pub renderRect: Rect,
    pub tiles: Vec<(Tile, (u16, u16))>,
    pub cnt: u8,
}

/// Plain data of an entity generator, for saving.
#[derive(Clone, Debug, PartialEq, Eq)]
pub struct InnerEntityGenerator {
    pub gen: InnerGenerator,
    pub entities: Vec<(ID, bool)>,
}

impl Generator {
    /// A generator drawn at `pos` (pixels) that waits for `cnt` decrements.
    pub fn new(pos: (i32, i32), tiles: Vec<(Tile, (u16, u16))>, cnt: u8) -> (r: Generator)
        ensures
            r.renderRect == (Rect { x: pos.0, y: pos.1, w: 50, h: 50 }),
            r.tiles@ == tiles@,
            r.editor,
            r.cnt == cnt,
    {
        Generator { renderRect: Rect::new(pos.0, pos.1, 50, 50), tiles, editor: true, cnt }
    }

    pub fn fromInner(inner: InnerGenerator) -> (r: Generator)
        ensures
            r.renderRect == (Rect { x: inner.renderRect.x, y: inner.renderRect.y, w: 50, h: 50 }),
            r.tiles@ == inner.tiles@,
            r.editor,
            r.cnt == inner.cnt,
    {
        Generator::new((inner.renderRect.x, inner.renderRect.y), inner.tiles, inner.cnt)
    }

    pub fn toInner(&self) -> (r: InnerGenerator)
        ensures
            r.renderRect == self.renderRect,
            r.tiles@ == self.tiles@,
            r.cnt == self.cnt,
    {
        InnerGenerator {
            renderRect: self.renderRect,
            tiles: copy_tiles(&self.tiles),
            cnt: self.cnt,
        }
    }

    pub fn collidesStatic(&self, hitbox: Rect) -> (r: bool)
        ensures
            r == rects_intersect(self.renderRect, hitbox),
    {
        self.renderRect.has_intersection(hitbox)
    }

    /// Once the counter is zero, queues a `PlaceTile` for each tile, in
    /// order, and forgets the tiles, so that they are placed only once.
    fn activate(&mut self, commands: &mut Vec<Command>)
        ensures
            final(self).cnt == old(self).cnt,
            final(self).renderRect == old(self).renderRect,
            final(self).editor == old(self).editor,
            old(self).cnt == 0 ==> final(self).tiles@.len() == 0 && final(commands)@ == old(commands)@ + place_commands(old(self).tiles@),
            old(self).cnt != 0 ==> final(self).tiles@ == old(self).tiles@ && final(commands)@ == old(commands)@,
    {
        if self.cnt == 0 {
            let ghost start = commands@;
            let ghost tiles = self.tiles@;
            let mut i: usize = 0;
            while i < self.tiles.len()
                invariant
                    i <= tiles.len(),
                    self.tiles@ == tiles,
                    commands@ == start + place_commands(tiles.subrange(0, i as int)),
                decreases tiles.len() - i,
            {
                let (tile, location) = self.tiles[i];
                commands.push(Command::PlaceTile(tile, location));
                proof {
                    assert(place_commands(tiles.subrange(0, i as int + 1)) =~= place_commands(tiles.subrange(0, i as int)).push(Command::PlaceTile(tile, location)));
                }
                i = i + 1;
            }
            proof {
                assert(tiles.subrange(0, i as int) =~= tiles);
            }
            self.tiles.clear();
        }
    }

    /// Adds `amt` to the counter (kept within `0..=255`), then activates.
    pub fn inc(&mut self, amt: i32, commands: &mut Vec<Command>)
        ensures
            final(self).cnt == clamp_count(old(self).cnt, amt),
            final(self).renderRect == old(self).renderRect,
            final(self).editor == old(self).editor,
            final(self).cnt == 0 ==> final(self).tiles@.len() == 0 && final(commands)@ == old(commands)@ + place_commands(old(self).tiles@),
            final(self).cnt != 0 ==> final(self).tiles@ == old(self).tiles@ && final(commands)@ == old(commands)@,
    {
        let v: i64 = self.cnt as i64 + amt as i64;
        self.cnt = if v < 0 {
            0
        } else if v > 255 {
            255
        } else {
            v as u8
        };
        self.activate(commands);
    }

    /// The commit half of a frame: the editor marker goes away once the game runs.
    pub fn update(&mut self)
        ensures
            !final(self).editor,
            final(self).cnt == old(self).cnt,
            final(self).tiles@ == old(self).tiles@,
            final(self).renderRect == old(self).renderRect,
    {
        self.editor = false;
    }

    pub fn needsExecution(&self) -> (r: bool)
        ensures
            r == self.editor,
    {
        self.editor
    }
}

impl EntityGenerator {
    pub fn new(pos: (i32, i32), tiles: Vec<(Tile, (u16, u16))>, entities: Vec<(ID, bool)>, cnt: u8) -> (r: EntityGenerator)
        ensures
            r.gen.renderRect == (Rect { x: pos.0, y: pos.1, w: 50, h: 50 }),
            r.gen.tiles@ == tiles@,
            r.gen.editor,
            r.gen.cnt == cnt,
            r.entities@ == entities@,
    {
        EntityGenerator { gen: Generator::new(pos, tiles, cnt), entities }
    }

    pub fn fromInner(inner: InnerEntityGenerator) -> (r: EntityGenerator)
        ensures
            r.gen.renderRect == (Rect { x: inner.gen.renderRect.x, y: inner.gen.renderRect.y, w: 50, h: 50 }),
            r.gen.tiles@ == inner.gen.tiles@,
            r.gen.editor,
            r.gen.cnt == inner.gen.cnt,
            r.entities@ == inner.entities@,
    {
        EntityGenerator { gen: Generator::fromInner(inner.gen), entities: inner.entities }
    }

    pub fn toInner(&self) -> (r: InnerEntityGenerator)
        ensures
            r.gen.renderRect == self.gen.renderRect,
            r.gen.tiles@ == self.gen.tiles@,
            r.gen.cnt == self.gen.cnt,
            r.entities@ == self.entities@,
    {
        InnerEntityGenerator { gen: self.gen.toInner(), entities: copy_pending(&self.entities) }
    }

    pub fn collidesStatic(&self, hitbox: Rect) -> (r: bool)
        ensures
            r == rects_intersect(self.gen.renderRect, hitbox),
    {
        self.gen.renderRect.has_intersection(hitbox)
    }

    /// Once the counter is zero, queues an activation of each pending entity,
    /// in order, and forgets them.
    fn activate(&mut self, commands: &mut Vec<Command>)
        ensures
            final(self).gen == old(self).gen,
            old(self).gen.cnt == 0 ==> final(self).entities@.len() == 0 && final(commands)@ == old(commands)@ + activate_commands(old(self).entities@),
            old(self).gen.cnt != 0 ==> final(self).entities@ == old(self).entities@ && final(commands)@ == old(commands)@,
    {
        if self.gen.cnt == 0 {
            let ghost start = commands@;
            let ghost pending = self.entities@;
            let mut i: usize = 0;
            while i < self.entities.len()
                invariant
                    i <= pending.len(),
                    self.entities@ == pending,
                    commands@ == start + activate_commands(pending.subrange(0, i as int)),
                decreases pending.len() - i,
            {
                let (entity, global) = self.entities[i];
                commands.push(Command::ActivateEntity(entity, global));
                proof {
                    assert(activate_commands(pending.subrange(0, i as int + 1)) =~= activate_commands(pending.subrange(0, i as int)).push(Command::ActivateEntity(entity, global)));
                }
                i = i + 1;
            }
            proof {
                assert(pending.subrange(0, i as int) =~= pending);
            }
            self.entities.clear();
        }
    }

    /// Adds `amt` to the counter like a generator (placing the tiles once it
    /// reaches zero), then activates the pending entities.
    pub fn inc(&mut self, amt: i32, commands: &mut Vec<Command>)
        ensures
            final(self).gen.cnt == clamp_count(old(self).gen.cnt, amt),
            final(self).gen.renderRect == old(self).gen.renderRect,
            final(self).gen.editor == old(self).gen.editor,
            final(self).gen.cnt == 0 ==> {
                &&& final(self).gen.tiles@.len() == 0
                &&& final(self).entities@.len() == 0
                &&& final(commands)@ == old(commands)@ + place_commands(old(self).gen.tiles@) + activate_commands(old(self).entities@)
            },
            final(self).gen.cnt != 0 ==> {
                &&& final(self).gen.tiles@ == old(self).gen.tiles@
                &&& final(self).entities@ == old(self).entities@
                &&& final(commands)@ == old(commands)@
            },
    {
        self.gen.inc(amt, commands);
        self.activate(commands);
    }

    pub fn update(&mut self)
        ensures
            !final(self).gen.editor,
            final(self).gen.cnt == old(self).gen.cnt,
            final(self).gen.tiles@ == old(self).gen.tiles@,
            final(self).gen.renderRect == old(self).gen.renderRect,
            final(self).entities@ == old(self).entities@,
    {
        self.gen.update();
    }

    pub fn needsExecution(&self) -> (r: bool)
        ensures
            r == self.gen.editor,
    {
        self.gen.editor
    }
}

/// A copy of a tile list.
pub fn copy_tiles(v: &Vec<(Tile, (u16, u16))>) -> (r: Vec<(Tile, (u16, u16))>)
    ensures
        r@ == v@,
{
    let mut r: Vec<(Tile, (u16, u16))> = Vec::new();
    let mut i: usize = 0;
    while i < v.len()
        invariant
            i <= v@.len(),
            r@ == v@.subrange(0, i as int),
        decreases v@.len() - i,
    {
        r.push(v[i]);
        proof {
            assert(v@.subrange(0, i as int + 1) =~= v@.subrange(0, i as int).push(v@[i as int]));
        }
        i = i + 1;
    }
    proof {
        assert(v@.subrange(0, i as int) =~= v@);
    }
    r
}

/// A copy of a list of pending entities.
pub fn copy_pending(v: &Vec<(ID, bool)>) -> (r: Vec<(ID, bool)>)
    ensures
        r@ == v@,
{
    let mut r: Vec<(ID, bool)> = Vec::new();
    let mut i: usize = 0;
    while i < v.len()
        invariant
            i <= v@.len(),
            r@ == v@.subrange(0, i as int),
        decreases v@.len() - i,
    {
        r.push(v[i]);
        proof {
            assert(v@.subrange(0, i as int + 1) =~= v@.subrange(0, i as int).push(v@[i as int]));
        }
        i = i + 1;
    }
    proof {
        assert(v@.subrange(0, i as int) =~= v@);
    }
    r
}

} // verus!
