use vstd::prelude::*;
use crate::id::{ID, Direction, EMPTY_INDEX};
use crate::geometry::Rect;
use crate::tile::Tile;
use crate::entity::Entity;
use crate::player::Player;
use crate::skeleton::Skeleton;
use crate::generator::{Generator, EntityGenerator, copy_tiles, copy_pending};
use crate::snake::Snake;
use crate::rock::{Rock, Cannon};
use crate::common::IDRegistration;
use crate::context::{GameContext, all_below};

verus! {

/// Highest entity code the builder knows: player, skeleton, generator,
/// entity generator, snake, rock, cannon.
pub const MAX_ENTITY_IDX: u16 = 6;

pub const ASK_TILE: &'static str = "Pick the next tile";
pub const ASK_LINK: &'static str = "Pick entities to link";
pub const ASK_INACTIVE: &'static str = "Place the entity to spawn";
pub const ASK_DIRECTION: &'static str = "Type initial direction for snake to face: ";
pub const ASK_PATH: &'static str = "Pick next location in path (tile is ignored)";

/// What an `EntityBuilder` needs next, or the finished entity.
pub enum EntityBuilderSignals {
    Complete(Entity),
    GetTile(&'static str),
    GetEntity(&'static str),
    MakeEntityInactive(&'static str),
    GetDirection(&'static str),
    IsGlobal,
    InvalidId,
}

/// Collects, one answer at a time, what an entity of a given code needs
/// before it can be placed at a tile position.
pub struct EntityBuilder {
    pub id: u16,
    pub position: (u16, u16),
    /// Tiles (with their positions) to collect, and whether the list is closed.
    pub locations: (Vec<(Tile, (u16, u16))>, bool),
    /// Entities whose deaths count down the new generator, and whether the list is closed.
    pub linkedIDs: (Vec<ID>, bool),
    /// Entities the new generator activates, and whether the list is closed.
    pub inactiveEntities: (Vec<(ID, bool)>, bool),
    pub global: Option<bool>,
    pub dir: Option<Direction>,
}

/// The pixel position of a tile position.
pub open spec fn pixel_of(p: (u16, u16)) -> (i32, i32) {
    ((p.0 * 50) as i32, (p.1 * 50) as i32)
}

impl EntityBuilder {
    pub fn new(id: u16, position: (u16, u16)) -> (r: EntityBuilder)
        ensures
            r.id == id,
            r.position == position,
            r.locations.0@.len() == 0 && !r.locations.1,
            r.linkedIDs.0@.len() == 0 && !r.linkedIDs.1,
            r.inactiveEntities.0@.len() == 0 && !r.inactiveEntities.1,
            r.global is None,
            r.dir is None,
    {
        EntityBuilder {
            id,
            position,
            locations: (Vec::new(), false),
            linkedIDs: (Vec::new(), false),
            inactiveEntities: (Vec::new(), false),
            global: None,
            dir: None,
        }
    }

    fn pixels(&self) -> (r: (i32, i32))
        ensures
            r == pixel_of(self.position),
    {
        (self.position.0 as i32 * 50, self.position.1 as i32 * 50)
    }

    /// The finished entity, or what is still missing: a skeleton needs to
    /// know whether it runs globally; a generator needs its tile list closed,
    /// then its linked list; an entity generator needs those and then its
    /// list of entities to activate; a snake needs a direction. A generator
    /// counts down from the number of linked entities (modulo 256).
    pub fn build(&self) -> (r: EntityBuilderSignals)
        ensures
            self.id == 0 ==> (r matches EntityBuilderSignals::Complete(Entity::Player(p)) && p == Player::spec_new(pixel_of(self.position))),
            self.id == 1 ==> if self.global is Some {
                r matches EntityBuilderSignals::Complete(Entity::Skeleton(s)) && s == Skeleton::spec_new(pixel_of(self.position))
            } else {
                r is IsGlobal
            },
            self.id == 2 ==> if self.locations.1 && self.linkedIDs.1 {
                r matches EntityBuilderSignals::Complete(Entity::Generator(g)) && g.tiles@ == self.locations.0@
                    && g.cnt == (self.linkedIDs.0@.len() % 256) as u8 && g.editor
                    && g.renderRect == (Rect { x: pixel_of(self.position).0, y: pixel_of(self.position).1, w: 50, h: 50 })
            } else if self.locations.1 {
                r == EntityBuilderSignals::GetEntity(ASK_LINK)
            } else {
                r == EntityBuilderSignals::GetTile(ASK_TILE)
            },
            self.id == 3 ==> if self.locations.1 && self.linkedIDs.1 && self.inactiveEntities.1 {
                r matches EntityBuilderSignals::Complete(Entity::EntityGenerator(g)) && g.gen.tiles@ == self.locations.0@
                    && g.entities@ == self.inactiveEntities.0@ && g.gen.cnt == (self.linkedIDs.0@.len() % 256) as u8 && g.gen.editor
                    && g.gen.renderRect == (Rect { x: pixel_of(self.position).0, y: pixel_of(self.position).1, w: 50, h: 50 })
            } else if self.locations.1 && self.linkedIDs.1 {
                r == EntityBuilderSignals::MakeEntityInactive(ASK_INACTIVE)
            } else if self.locations.1 {
                r == EntityBuilderSignals::GetEntity(ASK_LINK)
            } else {
                r == EntityBuilderSignals::GetTile(ASK_TILE)
            },
            self.id == 4 ==> match self.dir {
                Some(d) => (r matches EntityBuilderSignals::Complete(Entity::Snake(s)) && s == Snake::spec_new(self.position, d)),
                None => r == EntityBuilderSignals::GetDirection(ASK_DIRECTION),
            },
            self.id == 5 ==> if self.locations.1 && self.locations.0@.len() > 0 {
                r matches EntityBuilderSignals::Complete(Entity::Rock(x)) && x.id == ID::spec_empty()
                    && x.path@ == self.locations.0@.map_values(|t: (Tile, (u16, u16))| t.1)
            } else {
                r == EntityBuilderSignals::GetTile(ASK_PATH)
            },
            self.id == 6 ==> (r matches EntityBuilderSignals::Complete(Entity::Cannon(c)) && c == Cannon::spec_new(pixel_of(self.position))),
            self.id > MAX_ENTITY_IDX ==> r is InvalidId,
    {
        match self.id {
            0 => EntityBuilderSignals::Complete(Entity::Player(Player::new(self.pixels()))),
            1 => {
                if self.global.is_some() {
                    EntityBuilderSignals::Complete(Entity::Skeleton(Skeleton::new(self.pixels())))
                } else {
                    EntityBuilderSignals::IsGlobal
                }
            },
            2 => {
                if self.locations.1 && self.linkedIDs.1 {
                    let cnt = (self.linkedIDs.0.len() % 256) as u8;
                    EntityBuilderSignals::Complete(Entity::Generator(Generator::new(self.pixels(), copy_tiles(&self.locations.0), cnt)))
                } else if self.locations.1 {
                    EntityBuilderSignals::GetEntity(ASK_LINK)
                } else {
                    EntityBuilderSignals::GetTile(ASK_TILE)
                }
            },
            3 => {
                if self.locations.1 && self.linkedIDs.1 && self.inactiveEntities.1 {
                    let cnt = (self.linkedIDs.0.len() % 256) as u8;
                    EntityBuilderSignals::Complete(Entity::EntityGenerator(EntityGenerator::new(
                        self.pixels(),
                        copy_tiles(&self.locations.0),
                        copy_pending(&self.inactiveEntities.0),
                        cnt,
                    )))
                } else if self.locations.1 && self.linkedIDs.1 {
                    EntityBuilderSignals::MakeEntityInactive(ASK_INACTIVE)
                } else if self.locations.1 {
                    EntityBuilderSignals::GetEntity(ASK_LINK)
                } else {
                    EntityBuilderSignals::GetTile(ASK_TILE)
                }
            },
            4 => {
                match self.dir {
                    Some(d) => EntityBuilderSignals::Complete(Entity::Snake(Snake::new(self.position, d))),
                    None => EntityBuilderSignals::GetDirection(ASK_DIRECTION),
                }
            },
            5 => {
                if self.locations.1 && self.locations.0.len() > 0 {
                    EntityBuilderSignals::Complete(Entity::Rock(Rock::new(self.path())))
                } else {
                    EntityBuilderSignals::GetTile(ASK_PATH)
                }
            },
            6 => EntityBuilderSignals::Complete(Entity::Cannon(Cannon::new(self.pixels()))),
            _ => EntityBuilderSignals::InvalidId,
        }
    }

    /// The positions of the collected tiles, in order.
    fn path(&self) -> (r: Vec<(u16, u16)>)
        ensures
            r@ == self.locations.0@.map_values(|t: (Tile, (u16, u16))| t.1),
    {
        let mut r: Vec<(u16, u16)> = Vec::new();
        let mut i: usize = 0;
        while i < self.locations.0.len()
            invariant
                i <= self.locations.0@.len(),
                r@ == self.locations.0@.subrange(0, i as int).map_values(|t: (Tile, (u16, u16))| t.1),
            decreases self.locations.0@.len() - i,
        {
            r.push(self.locations.0[i].1);
            proof {
                assert(self.locations.0@.subrange(0, i as int + 1).map_values(|t: (Tile, (u16, u16))| t.1)
                    =~= self.locations.0@.subrange(0, i as int).map_values(|t: (Tile, (u16, u16))| t.1).push(self.locations.0@[i as int].1));
            }
            i = i + 1;
        }
        proof {
            assert(self.locations.0@.subrange(0, i as int) =~= self.locations.0@);
        }
        r
    }

    pub fn addTile(&mut self, tile: Tile, location: (u16, u16))
        ensures
            final(self).locations.0@ == old(self).locations.0@.push((tile, location)),
            final(self).locations.1 == old(self).locations.1,
            final(self).id == old(self).id,
            final(self).position == old(self).position,
            final(self).linkedIDs == old(self).linkedIDs,
            final(self).inactiveEntities == old(self).inactiveEntities,
            final(self).global == old(self).global,
            final(self).dir == old(self).dir,
    {
        self.locations.0.push((tile, location));
    }

    pub fn addLinkedID(&mut self, id: ID)
        ensures
            final(self).linkedIDs.0@ == old(self).linkedIDs.0@.push(id),
            final(self).linkedIDs.1 == old(self).linkedIDs.1,
            final(self).id == old(self).id,
            final(self).position == old(self).position,
            final(self).locations == old(self).locations,
            final(self).inactiveEntities == old(self).inactiveEntities,
            final(self).global == old(self).global,
            final(self).dir == old(self).dir,
    {
        self.linkedIDs.0.push(id);
    }

    pub fn addInactiveEntity(&mut self, id: ID, global: bool)
        ensures
            final(self).inactiveEntities.0@ == old(self).inactiveEntities.0@.push((id, global)),
            final(self).inactiveEntities.1 == old(self).inactiveEntities.1,
            final(self).id == old(self).id,
            final(self).position == old(self).position,
            final(self).locations == old(self).locations,
            final(self).linkedIDs == old(self).linkedIDs,
            final(self).global == old(self).global,
            final(self).dir == old(self).dir,
    {
        self.inactiveEntities.0.push((id, global));
    }

    pub fn setGlobal(&mut self, global: bool)
        ensures
            final(self).global == Some(global),
            final(self).id == old(self).id,
            final(self).position == old(self).position,
            final(self).locations == old(self).locations,
            final(self).linkedIDs == old(self).linkedIDs,
            final(self).inactiveEntities == old(self).inactiveEntities,
            final(self).dir == old(self).dir,
    {
        self.global = Some(global);
    }

    pub fn addDir(&mut self, direction: Direction)
        ensures
            final(self).dir == Some(direction),
            final(self).id == old(self).id,
            final(self).position == old(self).position,
            final(self).locations == old(self).locations,
            final(self).linkedIDs == old(self).linkedIDs,
            final(self).inactiveEntities == old(self).inactiveEntities,
            final(self).global == old(self).global,
    {
        self.dir = Some(direction);
    }

    /// Closes the first list of this code that is still open: for a generator
    /// the tiles, then the links; for an entity generator also the entities
    /// to activate; for a rock its path. Other codes collect no lists.
    pub fn endList(&mut self)
        ensures
            final(self).id == old(self).id,
            final(self).position == old(self).position,
            final(self).locations.0 == old(self).locations.0,
            final(self).linkedIDs.0 == old(self).linkedIDs.0,
            final(self).inactiveEntities.0 == old(self).inactiveEntities.0,
            final(self).global == old(self).global,
            final(self).dir == old(self).dir,
            final(self).locations.1 == (old(self).locations.1 || old(self).id == 2 || old(self).id == 3 || old(self).id == 5),
            final(self).linkedIDs.1 == (old(self).linkedIDs.1 || ((old(self).id == 2 || old(self).id == 3) && old(self).locations.1)),
            final(self).inactiveEntities.1 == (old(self).inactiveEntities.1 || (old(self).id == 3 && old(self).locations.1 && old(self).linkedIDs.1)),
    {
        match self.id {
            2 => {
                if !self.locations.1 {
                    self.locations.1 = true;
                } else if !self.linkedIDs.1 {
                    self.linkedIDs.1 = true;
                }
            },
            3 => {
                if !self.locations.1 {
                    self.locations.1 = true;
                } else if !self.linkedIDs.1 {
                    self.linkedIDs.1 = true;
                } else if !self.inactiveEntities.1 {
                    self.inactiveEntities.1 = true;
                }
            },
            5 => {
                if !self.locations.1 {
                    self.locations.1 = true;
                }
            },
            _ => {},
        }
    }

    /// The hitbox the entity will have, for placing it in the editor.
    pub fn getEntityRect(&self) -> (r: Rect)
        ensures
            r == (Rect { x: pixel_of(self.position).0, y: pixel_of(self.position).1, w: 50, h: if self.id == 1 { 100 } else { 50 } }),
    {
        let h: u32 = if self.id == 1 { 100 } else { 50 };
        let (x, y) = self.pixels();
        Rect::new(x, y, 50, h)
    }

    /// Registers the new generator `genID` as the death counter of every
    /// linked entity the store holds.
    fn linkGenerator(&self, ctx: &mut GameContext, genID: ID)
        requires
            old(ctx).wf(),
        ensures
            final(ctx).wf(),
            final(ctx).holder.view().dom() == old(ctx).holder.view().dom(),
            final(ctx).holder.spec_order() == old(ctx).holder.spec_order(),
            final(ctx).holder.spec_current_id() == old(ctx).holder.spec_current_id(),
            final(ctx).map == old(ctx).map,
            final(ctx).globalEntities == old(ctx).globalEntities,
            final(ctx).player == old(ctx).player,
            final(ctx).collision == old(ctx).collision,
    {
        let ghost start = *ctx;
        let mut i: usize = 0;
        while i < self.linkedIDs.0.len()
            invariant
                ctx.wf(),
                i <= self.linkedIDs.0@.len(),
                ctx.holder.view().dom() == start.holder.view().dom(),
                ctx.holder.spec_order() == start.holder.spec_order(),
                ctx.holder.spec_current_id() == start.holder.spec_current_id(),
                ctx.map == start.map,
                ctx.globalEntities == start.globalEntities,
                ctx.player == start.player,
                ctx.collision == start.collision,
            decreases self.linkedIDs.0@.len() - i,
        {
            let linked = self.linkedIDs.0[i];
            ctx.holder.register(linked, IDRegistration::DeathCounter(genID));
            i = i + 1;
        }
    }

    /// Adds the built entity to the world, run globally, and wires a
    /// generator to its linked entities. `None` when no index is left.
    pub fn addEntityGlobal(&self, ctx: &mut GameContext, entity: Entity) -> (r: Option<ID>)
        requires
            old(ctx).wf(),
        ensures
            final(ctx).wf(),
            r is Some <==> old(ctx).holder.spec_current_id() < EMPTY_INDEX,
            r matches Some(id) ==> id == (ID { index: old(ctx).holder.spec_current_id(), sub: 0 })
                && final(ctx).holder.view().dom() == old(ctx).holder.view().dom().insert(id.index)
                && final(ctx).globalEntities@ == old(ctx).globalEntities@.push(id.index),
            r is None ==> *final(ctx) == *old(ctx),
    {
        let r = ctx.addEntityGlobal(entity);
        match r {
            Some(genID) => {
                if self.id == 2 || self.id == 3 {
                    self.linkGenerator(ctx, genID);
                }
                Some(genID)
            },
            None => None,
        }
    }

    /// Adds the built entity to the active screen, and wires a generator to
    /// its linked entities. `None` when there is no active screen or no index is left.
    pub fn addEntityActiveScreen(&self, ctx: &mut GameContext, entity: Entity) -> (r: Option<ID>)
        requires
            old(ctx).wf(),
        ensures
            final(ctx).wf(),
            r is Some <==> (old(ctx).map.spec_active() is Some && old(ctx).holder.spec_current_id() < EMPTY_INDEX),
            r matches Some(id) ==> id == (ID { index: old(ctx).holder.spec_current_id(), sub: 0 })
                && final(ctx).holder.view().dom() == old(ctx).holder.view().dom().insert(id.index)
                && (final(ctx).map.spec_active() matches Some(s) && s.spec_entities() == old(ctx).map.spec_active()->0.spec_entities().push(id.index)),
            r is None ==> *final(ctx) == *old(ctx),
    {
        let r = ctx.addEntityActiveScreen(entity);
        match r {
            Some(genID) => {
                if self.id == 2 || self.id == 3 {
                    self.linkGenerator(ctx, genID);
                }
                Some(genID)
            },
            None => None,
        }
    }

    /// Adds the built entity to the store without running it anywhere (an
    /// entity generator activates it later), and wires a generator to its
    /// linked entities. `None` when no index is left.
    pub fn addEntityInactive(&self, ctx: &mut GameContext, entity: Entity) -> (r: Option<ID>)
        requires
            old(ctx).wf(),
        ensures
            final(ctx).wf(),
            r is Some <==> old(ctx).holder.spec_current_id() < EMPTY_INDEX,
            r matches Some(id) ==> id == (ID { index: old(ctx).holder.spec_current_id(), sub: 0 })
                && final(ctx).holder.view().dom() == old(ctx).holder.view().dom().insert(id.index),
            final(ctx).globalEntities == old(ctx).globalEntities,
            final(ctx).map == old(ctx).map,
            r is None ==> *final(ctx) == *old(ctx),
    {
        if ctx.holder.getCurrentIndex() == EMPTY_INDEX {
            return None;
        }
        let ghost before = *ctx;
        let genID = ctx.holder.add(entity);
        proof {
            let c = ctx.holder.spec_current_id();
            assert forall|j: int| 0 <= j < ctx.globalEntities@.len() implies #[trigger] ctx.globalEntities@[j] < c by {
                assert(before.globalEntities@[j] < before.holder.spec_current_id());
            }
            assert forall|k: usize| #[trigger] ctx.map.spec_screen(k) is Some implies all_below(ctx.map.spec_screen(k)->0.spec_entities(), c) by {
                let e = ctx.map.spec_screen(k)->0.spec_entities();
                assert forall|j: int| 0 <= j < e.len() implies #[trigger] e[j] < c by {
                    assert(e[j] < before.holder.spec_current_id());
                }
            }
            assert(ctx.holder.view().dom() =~= before.holder.view().dom().insert(genID.index));
        }
        if self.id == 2 || self.id == 3 {
            self.linkGenerator(ctx, genID);
        }
        Some(genID)
    }
}

} // verus!
