use vstd::prelude::*;
use crate::id::ID;
use crate::geometry::{Rect, rects_intersect};
use crate::message::{CollisionMsg, CounterMsg, Envelope, Command, Request};
use crate::common::IDRegistration;
use crate::player::{Player, PlayerData, InnerPlayer, Signals, player_collided, signalled_velocity};
use crate::skeleton::{Skeleton, SkeletonData, InnerSkeleton, self_collided};
use crate::generator::{Generator, EntityGenerator, InnerGenerator, InnerEntityGenerator, clamp_count, place_commands, activate_commands};
use crate::snake::{Snake, SnakeData, InnerSnake};
use crate::rock::{Rock, Cannon, InnerRock, InnerCannon};
use crate::common::DeathCounter;
use std::marker::PhantomData;

verus! {

/// The kinds of entity the world can hold.
#[derive(Clone, Copy, Debug, PartialEq, Eq, Structural)]
pub enum EntityKind {
    Player,
    Skeleton,
    Generator,
    EntityGenerator,
    Snake,
    Rock,
    Cannon,
}

/// Every entity the world holds, one variant per kind.
pub enum Entity {
    Player(Player),
    Skeleton(Skeleton),
    Generator(Generator),
    EntityGenerator(EntityGenerator),
    Snake(Snake),
    Rock(Rock),
    Cannon(Cannon),
}

/// The plain data of an entity, which a save keeps.
pub enum InnerCode {
    Player(InnerPlayer),
    Skeleton(InnerSkeleton),
    Generator(InnerGenerator),
    EntityGenerator(InnerEntityGenerator),
    Snake(InnerSnake),
    Rock(InnerRock),
    Cannon(InnerCannon),
}

/// Whether two entities agree on everything a save keeps.
pub open spec fn same_saved(a: Entity, b: Entity) -> bool {
    match (a, b) {
        (Entity::Player(x), Entity::Player(y)) => x.id == y.id && x.position == y.position && x.health == y.health,
        (Entity::Skeleton(x), Entity::Skeleton(y)) => x.id == y.id && x.timer == y.timer && x.position == y.position
            && x.idle == y.idle && x.iframeCounter == y.iframeCounter && x.health == y.health && x.deathCounter == y.deathCounter,
        (Entity::Generator(x), Entity::Generator(y)) => x.renderRect.x == y.renderRect.x && x.renderRect.y == y.renderRect.y
            && x.tiles@ == y.tiles@ && x.cnt == y.cnt,
        (Entity::EntityGenerator(x), Entity::EntityGenerator(y)) => x.gen.renderRect.x == y.gen.renderRect.x
            && x.gen.renderRect.y == y.gen.renderRect.y && x.gen.tiles@ == y.gen.tiles@ && x.gen.cnt == y.gen.cnt && x.entities@ == y.entities@,
        (Entity::Snake(x), Entity::Snake(y)) => x.id == y.id && x.dir == y.dir && x.pos == y.pos,
        (Entity::Rock(x), Entity::Rock(y)) => x.id == y.id && x.path@ == y.path@,
        (Entity::Cannon(x), Entity::Cannon(y)) => x.id == y.id && x.pos == y.pos && x.variant == y.variant && x.deathEvent == y.deathEvent,
        _ => false,
    }
}

/// What an entity decided in the read half of a frame, for its commit half.
pub enum EntityData {
    Player(PlayerData),
    Skeleton(SkeletonData),
    Snake(SnakeData),
    Empty,
}

/// A concrete entity kind that can be picked out of an `Entity`.
pub trait EntityTraitsWrappable: Sized {
    spec fn spec_from(e: Entity) -> Option<Self>;

    /// Stamping an identity keeps the kind.
    proof fn lemma_stamp(e: Entity, id: ID)
        ensures
            Self::spec_from(e.with_id(id)) is Some == Self::spec_from(e) is Some;

    /// The entity as this kind, if it is of this kind.
    fn mapCode(e: &Entity) -> (r: Option<&Self>)
        ensures
            r is Some == Self::spec_from(*e) is Some,
            r matches Some(x) ==> Self::spec_from(*e) == Some(*x);
}

impl EntityTraitsWrappable for Player {
    open spec fn spec_from(e: Entity) -> Option<Player> {
        match e {
            Entity::Player(p) => Some(p),
            _ => None,
        }
    }

    proof fn lemma_stamp(e: Entity, id: ID) {
    }

    fn mapCode(e: &Entity) -> (r: Option<&Player>) {
        match e {
            Entity::Player(p) => Some(p),
            _ => None,
        }
    }
}

impl EntityTraitsWrappable for Skeleton {
    open spec fn spec_from(e: Entity) -> Option<Skeleton> {
        match e {
            Entity::Skeleton(p) => Some(p),
            _ => None,
        }
    }

    proof fn lemma_stamp(e: Entity, id: ID) {
    }

    fn mapCode(e: &Entity) -> (r: Option<&Skeleton>) {
        match e {
            Entity::Skeleton(p) => Some(p),
            _ => None,
        }
    }
}

impl EntityTraitsWrappable for Generator {
    open spec fn spec_from(e: Entity) -> Option<Generator> {
        match e {
            Entity::Generator(p) => Some(p),
            _ => None,
        }
    }

    proof fn lemma_stamp(e: Entity, id: ID) {
    }

    fn mapCode(e: &Entity) -> (r: Option<&Generator>) {
        match e {
            Entity::Generator(p) => Some(p),
            _ => None,
        }
    }
}

impl EntityTraitsWrappable for EntityGenerator {
    open spec fn spec_from(e: Entity) -> Option<EntityGenerator> {
        match e {
            Entity::EntityGenerator(p) => Some(p),
            _ => None,
        }
    }

    proof fn lemma_stamp(e: Entity, id: ID) {
    }

    fn mapCode(e: &Entity) -> (r: Option<&EntityGenerator>) {
        match e {
            Entity::EntityGenerator(p) => Some(p),
            _ => None,
        }
    }
}

impl EntityTraitsWrappable for Snake {
    open spec fn spec_from(e: Entity) -> Option<Snake> {
        match e {
            Entity::Snake(p) => Some(p),
            _ => None,
        }
    }

    proof fn lemma_stamp(e: Entity, id: ID) {
    }

    fn mapCode(e: &Entity) -> (r: Option<&Snake>) {
        match e {
            Entity::Snake(p) => Some(p),
            _ => None,
        }
    }
}

impl EntityTraitsWrappable for Rock {
    open spec fn spec_from(e: Entity) -> Option<Rock> {
        match e {
            Entity::Rock(p) => Some(p),
            _ => None,
        }
    }

    proof fn lemma_stamp(e: Entity, id: ID) {
    }

    fn mapCode(e: &Entity) -> (r: Option<&Rock>) {
        match e {
            Entity::Rock(p) => Some(p),
            _ => None,
        }
    }
}

impl EntityTraitsWrappable for Cannon {
    open spec fn spec_from(e: Entity) -> Option<Cannon> {
        match e {
            Entity::Cannon(p) => Some(p),
            _ => None,
        }
    }

    proof fn lemma_stamp(e: Entity, id: ID) {
    }

    fn mapCode(e: &Entity) -> (r: Option<&Cannon>) {
        match e {
            Entity::Cannon(p) => Some(p),
            _ => None,
        }
    }
}

/// An identity that also names the kind of entity it stands for.
pub struct TypedID<T> {
    pub id: ID,
    pub kind: PhantomData<T>,
}

impl<T> Clone for TypedID<T> {
    fn clone(&self) -> (r: Self)
        ensures
            r.id == self.id,
    {
        TypedID { id: self.id, kind: PhantomData }
    }
}

impl<T> Copy for TypedID<T> {}

impl<T> TypedID<T> {
    pub fn new(id: ID) -> (r: TypedID<T>)
        ensures
            r.id == id,
    {
        TypedID { id, kind: PhantomData }
    }

    pub fn getID(&self) -> (r: ID)
        ensures
            r == self.id,
    {
        self.id
    }
}

/// How the commit half of a frame changes an entity `a` into `b`, given what
/// it decided in the read half, and what it asks of the world (`o0` grows to `o1`).
pub open spec fn update_rel(a: Entity, d: EntityData, b: Entity, o0: Seq<Request>, o1: Seq<Request>) -> bool {
    match (a, d) {
        (Entity::Player(p), EntityData::Player(pd)) => {
            let hb = Rect { x: pd.nextPos.0, y: pd.nextPos.1, ..p.hitbox };
            &&& b == Entity::Player(Player {
                position: pd.nextPos,
                hitbox: hb,
                iframeCounter: if p.iframeCounter > 0 { (p.iframeCounter - 1) as u32 } else { 0 },
                ..p
            })
            &&& o1 == o0 + seq![Request::UpdatePosition(p.id, hb, p.hitbox)]
                + pd.messages@.map_values(|m: Envelope<CollisionMsg>| Request::Collision(m))
        },
        (Entity::Skeleton(s), EntityData::Skeleton(sd)) => if s.health <= 0 {
            &&& b == a
            &&& o1 == o0 + seq![Request::Purge(s.id), Request::RemoveCollision(s.id, s.hitbox)] + match s.deathCounter {
                Some(c) => seq![Request::Counter(Envelope { priority: 0, letter: CounterMsg(-1i32), recv: c.dst, sender: s.id })],
                None => Seq::<Request>::empty(),
            }
        } else {
            let hb = Rect { x: sd.nextPos.0, y: sd.nextPos.1, ..s.hitbox };
            let ic: u32 = if s.iframeCounter > 0 { (s.iframeCounter - 1) as u32 } else { 0 };
            &&& b == Entity::Skeleton(Skeleton {
                position: sd.nextPos,
                hitbox: hb,
                iframeCounter: ic,
                idle: ic != 0,
                timer: if s.idle { s.timer } else if s.timer >= 20 { 0 } else { (s.timer + 1) as u32 },
                ..s
            })
            &&& o1 == o0.push(Request::UpdatePosition(s.id, hb, s.hitbox))
        },
        (Entity::Snake(s), EntityData::Snake(sd)) => b == Entity::Snake(Snake { dir: sd.dir, pos: sd.pos, ..s }) && o1 == o0,
        (Entity::Generator(g), _) => b matches Entity::Generator(g2) && !g2.editor && g2.cnt == g.cnt && g2.tiles@ == g.tiles@
            && g2.renderRect == g.renderRect && o1 == o0,
        (Entity::EntityGenerator(g), _) => b matches Entity::EntityGenerator(g2) && !g2.gen.editor && g2.gen.cnt == g.gen.cnt
            && g2.gen.tiles@ == g.gen.tiles@ && g2.gen.renderRect == g.gen.renderRect && g2.entities@ == g.entities@ && o1 == o0,
        _ => b == a && o1 == o0,
    }
}

/// How adding to a counter changes a generator and the command queue.
pub open spec fn generator_inc(a: Generator, b: Generator, amt: i32, c0: Seq<Command>, c1: Seq<Command>) -> bool {
    &&& b.cnt == clamp_count(a.cnt, amt)
    &&& b.renderRect == a.renderRect
    &&& b.editor == a.editor
    &&& b.cnt == 0 ==> b.tiles@.len() == 0 && c1 == c0 + place_commands(a.tiles@)
    &&& b.cnt != 0 ==> b.tiles@ == a.tiles@ && c1 == c0
}

/// How adding to a counter changes an entity generator and the command queue.
pub open spec fn entity_generator_inc(a: EntityGenerator, b: EntityGenerator, amt: i32, c0: Seq<Command>, c1: Seq<Command>) -> bool {
    &&& b.gen.cnt == clamp_count(a.gen.cnt, amt)
    &&& b.gen.renderRect == a.gen.renderRect
    &&& b.gen.editor == a.gen.editor
    &&& b.gen.cnt == 0 ==> b.gen.tiles@.len() == 0 && b.entities@.len() == 0
        && c1 == c0 + place_commands(a.gen.tiles@) + activate_commands(a.entities@)
    &&& b.gen.cnt != 0 ==> b.gen.tiles@ == a.gen.tiles@ && b.entities@ == a.entities@ && c1 == c0
}

impl InnerCode {
    /// The entity restored from the plain data.
    pub open spec fn spec_entity(self) -> Entity {
        match self {
            InnerCode::Player(p) => Entity::Player(Player {
                id: p.id,
                position: p.position,
                velocity: (0i32, 0i32),
                hitbox: Rect { x: p.position.0, y: p.position.1, w: 50, h: 50 },
                health: p.health,
                iframeCounter: 0,
                snakeBoss: None,
            }),
            InnerCode::Skeleton(s) => Entity::Skeleton(Skeleton {
                id: s.id,
                timer: s.timer,
                position: s.position,
                idle: s.idle,
                hitbox: Rect { x: s.position.0, y: s.position.1, w: 50, h: 100 },
                iframeCounter: s.iframeCounter,
                health: s.health,
                deathCounter: s.deathCounter,
            }),
            InnerCode::Generator(g) => Entity::Generator(Generator {
                renderRect: Rect { x: g.renderRect.x, y: g.renderRect.y, w: 50, h: 50 },
                tiles: g.tiles,
                editor: true,
                cnt: g.cnt,
            }),
            InnerCode::EntityGenerator(g) => Entity::EntityGenerator(EntityGenerator {
                gen: Generator {
                    renderRect: Rect { x: g.gen.renderRect.x, y: g.gen.renderRect.y, w: 50, h: 50 },
                    tiles: g.gen.tiles,
                    editor: true,
                    cnt: g.gen.cnt,
                },
                entities: g.entities,
            }),
            InnerCode::Rock(r) => Entity::Rock(Rock { id: r.id, path: r.path, hitbox: Rock::home_box(r.path@) }),
            InnerCode::Cannon(c) => Entity::Cannon(Cannon {
                id: c.id,
                pos: c.pos,
                variant: c.variant,
                deathEvent: c.deathEvent,
                hitbox: Rect { x: c.pos.0, y: c.pos.1, w: 50, h: 50 },
                health: if c.variant == 1 { 50 } else { 20 },
            }),
            InnerCode::Snake(s) => Entity::Snake(Snake {
                id: s.id,
                dir: s.dir,
                pos: s.pos,
                editorRender: Rect { x: (s.pos.0 * 50) as i32, y: (s.pos.1 * 50) as i32, w: 50, h: 50 },
                timer: u16::MAX,
            }),
        }
    }

    /// The entity restored from the plain data.
    pub fn intoEntity(self) -> (r: Entity)
        ensures
            same_saved(r, self.spec_entity()),
            r.spec_kind() == self.spec_entity().spec_kind(),
    {
        match self {
            InnerCode::Player(p) => Entity::Player(Player::fromInner(p)),
            InnerCode::Skeleton(s) => Entity::Skeleton(Skeleton::fromInner(s)),
            InnerCode::Generator(g) => Entity::Generator(Generator::fromInner(g)),
            InnerCode::EntityGenerator(g) => Entity::EntityGenerator(EntityGenerator::fromInner(g)),
            InnerCode::Snake(s) => Entity::Snake(Snake::fromInner(s)),
            InnerCode::Rock(r) => Entity::Rock(Rock::fromInner(r)),
            InnerCode::Cannon(c) => Entity::Cannon(Cannon::fromInner(c)),
        }
    }
}

impl Entity {
    pub open spec fn spec_kind(&self) -> EntityKind {
        match self {
            Entity::Player(_) => EntityKind::Player,
            Entity::Skeleton(_) => EntityKind::Skeleton,
            Entity::Generator(_) => EntityKind::Generator,
            Entity::EntityGenerator(_) => EntityKind::EntityGenerator,
            Entity::Snake(_) => EntityKind::Snake,
            Entity::Rock(_) => EntityKind::Rock,
            Entity::Cannon(_) => EntityKind::Cannon,
        }
    }

    /// Whether the scheduler runs the entity this frame.
    pub open spec fn spec_needs_execution(&self) -> bool {
        match self {
            Entity::Player(_) => true,
            Entity::Skeleton(_) => true,
            Entity::Generator(g) => g.editor,
            Entity::EntityGenerator(g) => g.gen.editor,
            Entity::Snake(s) => s.timer == 59,
            Entity::Rock(_) => false,
            Entity::Cannon(_) => false,
        }
    }

    /// The entity with its own identity stamped (kinds that keep none are unchanged).
    pub open spec fn with_id(self, id: ID) -> Entity {
        match self {
            Entity::Player(p) => Entity::Player(Player { id, ..p }),
            Entity::Skeleton(s) => Entity::Skeleton(Skeleton { id, ..s }),
            Entity::Snake(s) => Entity::Snake(Snake { id, ..s }),
            Entity::Rock(r) => Entity::Rock(Rock { id, ..r }),
            Entity::Cannon(c) => Entity::Cannon(Cannon { id, ..c }),
            _ => self,
        }
    }

    /// How receiving a counter message of `amt` changes the entity and the
    /// command queue: generators count, every other kind ignores it.
    pub open spec fn inc_effect(a: Entity, b: Entity, amt: i32, c0: Seq<Command>, c1: Seq<Command>) -> bool {
        match (a, b) {
            (Entity::Generator(x), Entity::Generator(y)) => generator_inc(x, y, amt, c0, c1),
            (Entity::EntityGenerator(x), Entity::EntityGenerator(y)) => entity_generator_inc(x, y, amt, c0, c1),
            (Entity::Generator(_), _) => false,
            (Entity::EntityGenerator(_), _) => false,
            _ => b == a && c1 == c0,
        }
    }

    /// Whether the entity occupies any of `hitbox`.
    pub open spec fn collidesStaticSpec(&self, hitbox: Rect) -> bool {
        match self {
            Entity::Player(p) => rects_intersect(p.hitbox, hitbox),
            Entity::Skeleton(s) => rects_intersect(s.hitbox, hitbox),
            Entity::Generator(g) => rects_intersect(g.renderRect, hitbox),
            Entity::EntityGenerator(g) => rects_intersect(g.gen.renderRect, hitbox),
            Entity::Snake(s) => rects_intersect(s.editorRender, hitbox),
            Entity::Rock(r) => rects_intersect(r.hitbox, hitbox),
            Entity::Cannon(c) => rects_intersect(c.hitbox, hitbox),
        }
    }

    /// The entity after a frame's counters advanced: a snake counts toward
    /// its next move; other kinds keep no counter.
    pub open spec fn spec_tick(self) -> Entity {
        match self {
            Entity::Snake(s) => Entity::Snake(Snake {
                timer: if s.timer == u16::MAX || s.timer + 1 == 60 { 0 } else { (s.timer + 1) as u16 },
                ..s
            }),
            _ => self,
        }
    }

    /// The entity after a collision message; only players and skeletons react.
    pub open spec fn spec_collide(self, msg: CollisionMsg) -> Entity {
        match self {
            Entity::Player(p) => Entity::Player(player_collided(p, msg)),
            Entity::Skeleton(s) => Entity::Skeleton(self_collided(s, msg)),
            _ => self,
        }
    }

    /// The entity after a report of the keys; only a player steers by them.
    pub open spec fn spec_signal(self, signals: Signals) -> Entity {
        match self {
            Entity::Player(p) => match signalled_velocity(signals) {
                Some(v) => Entity::Player(Player { velocity: v, ..p }),
                None => self,
            },
            _ => self,
        }
    }

    /// The entity after a wiring request; skeletons and cannons keep it.
    pub open spec fn spec_register(self, reg: IDRegistration) -> Entity {
        match self {
            Entity::Skeleton(s) => Entity::Skeleton(Skeleton { deathCounter: Some(DeathCounter { dst: reg->DeathCounter_0 }), ..s }),
            Entity::Cannon(c) => Entity::Cannon(Cannon { deathEvent: Some(DeathCounter { dst: reg->DeathCounter_0 }), ..c }),
            _ => self,
        }
    }

    /// The entity after a boss notice; only a player keeps it.
    pub open spec fn spec_set_boss(self, boss: Option<ID>) -> Entity {
        match self {
            Entity::Player(p) => Entity::Player(Player { snakeBoss: boss, ..p }),
            _ => self,
        }
    }

    pub fn kind(&self) -> (r: EntityKind)
        ensures
            r == self.spec_kind(),
    {
        match self {
            Entity::Player(_) => EntityKind::Player,
            Entity::Skeleton(_) => EntityKind::Skeleton,
            Entity::Generator(_) => EntityKind::Generator,
            Entity::EntityGenerator(_) => EntityKind::EntityGenerator,
            Entity::Snake(_) => EntityKind::Snake,
            Entity::Rock(_) => EntityKind::Rock,
            Entity::Cannon(_) => EntityKind::Cannon,
        }
    }

    pub fn setID(&mut self, id: ID)
        ensures
            *final(self) == old(self).with_id(id),
    {
        match self {
            Entity::Player(p) => p.id = id,
            Entity::Skeleton(s) => s.id = id,
            Entity::Snake(s) => s.id = id,
            Entity::Rock(r) => r.id = id,
            Entity::Cannon(c) => c.id = id,
            _ => {},
        }
    }

    pub fn needsExecution(&self) -> (r: bool)
        ensures
            r == self.spec_needs_execution(),
    {
        match self {
            Entity::Player(_) => true,
            Entity::Skeleton(_) => true,
            Entity::Generator(g) => g.needsExecution(),
            Entity::EntityGenerator(g) => g.needsExecution(),
            Entity::Snake(s) => s.needsExecution(),
            Entity::Rock(_) => false,
            Entity::Cannon(_) => false,
        }
    }

    /// Advances per-frame counters, whether or not the entity runs this frame.
    pub fn tick(&mut self)
        ensures
            *final(self) == old(self).spec_tick(),
    {
        match self {
            Entity::Snake(s) => s.tick(),
            _ => {},
        }
    }

    /// Whether the entity occupies any of `hitbox`.
    pub fn collidesStatic(&self, hitbox: Rect) -> (r: bool)
        ensures
            r == self.collidesStaticSpec(hitbox),
    {
        match self {
            Entity::Player(p) => p.collidesStatic(hitbox),
            Entity::Skeleton(s) => s.collidesStatic(hitbox),
            Entity::Generator(g) => g.collidesStatic(hitbox),
            Entity::EntityGenerator(g) => g.collidesStatic(hitbox),
            Entity::Snake(s) => s.collidesStatic(hitbox),
            Entity::Rock(r) => r.collidesStatic(hitbox),
            Entity::Cannon(c) => c.collidesStatic(hitbox),
        }
    }

    /// Reacts to a counter message; generators may queue commands.
    pub fn inc(&mut self, amt: i32, commands: &mut Vec<Command>)
        ensures
            Entity::inc_effect(*old(self), *final(self), amt, old(commands)@, final(commands)@),
    {
        match self {
            Entity::Generator(g) => g.inc(amt, commands),
            Entity::EntityGenerator(g) => g.inc(amt, commands),
            _ => {},
        }
    }

    /// Reacts to a collision message.
    pub fn collide(&mut self, msg: CollisionMsg)
        ensures
            *final(self) == old(self).spec_collide(msg),
    {
        match self {
            Entity::Player(p) => p.collide(msg),
            Entity::Skeleton(s) => s.collide(msg),
            _ => {},
        }
    }

    /// The reply the entity proposes when `other` overlaps it.
    pub fn collideWith(&self, other: ID, player: ID) -> (r: Option<Envelope<CollisionMsg>>)
        ensures
            self is Skeleton ==> r == if other == player {
                Some(Envelope { priority: 0, letter: CollisionMsg::Damage(crate::skeleton::SKELETON_DAMAGE), recv: other, sender: self->Skeleton_0.id })
            } else {
                None
            },
            !(self is Skeleton) ==> r is None,
    {
        match self {
            Entity::Skeleton(s) => s.collideWith(other, player),
            _ => None,
        }
    }

    /// Accepts a wiring request; skeletons and cannons keep one.
    pub fn register(&mut self, id: IDRegistration)
        ensures
            *final(self) == old(self).spec_register(id),
    {
        match self {
            Entity::Skeleton(s) => s.register(id),
            Entity::Cannon(c) => c.register(id),
            _ => {},
        }
    }

    /// The commit half of a frame, with what the entity decided in the read
    /// half; world changes go to `out`.
    pub fn update(&mut self, data: &EntityData, out: &mut Vec<Request>)
        ensures
            update_rel(*old(self), *data, *final(self), old(out)@, final(out)@),
            final(self).spec_kind() == old(self).spec_kind(),
    {
        match (self, data) {
            (Entity::Player(p), EntityData::Player(d)) => p.update(d, out),
            (Entity::Skeleton(s), EntityData::Skeleton(d)) => s.update(d, out),
            (Entity::Snake(s), EntityData::Snake(d)) => s.update(d),
            (Entity::Generator(g), _) => g.update(),
            (Entity::EntityGenerator(g), _) => g.update(),
            _ => {},
        }
    }

    /// Tells a player which boss it fights (`None` once the boss died);
    /// other kinds ignore it.
    pub fn setSnakeBoss(&mut self, boss: Option<ID>)
        ensures
            (*old(self)) is Player ==> *final(self) == Entity::Player(Player { snakeBoss: boss, ..(*old(self))->Player_0 }),
            !((*old(self)) is Player) ==> *final(self) == *old(self),
    {
        match self {
            Entity::Player(p) => {
                match boss {
                    Some(b) => p.informSnakeBoss(b),
                    None => p.informSnakeBossDeath(),
                }
            },
            _ => {},
        }
    }

    /// The plain data a save keeps of the entity.
    pub fn toInner(&self) -> (r: InnerCode)
        ensures
            same_saved(*self, r.spec_entity()),
    {
        match self {
            Entity::Player(p) => InnerCode::Player(p.toInner()),
            Entity::Skeleton(s) => InnerCode::Skeleton(s.toInner()),
            Entity::Generator(g) => InnerCode::Generator(g.toInner()),
            Entity::EntityGenerator(g) => InnerCode::EntityGenerator(g.toInner()),
            Entity::Snake(s) => InnerCode::Snake(s.toInner()),
            Entity::Rock(r) => InnerCode::Rock(r.toInner()),
            Entity::Cannon(c) => InnerCode::Cannon(c.toInner()),
        }
    }

    /// Hands the state of the keys to a player; other kinds ignore it.
    pub fn signal(&mut self, signals: Signals)
        ensures
            *final(self) == old(self).spec_signal(signals),
    {
        match self {
            Entity::Player(p) => p.signal(signals),
            _ => {},
        }
    }

    /// Puts a player or a skeleton, with its hitbox, at `(x, y)`; other kinds ignore it.
    pub fn placeAt(&mut self, x: i32, y: i32)
        ensures
            final(self).spec_kind() == old(self).spec_kind(),
            (*old(self)) is Player ==> *final(self) == Entity::Player(Player {
                position: (x, y),
                hitbox: Rect { x, y, ..(*old(self))->Player_0.hitbox },
                ..(*old(self))->Player_0
            }),
            (*old(self)) is Skeleton ==> *final(self) == Entity::Skeleton(Skeleton {
                position: (x, y),
                hitbox: Rect { x, y, ..(*old(self))->Skeleton_0.hitbox },
                ..(*old(self))->Skeleton_0
            }),
            !((*old(self)) is Player || (*old(self)) is Skeleton) ==> *final(self) == *old(self),
    {
        match self {
            Entity::Player(p) => {
                p.position = (x, y);
                p.hitbox.reposition(x, y);
            },
            Entity::Skeleton(s) => {
                s.position = (x, y);
                s.hitbox.reposition(x, y);
            },
            _ => {},
        }
    }
}

} // verus!
