use vstd::prelude::*;
use crate::id::ID;
use crate::geometry::Rect;
use crate::tile::Tile;
use crate::entity::Entity;
use crate::context::GameContext;
use crate::collision::{EntityHitbox, collision_list, covers};
use crate::message::{CollisionMsg, CounterMsg, Envelope, Command};

verus! {

/// The tile at `(x, y)` once `cmd` has run, where `t` stood before and
/// `on` says whether the position lies on the active screen.
pub open spec fn apply_command(cmd: Command, on: bool, x: int, y: int, t: Tile) -> Tile {
    match cmd {
        Command::PlaceTile(nt, p) => if on && p.0 == x && p.1 == y { nt } else { t },
        Command::PlaceTiles(nt, b, e) => if on && b.0 <= x <= e.0 && b.1 <= y <= e.1 { nt } else { t },
        _ => t,
    }
}

/// The tile at `(x, y)` once the commands have run in order, starting from `t`.
pub open spec fn tile_after(c: Seq<Command>, on: bool, x: int, y: int, t: Tile) -> Tile
    decreases c.len(),
{
    if c.len() == 0 {
        t
    } else {
        apply_command(c.last(), on, x, y, tile_after(c.drop_last(), on, x, y, t))
    }
}

/// Whether the commands hold no `Win`.
pub open spec fn no_win(c: Seq<Command>) -> bool {
    forall|j: int| 0 <= j < c.len() ==> !(#[trigger] c[j] is Win)
}

/// The position of the first `Win` among the commands, or their number.
pub open spec fn first_win(c: Seq<Command>) -> int
    decreases c.len(),
{
    if c.len() == 0 {
        0
    } else if c[0] is Win {
        0
    } else {
        1 + first_win(c.drop_first())
    }
}

/// The commands a run carries out: those before the first `Win`.
pub open spec fn ran(c: Seq<Command>) -> Seq<Command> {
    c.subrange(0, first_win(c))
}

/// A player entity after the boss notices among the commands, in order.
pub open spec fn notices(c: Seq<Command>, e: Entity) -> Entity
    decreases c.len(),
{
    if c.len() == 0 {
        e
    } else {
        let before = notices(c.drop_last(), e);
        match c.last() {
            Command::InformPlayerSnakeBoss(id) => before.spec_set_boss(Some(id)),
            Command::InformPlayerSnakeBossDeath => before.spec_set_boss(None),
            _ => before,
        }
    }
}

pub(crate) proof fn lemma_first_win(c: Seq<Command>, i: int)
    requires
        0 <= i <= c.len(),
        i < c.len() ==> c[i] is Win,
        no_win(c.subrange(0, i)),
    ensures
        first_win(c) == i,
    decreases i,
{
    if i > 0 {
        assert(!(c.subrange(0, i)[0] is Win));
        let d = c.drop_first();
        assert forall|j: int| 0 <= j < i - 1 implies !(#[trigger] d.subrange(0, i - 1)[j] is Win) by {
            assert(c.subrange(0, i)[j + 1] == d.subrange(0, i - 1)[j]);
        }
        lemma_first_win(d, i - 1);
    }
}

/// Whether `k` is the index of an entity on the purge list `l`.
pub open spec fn listed(l: Seq<ID>, k: u64) -> bool {
    exists|j: int| 0 <= j < l.len() && #[trigger] l[j].index == k
}

/// What running the queued commands of `a` does, ending in `b`; `going`
/// when no `Win` was among them.
pub open spec fn commands_ran(a: PO, b: PO, going: bool) -> bool {
    &&& b.wf()
    &&& b.commands@.len() == 0
    &&& going == no_win(a.commands@)
    &&& forall|x: int, y: int| #[trigger] b.ctx.map.spec_active_tile(x, y) == tile_after(
        ran(a.commands@),
        a.ctx.map.on_active(x, y),
        x,
        y,
        a.ctx.map.spec_active_tile(x, y),
    )
    &&& forall|j: int| 0 <= j < ran(a.commands@).len() && (#[trigger] ran(a.commands@)[j]) is ActivateEntity
        && a.ctx.holder.view().contains_key(ran(a.commands@)[j]->ActivateEntity_0.index) ==> {
            let e = ran(a.commands@)[j]->ActivateEntity_0.index;
            &&& ran(a.commands@)[j]->ActivateEntity_1 ==> b.ctx.globalEntities@.contains(e)
            &&& !ran(a.commands@)[j]->ActivateEntity_1 && a.ctx.map.spec_active() is Some
                ==> (b.ctx.map.spec_active() matches Some(s) && s.spec_entities().contains(e))
        }
    &&& forall|e: u64| #[trigger] a.ctx.globalEntities@.contains(e) ==> b.ctx.globalEntities@.contains(e)
    &&& a.ctx.map.spec_active() is Some ==> b.ctx.map.spec_active() is Some
        && forall|e: u64| #[trigger] a.ctx.map.spec_active()->0.spec_entities().contains(e)
            ==> b.ctx.map.spec_active()->0.spec_entities().contains(e)
    &&& forall|k: usize| k != a.ctx.map.spec_active_id() ==> #[trigger] b.ctx.map.spec_screen(k) == a.ctx.map.spec_screen(k)
    &&& b.ctx.holder.view().dom() == a.ctx.holder.view().dom()
    &&& forall|k: u64| k != a.ctx.player.index && #[trigger] a.ctx.holder.view().contains_key(k)
        ==> b.ctx.holder.view()[k] == a.ctx.holder.view()[k]
    &&& a.ctx.holder.view().contains_key(a.ctx.player.index) ==> b.ctx.holder.view()[a.ctx.player.index]
        == notices(ran(a.commands@), a.ctx.holder.view()[a.ctx.player.index])
    &&& b.ctx.map.spec_active_id() == a.ctx.map.spec_active_id()
    &&& b.ctx.player == a.ctx.player
    &&& b.ctx.collision == a.ctx.collision
    &&& b.purgeList == a.purgeList
}

/// What the purge does to `a`, ending in `b`: every listed entity leaves the
/// store, the global list and the active screen's list; all else stays.
pub open spec fn purged(a: PO, b: PO) -> bool {
    &&& b.wf()
    &&& b.purgeList@.len() == 0
    &&& forall|k: u64| #[trigger] b.ctx.holder.view().contains_key(k) <==> (a.ctx.holder.view().contains_key(k)
        && !listed(a.purgeList@, k))
    &&& forall|k: u64| #[trigger] b.ctx.holder.view().contains_key(k) ==> b.ctx.holder.view()[k] == a.ctx.holder.view()[k]
    &&& forall|e: u64| #[trigger] b.ctx.globalEntities@.contains(e) <==> (a.ctx.globalEntities@.contains(e) && !listed(a.purgeList@, e))
    &&& a.ctx.map.spec_active() is Some ==> b.ctx.map.spec_active() is Some
        && forall|e: u64| #[trigger] b.ctx.map.spec_active()->0.spec_entities().contains(e)
            <==> (a.ctx.map.spec_active()->0.spec_entities().contains(e) && !listed(a.purgeList@, e))
    &&& a.ctx.map.spec_active() is None ==> b.ctx.map == a.ctx.map
    &&& forall|k: usize| k != a.ctx.map.spec_active_id() ==> #[trigger] b.ctx.map.spec_screen(k) == a.ctx.map.spec_screen(k)
    &&& b.commands == a.commands
    &&& b.ctx.player == a.ctx.player
    &&& b.ctx.collision == a.ctx.collision
    &&& b.ctx.map.spec_active_id() == a.ctx.map.spec_active_id()
    &&& forall|x: int, y: int| #[trigger] b.ctx.map.spec_active_tile(x, y) == a.ctx.map.spec_active_tile(x, y)
}

/// The one gateway through which entity logic changes the world: the world
/// itself, the entities to remove at the end of the frame, and the commands
/// to run at the end of the frame.
pub struct PO {
    pub ctx: GameContext,
    pub purgeList: Vec<ID>,
    pub commands: Vec<Command>,
}

impl PO {
    pub open spec fn wf(&self) -> bool {
        self.ctx.wf()
    }

    pub fn new(ctx: GameContext) -> (r: PO)
        ensures
            r.ctx == ctx,
            r.purgeList@.len() == 0,
            r.commands@.len() == 0,
    {
        PO { ctx, purgeList: Vec::new(), commands: Vec::new() }
    }

    pub fn getCtx(&self) -> (r: &GameContext)
        ensures
            *r == self.ctx,
    {
        &self.ctx
    }

    /// The entity with the index of `id`, for a read-only look.
    pub fn getEntity(&self, id: ID) -> (r: Option<&Entity>)
        requires
            self.wf(),
        ensures
            r is Some == self.ctx.holder.view().contains_key(id.index),
            r matches Some(e) ==> *e == self.ctx.holder.view()[id.index],
    {
        self.ctx.holder.get(id)
    }

    pub fn getCollisionList(&self, id: ID) -> (r: Vec<ID>)
        ensures
            r@ == collision_list(self.ctx.collision.spec_candidates(), id),
    {
        self.ctx.collision.getCollisionList(id)
    }

    /// Delivers the message at once to its receiver's owner; false when the
    /// store does not hold it.
    pub fn sendCollisionMsg(&mut self, msg: Envelope<CollisionMsg>) -> (r: bool)
        requires
            old(self).wf(),
        ensures
            final(self).wf(),
            r == old(self).ctx.holder.view().contains_key(msg.recv.index),
            r ==> final(self).ctx.holder.view() == old(self).ctx.holder.view().insert(
                msg.recv.index,
                old(self).ctx.holder.view()[msg.recv.index].spec_collide(msg.letter),
            ),
            !r ==> final(self).ctx.holder.view() == old(self).ctx.holder.view(),
            final(self).ctx.holder.spec_order() == old(self).ctx.holder.spec_order(),
            final(self).ctx.holder.spec_current_id() == old(self).ctx.holder.spec_current_id(),
            final(self).ctx.map == old(self).ctx.map,
            final(self).ctx.collision == old(self).ctx.collision,
            final(self).ctx.globalEntities == old(self).ctx.globalEntities,
            final(self).ctx.player == old(self).ctx.player,
            final(self).commands == old(self).commands,
            final(self).purgeList == old(self).purgeList,
    {
        let r = self.ctx.holder.collide(msg.recv.mask(), msg.letter);
        proof {
            if r {
                assert(self.ctx.holder.view().dom() =~= old(self).ctx.holder.view().dom());
            }
        }
        r
    }

    /// Delivers the counter message at once to its receiver's owner, which
    /// may queue commands; false when the store does not hold it.
    pub fn sendCounterMsg(&mut self, msg: Envelope<CounterMsg>) -> (r: bool)
        requires
            old(self).wf(),
        ensures
            final(self).wf(),
            r == old(self).ctx.holder.view().contains_key(msg.recv.index),
            r ==> final(self).ctx.holder.view() == old(self).ctx.holder.view().insert(msg.recv.index, final(self).ctx.holder.view()[msg.recv.index])
                && Entity::inc_effect(old(self).ctx.holder.view()[msg.recv.index], final(self).ctx.holder.view()[msg.recv.index], msg.letter.0,
                    old(self).commands@, final(self).commands@),
            !r ==> final(self).ctx.holder.view() == old(self).ctx.holder.view() && final(self).commands@ == old(self).commands@,
            final(self).ctx.holder.spec_order() == old(self).ctx.holder.spec_order(),
            final(self).ctx.map == old(self).ctx.map,
            final(self).ctx.collision == old(self).ctx.collision,
            final(self).ctx.globalEntities == old(self).ctx.globalEntities,
            final(self).ctx.player == old(self).ctx.player,
            final(self).purgeList == old(self).purgeList,
    {
        let r = self.ctx.holder.inc(msg.recv.mask(), msg.letter.0, &mut self.commands);
        proof {
            if r {
                assert(self.ctx.holder.view().dom() =~= old(self).ctx.holder.view().dom());
            }
        }
        r
    }

    /// Queues a command for the end of the frame.
    fn push(&mut self, cmd: Command)
        ensures
            final(self).commands@ == old(self).commands@.push(cmd),
            final(self).ctx == old(self).ctx,
            final(self).purgeList == old(self).purgeList,
    {
        self.commands.push(cmd);
    }

    pub fn win(&mut self)
        ensures
            final(self).commands@ == old(self).commands@.push(Command::Win),
            final(self).ctx == old(self).ctx,
            final(self).purgeList == old(self).purgeList,
    {
        self.push(Command::Win);
    }

    /// Asks for `tile` at `location` of the active screen at the end of the frame.
    pub fn spawnTile(&mut self, tile: Tile, location: (u16, u16))
        ensures
            final(self).commands@ == old(self).commands@.push(Command::PlaceTile(tile, location)),
            final(self).ctx == old(self).ctx,
            final(self).purgeList == old(self).purgeList,
    {
        self.push(Command::PlaceTile(tile, location));
    }

    /// Asks for `tile` on the rectangle from `locationBegin` to `locationEnd`
    /// at the end of the frame.
    pub fn spawnTiles(&mut self, tile: Tile, locationBegin: (u16, u16), locationEnd: (u16, u16))
        ensures
            final(self).commands@ == old(self).commands@.push(Command::PlaceTiles(tile, locationBegin, locationEnd)),
            final(self).ctx == old(self).ctx,
            final(self).purgeList == old(self).purgeList,
    {
        self.push(Command::PlaceTiles(tile, locationBegin, locationEnd));
    }

    /// Asks for an entity of the store to start running (globally, or on the
    /// active screen) at the end of the frame.
    pub fn activateEntity(&mut self, entity: ID, global: bool)
        ensures
            final(self).commands@ == old(self).commands@.push(Command::ActivateEntity(entity, global)),
            final(self).ctx == old(self).ctx,
            final(self).purgeList == old(self).purgeList,
    {
        self.push(Command::ActivateEntity(entity, global));
    }

    pub fn informPlayerSnakeBoss(&mut self, id: ID)
        ensures
            final(self).commands@ == old(self).commands@.push(Command::InformPlayerSnakeBoss(id)),
            final(self).ctx == old(self).ctx,
            final(self).purgeList == old(self).purgeList,
    {
        self.push(Command::InformPlayerSnakeBoss(id));
    }

    pub fn informPlayerSnakeBossDeath(&mut self)
        ensures
            final(self).commands@ == old(self).commands@.push(Command::InformPlayerSnakeBossDeath),
            final(self).ctx == old(self).ctx,
            final(self).purgeList == old(self).purgeList,
    {
        self.push(Command::InformPlayerSnakeBossDeath);
    }

    /// Marks an entity for removal at the end of the frame; until then it
    /// stays in the store.
    pub fn addToPurgeList(&mut self, id: ID)
        ensures
            final(self).purgeList@ == old(self).purgeList@.push(id),
            final(self).ctx == old(self).ctx,
            final(self).commands == old(self).commands,
    {
        self.purgeList.push(id);
    }

    /// Moves an entity's own hitbox in the collision index, at once.
    pub fn updatePosition(&mut self, id: ID, hitbox: Rect, prevHitbox: Rect)
        requires
            old(self).wf(),
        ensures
            final(self).wf(),
            final(self).ctx.candidate_ids_grew(old(self).ctx, id, hitbox, prevHitbox),
            crate::collision::distinct_pairs(final(self).ctx.collision.spec_candidates()),
            final(self).ctx.collision.spec_candidates().subrange(0, old(self).ctx.collision.spec_candidates().len() as int)
                == old(self).ctx.collision.spec_candidates(),
            forall|i: int| old(self).ctx.collision.spec_candidates().len() <= i < final(self).ctx.collision.spec_candidates().len()
                ==> #[trigger] final(self).ctx.collision.new_pair(old(self).ctx.collision, id, hitbox, prevHitbox, i),
            forall|x: int, y: int| final(self).ctx.collision.in_grid(x, y) ==> #[trigger] final(self).ctx.collision.cell(x, y) == if covers(
                old(self).ctx.collision.spec_width(),
                old(self).ctx.collision.spec_height(),
                hitbox,
                x,
                y,
            ) {
                EntityHitbox { id, hitbox }
            } else {
                old(self).ctx.collision.cleared_cell(id, prevHitbox, x, y)
            },
            final(self).ctx.holder == old(self).ctx.holder,
            final(self).ctx.map == old(self).ctx.map,
            final(self).ctx.globalEntities == old(self).ctx.globalEntities,
            final(self).ctx.player == old(self).ctx.player,
            final(self).commands == old(self).commands,
            final(self).purgeList == old(self).purgeList,
    {
        self.ctx.updatePosition(id, hitbox, prevHitbox);
    }

    /// Takes an entity's own hitbox out of the collision index, at once.
    pub fn removeCollision(&mut self, id: ID, hitbox: Rect)
        requires
            old(self).wf(),
        ensures
            final(self).wf(),
            final(self).ctx.collision.candidate_ids() == old(self).ctx.collision.candidate_ids().filter(|p: (ID, ID)| p.0 != id && p.1 != id),
            final(self).ctx.collision.spec_candidates() == old(self).ctx.collision.spec_candidates().filter(
                |p: (EntityHitbox, EntityHitbox)| p.0.id != id && p.1.id != id,
            ),
            forall|x: int, y: int| final(self).ctx.collision.in_grid(x, y) ==> #[trigger] final(self).ctx.collision.cell(x, y)
                == old(self).ctx.collision.cleared_cell(id, hitbox, x, y),
            final(self).ctx.holder == old(self).ctx.holder,
            final(self).ctx.map == old(self).ctx.map,
            final(self).ctx.globalEntities == old(self).ctx.globalEntities,
            final(self).ctx.player == old(self).ctx.player,
            final(self).commands == old(self).commands,
            final(self).purgeList == old(self).purgeList,
    {
        self.ctx.removeCollision(id, hitbox);
    }

    /// Removes every entity of the purge list from the world, in order, and
    /// empties the list. An entity that cannot be removed is skipped; the
    /// result says whether every removal went through.
    pub fn purge(&mut self) -> (r: bool)
        requires
            old(self).wf(),
        ensures
            purged(*old(self), *final(self)),
    {
        let ghost start = *self;
        let ghost l = self.purgeList@;
        let mut ok = true;
        let mut i: usize = 0;
        while i < self.purgeList.len()
            invariant
                self.wf(),
                i <= self.purgeList@.len(),
                l == start.purgeList@,
                self.purgeList == start.purgeList,
                self.commands == start.commands,
                self.ctx.player == start.ctx.player,
                self.ctx.collision == start.ctx.collision,
                self.ctx.map.spec_active_id() == start.ctx.map.spec_active_id(),
                forall|x: int, y: int| #[trigger] self.ctx.map.spec_active_tile(x, y) == start.ctx.map.spec_active_tile(x, y),
                forall|k: u64| #[trigger] self.ctx.holder.view().contains_key(k) <==> (start.ctx.holder.view().contains_key(k)
                    && !listed(l.subrange(0, i as int), k)),
                forall|k: u64| #[trigger] self.ctx.holder.view().contains_key(k) ==> self.ctx.holder.view()[k] == start.ctx.holder.view()[k],
                forall|e: u64| #[trigger] self.ctx.globalEntities@.contains(e) <==> (start.ctx.globalEntities@.contains(e)
                    && !listed(l.subrange(0, i as int), e)),
                start.ctx.map.spec_active() is Some ==> self.ctx.map.spec_active() is Some
                    && forall|e: u64| #[trigger] self.ctx.map.spec_active()->0.spec_entities().contains(e)
                        <==> (start.ctx.map.spec_active()->0.spec_entities().contains(e) && !listed(l.subrange(0, i as int), e)),
                start.ctx.map.spec_active() is None ==> self.ctx.map == start.ctx.map,
                forall|k: usize| k != start.ctx.map.spec_active_id() ==> #[trigger] self.ctx.map.spec_screen(k) == start.ctx.map.spec_screen(k),
            decreases self.purgeList@.len() - i,
        {
            let id = self.purgeList[i];
            let ghost prev = *self;
            match self.ctx.removeEntity(id) {
                Ok(_) => {},
                Err(_) => {
                    ok = false;
                },
            }
            proof {
                assert forall|k: u64| #[trigger] listed(l.subrange(0, i as int + 1), k) == (listed(l.subrange(0, i as int), k) || k == id.index) by {
                    if listed(l.subrange(0, i as int + 1), k) {
                        let j = choose|j: int| 0 <= j < i + 1 && #[trigger] l.subrange(0, i as int + 1)[j].index == k;
                        if j < i {
                            assert(l.subrange(0, i as int)[j].index == k);
                        }
                    }
                    if listed(l.subrange(0, i as int), k) {
                        let j = choose|j: int| 0 <= j < i && #[trigger] l.subrange(0, i as int)[j].index == k;
                        assert(l.subrange(0, i as int + 1)[j].index == k);
                    }
                    if k == id.index {
                        assert(l.subrange(0, i as int + 1)[i as int].index == k);
                    }
                }
            }
            i = i + 1;
        }
        proof {
            assert(l.subrange(0, i as int) =~= l);
        }
        self.purgeList.clear();
        ok
    }

    /// Runs the queued commands in the order they were queued and empties the
    /// queue. A `Win` stops the run: the commands after it are dropped and the
    /// result is false. Tiles change only on the active screen; activations
    /// and player notices reach only entities the store holds.
    pub fn doCommands(&mut self) -> (r: bool)
        requires
            old(self).wf(),
        ensures
            commands_ran(*old(self), *final(self), r),
    {
        let ghost start = *self;
        let ghost c = self.commands@;
        let n = self.commands.len();
        let mut i: usize = 0;
        while i < n
            invariant
                self.wf(),
                start == *old(self),
                c == start.commands@,
                n == c.len(),
                i <= n,
                self.commands@ == c,
                no_win(c.subrange(0, i as int)),
                self.purgeList == start.purgeList,
                self.ctx.player == start.ctx.player,
                self.ctx.collision == start.ctx.collision,
                self.ctx.map.spec_active_id() == start.ctx.map.spec_active_id(),
                self.ctx.holder.view().dom() == start.ctx.holder.view().dom(),
                forall|x: int, y: int| #[trigger] self.ctx.map.on_active(x, y) == start.ctx.map.on_active(x, y),
                forall|x: int, y: int| #[trigger] self.ctx.map.spec_active_tile(x, y) == tile_after(
                    c.subrange(0, i as int),
                    start.ctx.map.on_active(x, y),
                    x,
                    y,
                    start.ctx.map.spec_active_tile(x, y),
                ),
                forall|j: int| 0 <= j < i && (#[trigger] c[j]) is ActivateEntity
                    && start.ctx.holder.view().contains_key(c[j]->ActivateEntity_0.index)
                    && c[j]->ActivateEntity_1 ==> self.ctx.globalEntities@.contains(c[j]->ActivateEntity_0.index),
                start.ctx.map.spec_active() is Some ==> self.ctx.map.spec_active() is Some,
                forall|j: int| 0 <= j < i && (#[trigger] c[j]) is ActivateEntity
                    && start.ctx.holder.view().contains_key(c[j]->ActivateEntity_0.index)
                    && !c[j]->ActivateEntity_1 && start.ctx.map.spec_active() is Some
                    ==> self.ctx.map.spec_active()->0.spec_entities().contains(c[j]->ActivateEntity_0.index),
                forall|k: u64| k != start.ctx.player.index && #[trigger] start.ctx.holder.view().contains_key(k)
                    ==> self.ctx.holder.view()[k] == start.ctx.holder.view()[k],
                start.ctx.holder.view().contains_key(start.ctx.player.index) ==> self.ctx.holder.view()[start.ctx.player.index]
                    == notices(c.subrange(0, i as int), start.ctx.holder.view()[start.ctx.player.index]),
                forall|e: u64| #[trigger] start.ctx.globalEntities@.contains(e) ==> self.ctx.globalEntities@.contains(e),
                start.ctx.map.spec_active() is Some ==> forall|e: u64| #[trigger] start.ctx.map.spec_active()->0.spec_entities().contains(e)
                    ==> self.ctx.map.spec_active()->0.spec_entities().contains(e),
                forall|k: usize| k != start.ctx.map.spec_active_id() ==> #[trigger] self.ctx.map.spec_screen(k) == start.ctx.map.spec_screen(k),
            decreases n - i,
        {
            let cmd = self.commands[i];
            let ghost prev = *self;
            proof {
                assert(c.subrange(0, i as int + 1).drop_last() =~= c.subrange(0, i as int));
                assert(c.subrange(0, i as int + 1).last() == cmd);
            }
            match cmd {
                Command::PlaceTile(tile, location) => {
                    let placed = self.ctx.map.changeTile(location, tile);
                    proof {
                        assert forall|x: int, y: int| #[trigger] self.ctx.map.on_active(x, y) == start.ctx.map.on_active(x, y) by {
                            assert(prev.ctx.map.on_active(x, y) == start.ctx.map.on_active(x, y));
                        }
                        assert(placed == prev.ctx.map.on_active(location.0 as int, location.1 as int));
                        assert forall|x: int, y: int| #[trigger] self.ctx.map.spec_active_tile(x, y) == tile_after(
                            c.subrange(0, i as int + 1), start.ctx.map.on_active(x, y), x, y, start.ctx.map.spec_active_tile(x, y)) by {
                            assert(prev.ctx.map.spec_active_tile(x, y) == tile_after(c.subrange(0, i as int), start.ctx.map.on_active(x, y), x, y, start.ctx.map.spec_active_tile(x, y)));
                            assert(prev.ctx.map.on_active(x, y) == start.ctx.map.on_active(x, y));
                        }
                    }
                },
                Command::PlaceTiles(tile, begin, end) => {
                    self.ctx.map.spawnTiles(tile, begin, end);
                    proof {
                        assert forall|x: int, y: int| #[trigger] self.ctx.map.on_active(x, y) == start.ctx.map.on_active(x, y) by {
                            assert(prev.ctx.map.on_active(x, y) == start.ctx.map.on_active(x, y));
                        }
                        assert forall|x: int, y: int| #[trigger] self.ctx.map.spec_active_tile(x, y) == tile_after(
                            c.subrange(0, i as int + 1), start.ctx.map.on_active(x, y), x, y, start.ctx.map.spec_active_tile(x, y)) by {
                            assert(prev.ctx.map.spec_active_tile(x, y) == tile_after(c.subrange(0, i as int), start.ctx.map.on_active(x, y), x, y, start.ctx.map.spec_active_tile(x, y)));
                            assert(prev.ctx.map.on_active(x, y) == start.ctx.map.on_active(x, y));
                        }
                    }
                },
                Command::ActivateEntity(entity, global) => {
                    if global {
                        self.ctx.activateEntityGlobal(entity);
                        proof {
                            assert forall|e: u64| #[trigger] prev.ctx.globalEntities@.contains(e) implies self.ctx.globalEntities@.contains(e) by {
                                let w = choose|w: int| 0 <= w < prev.ctx.globalEntities@.len() && prev.ctx.globalEntities@[w] == e;
                                assert(self.ctx.globalEntities@[w] == e);
                            }
                            assert forall|j: int| 0 <= j < i + 1 && (#[trigger] c[j]) is ActivateEntity
                                && start.ctx.holder.view().contains_key(c[j]->ActivateEntity_0.index)
                                && c[j]->ActivateEntity_1 implies self.ctx.globalEntities@.contains(c[j]->ActivateEntity_0.index) by {
                                if j < i {
                                    let e = c[j]->ActivateEntity_0.index;
                                    assert(prev.ctx.globalEntities@.contains(e));
                                    let w = choose|w: int| 0 <= w < prev.ctx.globalEntities@.len() && prev.ctx.globalEntities@[w] == e;
                                    assert(self.ctx.globalEntities@[w] == e);
                                } else {
                                    assert(c[j] == cmd);
                                    if prev.ctx.globalEntities@.contains(entity.index) {
                                    } else {
                                        assert(self.ctx.globalEntities@[self.ctx.globalEntities@.len() - 1] == entity.index);
                                    }
                                }
                            }
                        }
                    } else {
                        self.ctx.activateEntityActiveScreen(entity);
                    }
                },
                Command::InformPlayerSnakeBoss(id) => {
                    let player = self.ctx.player;
                    self.ctx.holder.informPlayer(player, Some(id));
                },
                Command::InformPlayerSnakeBossDeath => {
                    let player = self.ctx.player;
                    self.ctx.holder.informPlayer(player, None);
                },
                Command::Win => {
                    assert(c[i as int] is Win);
                    proof {
                        lemma_first_win(c, i as int);
                    }
                    self.commands.clear();
                    return false;
                },
            }
            i = i + 1;
        }
        proof {
            assert(c.subrange(0, n as int) =~= c);
            lemma_first_win(c, n as int);
        }
        self.commands.clear();
        true
    }
}

} // verus!
