use vstd::prelude::*;
use crate::id::ID;
use crate::message::{CollisionMsg, Envelope, Command, Request};
use crate::entity::{Entity, EntityData, update_rel};
use crate::context::GameContext;
use crate::collision::{EntityHitbox, collision_list, covers};
use crate::po::{PO, commands_ran, purged};
use crate::player::next_position;

verus! {

/// The replies proposed to the player `pid` by the owners of the ids in
/// `others` (ids of the player's own parts and ids the store lacks are skipped).
pub open spec fn replies(ctx: GameContext, pid: ID, others: Seq<ID>) -> Seq<Envelope<CollisionMsg>>
    decreases others.len(),
{
    if others.len() == 0 {
        Seq::empty()
    } else {
        let rest = replies(ctx, pid, others.drop_last());
        let o = others.last();
        if o.index != pid.index && ctx.holder.view().contains_key(o.index) {
            match ctx.holder.view()[o.index] {
                Entity::Skeleton(s) => if pid == ctx.player {
                    rest.push(Envelope { priority: 0, letter: CollisionMsg::Damage(crate::skeleton::SKELETON_DAMAGE), recv: pid, sender: s.id })
                } else {
                    rest
                },
                _ => rest,
            }
        } else {
            rest
        }
    }
}

/// What the read half of the frame yields for the entity with identity `id`
/// in the world `ctx` as it stands at the start of the frame.
pub open spec fn data_ok(ctx: GameContext, id: ID, d: EntityData) -> bool {
    if !ctx.holder.view().contains_key(id.index) {
        d is Empty
    } else {
        match ctx.holder.view()[id.index] {
            Entity::Player(p) => d is Player && d->Player_0.nextPos == next_position(p.position, p.velocity)
                && d->Player_0.messages@ == replies(ctx, p.id, collision_list(ctx.collision.spec_candidates(), p.id)),
            Entity::Skeleton(s) => d is Skeleton && d->Skeleton_0.nextPos == s.planned(ctx.map, ctx.spec_player_position()),
            Entity::Snake(s) => d is Snake && d->Snake_0 == s.planned(ctx.map, ctx.spec_player_position()).0,
            _ => d is Empty,
        }
    }
}

/// The commands the read half of the frame queues for the entity `id`.
pub open spec fn data_commands(ctx: GameContext, id: ID) -> Seq<Command> {
    if ctx.holder.view().contains_key(id.index) {
        match ctx.holder.view()[id.index] {
            Entity::Snake(s) => s.planned(ctx.map, ctx.spec_player_position()).1,
            _ => Seq::empty(),
        }
    } else {
        Seq::empty()
    }
}

/// The commands the read half queues for all of `ids`, in order.
pub open spec fn phase_commands(ctx: GameContext, ids: Seq<ID>) -> Seq<Command>
    decreases ids.len(),
{
    if ids.len() == 0 {
        Seq::empty()
    } else {
        phase_commands(ctx, ids.drop_last()) + data_commands(ctx, ids.last())
    }
}

/// Owner identities of the indices, in order.
pub open spec fn as_ids(s: Seq<u64>) -> Seq<ID> {
    s.map_values(|k: u64| ID { index: k, sub: 0 })
}

/// Whether the entity with index `k` runs this frame.
pub open spec fn is_due(ctx: GameContext, k: u64) -> bool {
    ctx.holder.view().contains_key(k) && ctx.holder.view()[k].spec_needs_execution()
}

/// The entities whose removal the requests ask for, in order.
pub open spec fn purges(out: Seq<Request>) -> Seq<ID>
    decreases out.len(),
{
    if out.len() == 0 {
        Seq::empty()
    } else {
        match out.last() {
            Request::Purge(id) => purges(out.drop_last()).push(id),
            _ => purges(out.drop_last()),
        }
    }
}

/// What carrying out one request does to the world (`a` becomes `b`).
pub open spec fn request_step(a: PO, r: Request, b: PO) -> bool {
    &&& b.wf()
    &&& b.ctx.map == a.ctx.map
    &&& b.ctx.globalEntities == a.ctx.globalEntities
    &&& b.ctx.player == a.ctx.player
    &&& match r {
        Request::UpdatePosition(id, h, p) => {
            &&& b.ctx.holder == a.ctx.holder
            &&& b.commands == a.commands
            &&& b.purgeList == a.purgeList
            &&& b.ctx.candidate_ids_grew(a.ctx, id, h, p)
            &&& forall|x: int, y: int| b.ctx.collision.in_grid(x, y) ==> #[trigger] b.ctx.collision.cell(x, y) == if covers(
                a.ctx.collision.spec_width(), a.ctx.collision.spec_height(), h, x, y) {
                EntityHitbox { id, hitbox: h }
            } else {
                a.ctx.collision.cleared_cell(id, p, x, y)
            }
        },
        Request::RemoveCollision(id, h) => {
            &&& b.ctx.holder == a.ctx.holder
            &&& b.commands == a.commands
            &&& b.purgeList == a.purgeList
            &&& b.ctx.collision.spec_candidates() == a.ctx.collision.spec_candidates().filter(
                |q: (EntityHitbox, EntityHitbox)| q.0.id != id && q.1.id != id)
            &&& forall|x: int, y: int| b.ctx.collision.in_grid(x, y) ==> #[trigger] b.ctx.collision.cell(x, y)
                == a.ctx.collision.cleared_cell(id, h, x, y)
        },
        Request::Purge(id) => b.ctx == a.ctx && b.commands == a.commands && b.purgeList@ == a.purgeList@.push(id),
        Request::Counter(m) => {
            &&& b.ctx.collision == a.ctx.collision
            &&& b.purgeList == a.purgeList
            &&& a.ctx.holder.view().contains_key(m.recv.index) ==> b.ctx.holder.view() == a.ctx.holder.view().insert(
                m.recv.index, b.ctx.holder.view()[m.recv.index])
                && Entity::inc_effect(a.ctx.holder.view()[m.recv.index], b.ctx.holder.view()[m.recv.index], m.letter.0,
                    a.commands@, b.commands@)
            &&& !a.ctx.holder.view().contains_key(m.recv.index) ==> b.ctx.holder.view() == a.ctx.holder.view()
                && b.commands@ == a.commands@
        },
        Request::Collision(m) => {
            &&& b.ctx.collision == a.ctx.collision
            &&& b.commands == a.commands
            &&& b.purgeList == a.purgeList
            &&& b.ctx.holder.view() == if a.ctx.holder.view().contains_key(m.recv.index) {
                a.ctx.holder.view().insert(m.recv.index, a.ctx.holder.view()[m.recv.index].spec_collide(m.letter))
            } else {
                a.ctx.holder.view()
            }
        },
    }
}

/// `t` is the sequence of worlds that carrying out `out` in order passes through, from `a` to `b`.
pub open spec fn requests_trace(a: PO, out: Seq<Request>, b: PO, t: Seq<PO>) -> bool {
    &&& t.len() == out.len() + 1
    &&& t[0] == a
    &&& t[out.len() as int] == b
    &&& forall|i: int| 0 <= i < out.len() ==> #[trigger] request_step(t[i], out[i], t[i + 1])
}

/// One entity's commit: the entity `id` becomes what its update makes of it
/// (`mid`), then the requests `out` it made are carried out, ending in `b`.
pub open spec fn commit_via(a: PO, id: ID, d: EntityData, b: PO, mid: PO, out: Seq<Request>, t: Seq<PO>) -> bool {
    &&& mid.wf()
    &&& mid.ctx.map == a.ctx.map
    &&& mid.ctx.collision == a.ctx.collision
    &&& mid.ctx.globalEntities == a.ctx.globalEntities
    &&& mid.ctx.player == a.ctx.player
    &&& mid.commands == a.commands
    &&& mid.purgeList == a.purgeList
    &&& a.ctx.holder.view().contains_key(id.index) ==> mid.ctx.holder.view() == a.ctx.holder.view().insert(
        id.index, mid.ctx.holder.view()[id.index])
        && update_rel(a.ctx.holder.view()[id.index], d, mid.ctx.holder.view()[id.index], Seq::empty(), out)
    &&& !a.ctx.holder.view().contains_key(id.index) ==> mid.ctx.holder.view() == a.ctx.holder.view() && out.len() == 0
    &&& requests_trace(mid, out, b, t)
}

pub open spec fn commit_step(a: PO, id: ID, d: EntityData, b: PO) -> bool {
    exists|mid: PO, out: Seq<Request>, t: Seq<PO>| #[trigger] commit_via(a, id, d, b, mid, out, t)
}

/// `t` is the sequence of worlds that phase two passes through, one commit per due entity.
pub open spec fn phase_two_trace(a: PO, due: Seq<ID>, datas: Seq<EntityData>, b: PO, t: Seq<PO>) -> bool {
    &&& t.len() == due.len() + 1
    &&& t[0] == a
    &&& t[due.len() as int] == b
    &&& forall|i: int| 0 <= i < due.len() ==> #[trigger] commit_step(t[i], due[i], datas[i], t[i + 1])
}

/// What a whole frame does, state by state: `ticked` after the counters
/// advanced, `read` after phase one on the due entities `due` (which decided
/// `datas` from the ticked world) and the reset of the candidates, `committed`
/// after phase two, `ran_state` after the queued commands ran (`going` when
/// no `Win` was among them), and `end` after the purge.
pub open spec fn frame_via(
    start: PO,
    ticked: PO,
    due: Seq<ID>,
    datas: Seq<EntityData>,
    read: PO,
    committed: PO,
    ran_state: PO,
    end: PO,
    going: bool,
    t: Seq<PO>,
) -> bool {
    &&& ticked.ctx.holder.view().dom() == start.ctx.holder.view().dom()
    &&& forall|k: u64| #[trigger] start.ctx.holder.view().contains_key(k) ==> ticked.ctx.holder.view()[k] == start.ctx.holder.view()[k].spec_tick()
    &&& ticked.ctx.map == start.ctx.map
    &&& ticked.ctx.collision == start.ctx.collision
    &&& ticked.ctx.globalEntities == start.ctx.globalEntities
    &&& ticked.ctx.player == start.ctx.player
    &&& ticked.commands == start.commands
    &&& ticked.purgeList == start.purgeList
    &&& ticked.wf()
    &&& due == as_ids(ticked.ctx.spec_scheduled().filter(|k: u64| is_due(ticked.ctx, k)))
    &&& datas.len() == due.len()
    &&& forall|i: int| 0 <= i < due.len() ==> data_ok(ticked.ctx, #[trigger] due[i], datas[i])
    &&& read.ctx.holder == ticked.ctx.holder
    &&& read.ctx.map == ticked.ctx.map
    &&& read.ctx.globalEntities == ticked.ctx.globalEntities
    &&& read.ctx.player == ticked.ctx.player
    &&& read.ctx.collision.spec_candidates().len() == 0
    &&& read.ctx.collision.spec_width() == ticked.ctx.collision.spec_width()
    &&& read.ctx.collision.spec_height() == ticked.ctx.collision.spec_height()
    &&& forall|x: int, y: int| #[trigger] read.ctx.collision.cell(x, y) == ticked.ctx.collision.cell(x, y)
    &&& read.commands@ == ticked.commands@ + phase_commands(ticked.ctx, due)
    &&& read.purgeList == ticked.purgeList
    &&& read.wf()
    &&& phase_two_trace(read, due, datas, committed, t)
    &&& commands_ran(committed, ran_state, going)
    &&& purged(ran_state, end)
}

/// Drives the entities through a frame.
pub struct Scheduler {}

impl Scheduler {
    pub fn new() -> (r: Scheduler) {
        Scheduler {}
    }

    /// The replies the entities overlapping player part `pid` propose.
    fn gatherReplies(ctx: &GameContext, pid: ID) -> (r: Vec<Envelope<CollisionMsg>>)
        requires
            ctx.wf(),
        ensures
            r@ == replies(*ctx, pid, collision_list(ctx.collision.spec_candidates(), pid)),
    {
        let others = ctx.getCollisionList(pid);
        let mut r: Vec<Envelope<CollisionMsg>> = Vec::new();
        let mut i: usize = 0;
        while i < others.len()
            invariant
                ctx.wf(),
                i <= others@.len(),
                r@ == replies(*ctx, pid, others@.subrange(0, i as int)),
            decreases others@.len() - i,
        {
            let o = others[i];
            proof {
                assert(others@.subrange(0, i as int + 1).drop_last() =~= others@.subrange(0, i as int));
            }
            if o.index != pid.index {
                match ctx.holder.get(o) {
                    Some(e) => {
                        match e.collideWith(pid, ctx.player) {
                            Some(m) => r.push(m),
                            None => {},
                        }
                    },
                    None => {},
                }
            }
            i = i + 1;
        }
        proof {
            assert(others@.subrange(0, i as int) =~= others@);
        }
        r
    }

    /// The read half of the frame for one entity: it sees the world only
    /// through `ctx`, which it cannot change, and may queue commands.
    pub fn getData(ctx: &GameContext, id: ID, commands: &mut Vec<Command>) -> (r: EntityData)
        requires
            ctx.wf(),
        ensures
            data_ok(*ctx, id, r),
            final(commands)@ == old(commands)@ + data_commands(*ctx, id),
    {
        let player = ctx.playerPosition();
        match ctx.holder.get(id) {
            None => {
                assert(commands@ =~= commands@ + Seq::<Command>::empty());
                EntityData::Empty
            },
            Some(e) => match e {
                Entity::Player(p) => {
                    let messages = Self::gatherReplies(ctx, p.id);
                    assert(commands@ =~= commands@ + Seq::<Command>::empty());
                    EntityData::Player(p.getData(messages))
                },
                Entity::Skeleton(s) => {
                    assert(commands@ =~= commands@ + Seq::<Command>::empty());
                    EntityData::Skeleton(s.getData(&ctx.map, player))
                },
                Entity::Snake(s) => EntityData::Snake(s.getData(&ctx.map, player, commands)),
                _ => {
                    assert(commands@ =~= commands@ + Seq::<Command>::empty());
                    EntityData::Empty
                },
            },
        }
    }

    /// The read half of the frame for every entity of `due`, in order. Every
    /// entity reads the same world, as it stood when the phase began.
    pub fn phaseOne(ctx: &GameContext, due: &Vec<ID>, commands: &mut Vec<Command>) -> (r: Vec<EntityData>)
        requires
            ctx.wf(),
        ensures
            r@.len() == due@.len(),
            forall|i: int| 0 <= i < due@.len() ==> data_ok(*ctx, #[trigger] due@[i], r@[i]),
            final(commands)@ == old(commands)@ + phase_commands(*ctx, due@),
    {
        let mut r: Vec<EntityData> = Vec::new();
        let ghost start = commands@;
        let mut i: usize = 0;
        while i < due.len()
            invariant
                ctx.wf(),
                i <= due@.len(),
                r@.len() == i,
                forall|j: int| 0 <= j < i ==> data_ok(*ctx, #[trigger] due@[j], r@[j]),
                commands@ == start + phase_commands(*ctx, due@.subrange(0, i as int)),
            decreases due@.len() - i,
        {
            let d = Self::getData(ctx, due[i], commands);
            r.push(d);
            proof {
                assert(due@.subrange(0, i as int + 1).drop_last() =~= due@.subrange(0, i as int));
                assert(commands@ =~= start + phase_commands(*ctx, due@.subrange(0, i as int + 1)));
            }
            i = i + 1;
        }
        proof {
            assert(due@.subrange(0, i as int) =~= due@);
        }
        r
    }

    /// Appends to `r` the entities of `ids` that run this frame.
    fn appendDue(ctx: &GameContext, ids: &Vec<ID>, keys: Ghost<Seq<u64>>, r: &mut Vec<ID>)
        requires
            ctx.wf(),
            ids@ == as_ids(keys@),
        ensures
            final(r)@ == old(r)@ + as_ids(keys@.filter(|k: u64| is_due(*ctx, k))),
    {
        let ghost start = r@;
        let ghost ks = keys@;
        let mut i: usize = 0;
        while i < ids.len()
            invariant
                ctx.wf(),
                ids@ == as_ids(ks),
                i <= ids@.len(),
                r@ == start + as_ids(ks.subrange(0, i as int).filter(|k: u64| is_due(*ctx, k))),
            decreases ids@.len() - i,
        {
            let id = ids[i];
            proof {
                assert(id == as_ids(ks)[i as int]);
                assert(ks.subrange(0, i as int + 1) =~= ks.subrange(0, i as int).push(ks[i as int]));
                ks.subrange(0, i as int).lemma_filter_push(ks[i as int], |k: u64| is_due(*ctx, k));
            }
            let due = match ctx.holder.get(id) {
                Some(e) => e.needsExecution(),
                None => false,
            };
            if due {
                r.push(id);
            }
            proof {
                assert(r@ =~= start + as_ids(ks.subrange(0, i as int + 1).filter(|k: u64| is_due(*ctx, k))));
            }
            i = i + 1;
        }
        proof {
            assert(ks.subrange(0, i as int) =~= ks);
        }
    }

    /// The entities that run this frame: those on the active screen, then
    /// those run globally, each if the store holds it and it asks to run.
    pub fn dueEntities(ctx: &GameContext) -> (r: Vec<ID>)
        requires
            ctx.wf(),
        ensures
            r@ == as_ids(ctx.spec_scheduled().filter(|k: u64| is_due(*ctx, k))),
    {
        let screen = ctx.activeScreenEntityIter();
        let globals = ctx.globalEntityIter();
        let ghost ss = match ctx.map.spec_active() {
            Some(s) => s.spec_entities(),
            None => Seq::<u64>::empty(),
        };
        assert(screen@ =~= as_ids(ss));
        assert(globals@ =~= as_ids(ctx.globalEntities@));
        let mut r: Vec<ID> = Vec::new();
        Self::appendDue(ctx, &screen, Ghost(ss), &mut r);
        Self::appendDue(ctx, &globals, Ghost(ctx.globalEntities@), &mut r);
        proof {
            let f = |k: u64| is_due(*ctx, k);
            assert(ctx.spec_scheduled() =~= ss + ctx.globalEntities@);
            Seq::filter_distributes_over_add(ss, ctx.globalEntities@, f);
            assert(r@ =~= as_ids(ctx.spec_scheduled().filter(f)));
        }
        r
    }

    /// Carries out, in order, what an entity asked for while committing:
    /// hitbox moves at once, messages delivered at once, removals deferred
    /// to the purge list.
    pub fn applyRequests(po: &mut PO, out: &Vec<Request>)
        requires
            old(po).wf(),
        ensures
            final(po).wf(),
            final(po).ctx.holder.view().dom() == old(po).ctx.holder.view().dom(),
            final(po).ctx.holder.spec_order() == old(po).ctx.holder.spec_order(),
            final(po).purgeList@ == old(po).purgeList@ + purges(out@),
            final(po).ctx.player == old(po).ctx.player,
            final(po).ctx.globalEntities == old(po).ctx.globalEntities,
            final(po).ctx.map == old(po).ctx.map,
            exists|t: Seq<PO>| #[trigger] requests_trace(*old(po), out@, *final(po), t),
    {
        let ghost start = *po;
        let ghost mut t: Seq<PO> = seq![*po];
        let mut i: usize = 0;
        while i < out.len()
            invariant
                po.wf(),
                i <= out@.len(),
                t.len() == i + 1,
                t[0] == start,
                start == *old(po),
                t[i as int] == *po,
                forall|j: int| 0 <= j < i ==> #[trigger] request_step(t[j], out@[j], t[j + 1]),
                po.ctx.holder.view().dom() == start.ctx.holder.view().dom(),
                po.ctx.holder.spec_order() == start.ctx.holder.spec_order(),
                po.purgeList@ == start.purgeList@ + purges(out@.subrange(0, i as int)),
                po.ctx.player == start.ctx.player,
                po.ctx.globalEntities == start.ctx.globalEntities,
                po.ctx.map == start.ctx.map,
            decreases out@.len() - i,
        {
            let ghost prev = *po;
            proof {
                assert(out@.subrange(0, i as int + 1).drop_last() =~= out@.subrange(0, i as int));
            }
            match out[i] {
                Request::UpdatePosition(id, hitbox, prevHitbox) => po.updatePosition(id, hitbox, prevHitbox),
                Request::RemoveCollision(id, hitbox) => po.removeCollision(id, hitbox),
                Request::Purge(id) => {
                    po.addToPurgeList(id);
                    proof {
                        assert(po.purgeList@ =~= start.purgeList@ + purges(out@.subrange(0, i as int + 1)));
                    }
                },
                Request::Counter(msg) => {
                    let delivered = po.sendCounterMsg(msg);
                    proof {
                        assert(po.ctx.holder.view().dom() =~= prev.ctx.holder.view().dom());
                    }
                },
                Request::Collision(msg) => {
                    po.sendCollisionMsg(msg);
                },
            }
            proof {
                assert(request_step(prev, out@[i as int], *po));
                t = t.push(*po);
                assert forall|j: int| 0 <= j < i + 1 implies #[trigger] request_step(t[j], out@[j], t[j + 1]) by {
                    if j < i {
                        assert(t[j] == t.drop_last()[j]);
                        assert(t[j + 1] == t.drop_last()[j + 1]);
                    }
                }
            }
            i = i + 1;
        }
        proof {
            assert(out@.subrange(0, i as int) =~= out@);
            assert(requests_trace(start, out@, *po, t));
        }
    }

    /// The commit half of the frame for every entity of `due`, in order, each
    /// with what it decided in the read half. Nothing leaves the store here:
    /// removals wait in the purge list.
    pub fn phaseTwo(po: &mut PO, due: &Vec<ID>, datas: &Vec<EntityData>)
        requires
            old(po).wf(),
            due@.len() == datas@.len(),
        ensures
            final(po).wf(),
            final(po).ctx.holder.view().dom() == old(po).ctx.holder.view().dom(),
            final(po).purgeList@.subrange(0, old(po).purgeList@.len() as int) == old(po).purgeList@,
            final(po).purgeList@.len() >= old(po).purgeList@.len(),
            final(po).ctx.player == old(po).ctx.player,
            exists|t: Seq<PO>| #[trigger] phase_two_trace(*old(po), due@, datas@, *final(po), t),
    {
        let ghost start = *po;
        let ghost mut t: Seq<PO> = seq![*po];
        let mut i: usize = 0;
        while i < due.len()
            invariant
                po.wf(),
                due@.len() == datas@.len(),
                i <= due@.len(),
                start == *old(po),
                t.len() == i + 1,
                t[0] == start,
                t[i as int] == *po,
                forall|j: int| 0 <= j < i ==> #[trigger] commit_step(t[j], due@[j], datas@[j], t[j + 1]),
                po.ctx.holder.view().dom() == start.ctx.holder.view().dom(),
                po.purgeList@.subrange(0, start.purgeList@.len() as int) == start.purgeList@,
                po.purgeList@.len() >= start.purgeList@.len(),
                po.ctx.player == start.ctx.player,
            decreases due@.len() - i,
        {
            let mut out: Vec<Request> = Vec::new();
            let ghost prev = *po;
            po.ctx.holder.update(due[i], &datas[i], &mut out);
            proof {
                assert(po.ctx.wf()) by {
                    let c = po.ctx.holder.spec_current_id();
                    assert forall|k: usize| #[trigger] po.ctx.map.spec_screen(k) is Some implies crate::context::all_below(po.ctx.map.spec_screen(k)->0.spec_entities(), c) by {
                        assert(prev.ctx.map.spec_screen(k) is Some);
                    }
                }
            }
            let ghost mid = *po;
            Self::applyRequests(po, &out);
            proof {
                let rt = choose|rt: Seq<PO>| #[trigger] requests_trace(mid, out@, *po, rt);
                assert(out@ == Seq::<Request>::empty() + out@);
                assert(commit_via(prev, due@[i as int], datas@[i as int], *po, mid, out@, rt));
                assert(commit_step(prev, due@[i as int], datas@[i as int], *po));
                t = t.push(*po);
                assert forall|j: int| 0 <= j < i + 1 implies #[trigger] commit_step(t[j], due@[j], datas@[j], t[j + 1]) by {
                    if j < i {
                        assert(t[j] == t.drop_last()[j]);
                        assert(t[j + 1] == t.drop_last()[j + 1]);
                    }
                }
            }
            proof {
                assert(po.purgeList@.subrange(0, start.purgeList@.len() as int) =~= start.purgeList@) by {
                    assert(po.purgeList@ == mid.purgeList@ + purges(out@));
                    assert forall|j: int| 0 <= j < start.purgeList@.len() implies po.purgeList@[j] == start.purgeList@[j] by {
                        assert(mid.purgeList@.subrange(0, start.purgeList@.len() as int)[j] == start.purgeList@[j]);
                    }
                }
            }
            i = i + 1;
        }
        proof {
            assert(phase_two_trace(start, due@, datas@, *po, t));
        }
    }

    /// Advances every entity's per-frame counters.
    pub fn tick(ctx: &mut GameContext)
        requires
            old(ctx).wf(),
        ensures
            final(ctx).wf(),
            final(ctx).holder.view().dom() == old(ctx).holder.view().dom(),
            forall|k: u64| #[trigger] old(ctx).holder.view().contains_key(k) ==> final(ctx).holder.view()[k] == old(ctx).holder.view()[k].spec_tick(),
            final(ctx).player == old(ctx).player,
            final(ctx).map == old(ctx).map,
            final(ctx).globalEntities == old(ctx).globalEntities,
            final(ctx).collision == old(ctx).collision,
    {
        let ghost before = *ctx;
        ctx.holder.tickAll();
        proof {
            let c = ctx.holder.spec_current_id();
            assert forall|k: usize| #[trigger] ctx.map.spec_screen(k) is Some implies crate::context::all_below(ctx.map.spec_screen(k)->0.spec_entities(), c) by {
                assert(before.map.spec_screen(k) is Some);
            }
        }
    }

    /// One frame: counters advance; the due entities are picked; each reads
    /// the world in turn (phase one) without changing it; the candidate pairs
    /// are forgotten; each commits in turn (phase two); then the queued
    /// commands run and the purge list is emptied. False when a `Win` ran.
    pub fn execute(&self, po: &mut PO) -> (r: bool)
        requires
            old(po).wf(),
        ensures
            final(po).wf(),
            final(po).purgeList@.len() == 0,
            final(po).commands@.len() == 0,
            final(po).ctx.holder.view().dom().subset_of(old(po).ctx.holder.view().dom()),
            forall|j: int| 0 <= j < old(po).purgeList@.len() ==> !final(po).ctx.holder.view().contains_key(#[trigger] old(po).purgeList@[j].index),
            final(po).ctx.player == old(po).ctx.player,
            exists|ticked: PO, due: Seq<ID>, datas: Seq<EntityData>, read: PO, committed: PO, ran_state: PO, t: Seq<PO>|
                #[trigger] frame_via(*old(po), ticked, due, datas, read, committed, ran_state, *final(po), r, t),
    {
        let ghost start = *po;
        Self::tick(&mut po.ctx);
        let ghost ticked = *po;
        let due = Self::dueEntities(&po.ctx);
        let datas = Self::phaseOne(&po.ctx, &due, &mut po.commands);
        po.ctx.resetCollisionLists();
        let ghost read = *po;
        Self::phaseTwo(po, &due, &datas);
        let ghost committed = *po;
        let r = po.doCommands();
        let ghost after_commands = *po;
        po.purge();
        proof {
            assert forall|j: int| 0 <= j < start.purgeList@.len() implies !po.ctx.holder.view().contains_key(#[trigger] start.purgeList@[j].index) by {
                assert(committed.purgeList@.subrange(0, start.purgeList@.len() as int)[j] == start.purgeList@[j]);
                assert(after_commands.purgeList@[j] == start.purgeList@[j]);
            }
            let t = choose|t: Seq<PO>| #[trigger] phase_two_trace(read, due@, datas@, committed, t);
            assert(frame_via(start, ticked, due@, datas@, read, committed, after_commands, *po, r, t));
        }
        r
    }
}

} // verus!
