use vstd::prelude::*;
use crate::id::ID;
use crate::tile::Tile;
use crate::entity::{Entity, EntityData, EntityTraitsWrappable};
use crate::holder::Holder;
use crate::context::GameContext;
use crate::message::Command;
use crate::po::{PO, tile_after, ran, no_win, first_win, lemma_first_win};
use crate::scheduler::{data_ok, commit_via};
use crate::message::Request;

verus! {

/// An entity that `add` stored under `id` is found under that identity, as
/// the kind it was added as, until `remove` takes it out; after that it is
/// not found. (`added` is `start` after the `add`, `removed` is `added` after the `remove`.)
pub proof fn identity_stability(start: Holder, added: Holder, removed: Holder, e: Entity, id: ID)
    requires
        start.wf(),
        added.view() == start.view().insert(id.index, e.with_id(id)),
        removed.view() == added.view().remove(id.index),
    ensures
        added.view().contains_key(id.index),
        added.view()[id.index].spec_kind() == e.spec_kind(),
        !removed.view().contains_key(id.index),
{
    assert(e.with_id(id).spec_kind() == e.spec_kind());
}

/// Whether two read-phase decisions agree.
pub open spec fn same_decision(a: EntityData, b: EntityData) -> bool {
    match (a, b) {
        (EntityData::Player(x), EntityData::Player(y)) => x.nextPos == y.nextPos && x.messages@ == y.messages@,
        (EntityData::Skeleton(x), EntityData::Skeleton(y)) => x == y,
        (EntityData::Snake(x), EntityData::Snake(y)) => x == y,
        (EntityData::Empty, EntityData::Empty) => true,
        _ => false,
    }
}

/// In the read phase every entity sees the world as it stood at the start of
/// the frame: an entity decides the same whatever the order in which the due
/// entities are visited, and a skeleton steps toward the player's position
/// at the start of the frame, even when the player moves later in the same
/// frame. (`d1`, `d2` are what phase one returns for the orders `due1`, `due2`.)
pub proof fn same_frame_consistency(
    ctx: GameContext,
    due1: Seq<ID>,
    d1: Seq<EntityData>,
    due2: Seq<ID>,
    d2: Seq<EntityData>,
    i: int,
    j: int,
)
    requires
        ctx.wf(),
        d1.len() == due1.len(),
        d2.len() == due2.len(),
        forall|k: int| 0 <= k < due1.len() ==> data_ok(ctx, #[trigger] due1[k], d1[k]),
        forall|k: int| 0 <= k < due2.len() ==> data_ok(ctx, #[trigger] due2[k], d2[k]),
        0 <= i < due1.len(),
        0 <= j < due2.len(),
        due1[i] == due2[j],
    ensures
        same_decision(d1[i], d2[j]),
        ctx.holder.view().contains_key(due1[i].index) && ctx.holder.view()[due1[i].index] is Skeleton ==>
            d1[i]->Skeleton_0.nextPos == ctx.holder.view()[due1[i].index]->Skeleton_0.planned(ctx.map, ctx.spec_player_position()),
{
    assert(data_ok(ctx, due1[i], d1[i]));
    assert(data_ok(ctx, due2[j], d2[j]));
}

/// An entity put on the purge list stays in the store for the rest of the
/// frame, so messages still reach it, and is gone once the purge has run.
/// (`marked` is `start` after `addToPurgeList(id)`, `purged` is `marked` after `purge`.)
pub proof fn deferred_purge(start: PO, marked: PO, purged: PO, id: ID)
    requires
        start.wf(),
        start.ctx.holder.view().contains_key(id.index),
        marked.ctx == start.ctx,
        marked.purgeList@ == start.purgeList@.push(id),
        forall|k: u64| #[trigger] purged.ctx.holder.view().contains_key(k) <==> (marked.ctx.holder.view().contains_key(k)
            && forall|j: int| 0 <= j < marked.purgeList@.len() ==> marked.purgeList@[j].index != k),
    ensures
        marked.ctx.holder.view().contains_key(id.index),
        !purged.ctx.holder.view().contains_key(id.index),
{
    let n = start.purgeList@.len() as int;
    assert(marked.purgeList@[n] == id);
}

/// A tile asked for with `spawnTile` changes nothing until the commands run;
/// once they have run, the position holds the requested tile, unless a `Win`
/// queued before it stopped the run. (`queued` is `start` after
/// `spawnTile(tile, loc)`, `ran_state` is `queued` after `doCommands`.)
pub proof fn deferred_commands(start: PO, queued: PO, ran_state: PO, tile: Tile, loc: (u16, u16))
    requires
        start.wf(),
        no_win(start.commands@),
        queued.ctx == start.ctx,
        queued.commands@ == start.commands@.push(Command::PlaceTile(tile, loc)),
        queued.ctx.map.on_active(loc.0 as int, loc.1 as int),
        forall|x: int, y: int| #[trigger] ran_state.ctx.map.spec_active_tile(x, y) == tile_after(
            ran(queued.commands@),
            queued.ctx.map.on_active(x, y),
            x,
            y,
            queued.ctx.map.spec_active_tile(x, y),
        ),
    ensures
        forall|x: int, y: int| #[trigger] queued.ctx.map.spec_active_tile(x, y) == start.ctx.map.spec_active_tile(x, y),
        ran_state.ctx.map.spec_active_tile(loc.0 as int, loc.1 as int) == tile,
{
    let c = queued.commands@;
    assert(c.subrange(0, c.len() as int) =~= c);
    assert forall|j: int| 0 <= j < c.len() implies !(#[trigger] c.subrange(0, c.len() as int)[j] is Win) by {
        if j < start.commands@.len() {
            assert(c[j] == start.commands@[j]);
        }
    }
    lemma_first_win(c, c.len() as int);
    assert(ran(c) =~= c);
    assert(c.last() == Command::PlaceTile(tile, loc));
    assert(ran_state.ctx.map.spec_active_tile(loc.0 as int, loc.1 as int) == tile_after(
        c, true, loc.0 as int, loc.1 as int, queued.ctx.map.spec_active_tile(loc.0 as int, loc.1 as int)));
}


/// A skeleton commits the position it read at the start of the frame: when
/// its commit (`commit_via`, from `a` through `mid`) uses what phase one
/// decided in the frame-start world `ctx`, and the skeleton itself is still
/// as it was then, its new position is its step toward the player's position
/// in `ctx`, whatever the player did in between.
pub proof fn commit_uses_frame_start_read(
    ctx: GameContext,
    a: PO,
    id: ID,
    d: EntityData,
    b: PO,
    mid: PO,
    out: Seq<Request>,
    t: Seq<PO>,
)
    requires
        ctx.wf(),
        data_ok(ctx, id, d),
        ctx.holder.view().contains_key(id.index),
        ctx.holder.view()[id.index] is Skeleton,
        ctx.holder.view()[id.index]->Skeleton_0.health > 0,
        a.ctx.holder.view().contains_key(id.index),
        a.ctx.holder.view()[id.index] == ctx.holder.view()[id.index],
        commit_via(a, id, d, b, mid, out, t),
    ensures
        mid.ctx.holder.view()[id.index] is Skeleton,
        mid.ctx.holder.view()[id.index]->Skeleton_0.position
            == ctx.holder.view()[id.index]->Skeleton_0.planned(ctx.map, ctx.spec_player_position()),
{
}


/// An entity that `add` stored as a kind `T` is found as that kind under the
/// identity `add` returned (so `getTyped` finds it), until `remove` takes it
/// out. (`added` is `start` after the `add`, `removed` is `added` after the `remove`.)
pub proof fn typed_identity_stability<T: EntityTraitsWrappable>(start: Holder, added: Holder, removed: Holder, e: Entity, id: ID)
    requires
        start.wf(),
        T::spec_from(e) is Some,
        added.view() == start.view().insert(id.index, e.with_id(id)),
        removed.view() == added.view().remove(id.index),
    ensures
        added.view().contains_key(id.index),
        T::spec_from(added.view()[id.index]) is Some,
        !removed.view().contains_key(id.index),
{
    T::lemma_stamp(e, id);
}

/// Whether a command may change the tile at `(x, y)`.
pub open spec fn touches(cmd: Command, x: int, y: int) -> bool {
    match cmd {
        Command::PlaceTile(_, p) => p.0 == x && p.1 == y,
        Command::PlaceTiles(_, b, e) => b.0 <= x <= e.0 && b.1 <= y <= e.1,
        _ => false,
    }
}

/// The last command that touches a position decides its tile.
pub proof fn last_placement_wins(c: Seq<Command>, j: int, tile: Tile, loc: (u16, u16), t0: Tile)
    requires
        0 <= j < c.len(),
        c[j] == Command::PlaceTile(tile, loc),
        forall|k: int| j < k < c.len() ==> !touches(#[trigger] c[k], loc.0 as int, loc.1 as int),
    ensures
        tile_after(c, true, loc.0 as int, loc.1 as int, t0) == tile,
    decreases c.len(),
{
    if j < c.len() - 1 {
        let d = c.drop_last();
        assert forall|k: int| j < k < d.len() implies !touches(#[trigger] d[k], loc.0 as int, loc.1 as int) by {
            assert(d[k] == c[k]);
        }
        last_placement_wins(d, j, tile, loc, t0);
        assert(!touches(c.last(), loc.0 as int, loc.1 as int));
    } else {
        assert(c.last() == Command::PlaceTile(tile, loc));
    }
}

proof fn lemma_first_win_bound(c: Seq<Command>)
    ensures
        0 <= first_win(c) <= c.len(),
    decreases c.len(),
{
    if c.len() > 0 && !(c[0] is Win) {
        lemma_first_win_bound(c.drop_first());
    }
}

proof fn lemma_first_win_at_least(c: Seq<Command>, m: int)
    requires
        0 <= m <= c.len(),
        no_win(c.subrange(0, m)),
    ensures
        first_win(c) >= m,
    decreases m,
{
    lemma_first_win_bound(c);
    if m > 0 {
        assert(!(c.subrange(0, m)[0] is Win));
        assert(c[0] == c.subrange(0, m)[0]);
        let d = c.drop_first();
        assert forall|j: int| 0 <= j < m - 1 implies !(#[trigger] d.subrange(0, m - 1)[j] is Win) by {
            assert(c.subrange(0, m)[j + 1] == d.subrange(0, m - 1)[j]);
        }
        lemma_first_win_at_least(d, m - 1);
        assert(first_win(c) == 1 + first_win(d));
    }
}

/// A spawned tile is in place once the commands have run, provided no `Win`
/// was queued before it and no later command touches its position; and it
/// stays there, as the queue is then empty. (`ran_state` is `queued` after
/// `doCommands`; the spawn is the `j`-th queued command.)
pub proof fn spawned_tile_is_placed(queued: PO, ran_state: PO, j: int, tile: Tile, loc: (u16, u16))
    requires
        queued.wf(),
        0 <= j < queued.commands@.len(),
        queued.commands@[j] == Command::PlaceTile(tile, loc),
        no_win(queued.commands@.subrange(0, j + 1)),
        forall|k: int| j < k < queued.commands@.len() ==> !touches(#[trigger] queued.commands@[k], loc.0 as int, loc.1 as int),
        queued.ctx.map.on_active(loc.0 as int, loc.1 as int),
        forall|x: int, y: int| #[trigger] ran_state.ctx.map.spec_active_tile(x, y) == tile_after(
            ran(queued.commands@),
            queued.ctx.map.on_active(x, y),
            x,
            y,
            queued.ctx.map.spec_active_tile(x, y),
        ),
    ensures
        ran_state.ctx.map.spec_active_tile(loc.0 as int, loc.1 as int) == tile,
{
    let c = queued.commands@;
    lemma_first_win_at_least(c, j + 1);
    lemma_first_win_bound(c);
    let r = ran(c);
    assert(r.len() == first_win(c));
    assert forall|k: int| j < k < r.len() implies !touches(#[trigger] r[k], loc.0 as int, loc.1 as int) by {
        assert(r[k] == c[k]);
    }
    assert(r[j] == c[j]);
    last_placement_wins(r, j, tile, loc, queued.ctx.map.spec_active_tile(loc.0 as int, loc.1 as int));
}

} // verus!
