use vstd::prelude::*;
use crate::id::{ID, EMPTY_INDEX};
use crate::geometry::Rect;
use crate::map::TileMap;
use crate::holder::Holder;
use crate::collision::{CollisionIndex, EntityHitbox, collision_list, covers, spec_empty_hitbox};
use crate::entity::{Entity, EntityTraitsWrappable};
use crate::player::Player;
use crate::screen::lemma_remove_unique;

verus! {

/// Width of the collision grid, in cells.
pub const GRID_WIDTH: u16 = 17;

/// Height of the collision grid, in cells.
pub const GRID_HEIGHT: u16 = 12;

/// Every entry of `s` is an index already given out.
pub open spec fn all_below(s: Seq<u64>, bound: u64) -> bool {
    forall|j: int| 0 <= j < s.len() ==> #[trigger] s[j] < bound
}

/// The world: the entity store, the map, the collision index and which
/// entities run whatever screen is active.
pub struct GameContext {
    pub holder: Holder,
    pub map: TileMap,
    pub player: ID,
    pub collision: CollisionIndex,
    pub globalEntities: Vec<u64>,
}

impl GameContext {
    pub open spec fn wf(&self) -> bool {
        &&& self.holder.wf()
        &&& self.map.wf()
        &&& self.collision.wf()
        &&& self.globalEntities@.no_duplicates()
        &&& all_below(self.globalEntities@, self.holder.spec_current_id())
        &&& forall|k: usize| #[trigger] self.map.spec_screen(k) is Some ==> all_below(self.map.spec_screen(k)->0.spec_entities(), self.holder.spec_current_id())
    }

    /// The player's position, when the player is in the store.
    pub open spec fn spec_player_position(&self) -> Option<(i32, i32)> {
        if self.holder.view().contains_key(self.player.index) {
            match Player::spec_from(self.holder.view()[self.player.index]) {
                Some(p) => Some(p.position),
                None => None,
            }
        } else {
            None
        }
    }

    /// The indices run on the active screen, then those run globally.
    pub open spec fn spec_scheduled(&self) -> Seq<u64> {
        match self.map.spec_active() {
            Some(s) => s.spec_entities() + self.globalEntities@,
            None => self.globalEntities@,
        }
    }

    /// A world on `map` whose only entity is the player, run globally. The
    /// map's screens must not list entities yet.
    pub fn new(map: TileMap, player: Player) -> (r: GameContext)
        requires
            map.wf(),
            forall|k: usize| #[trigger] map.spec_screen(k) is Some ==> map.spec_screen(k)->0.spec_entities().len() == 0,
        ensures
            r.wf(),
            r.map == map,
            r.player == (ID { index: 0, sub: 0 }),
            r.holder.view() == Map::<u64, Entity>::empty().insert(0, Entity::Player(player).with_id(r.player)),
            r.holder.spec_order() == seq![0u64],
            r.globalEntities@ == seq![0u64],
            r.collision.spec_candidates().len() == 0,
    {
        let mut holder = Holder::new();
        let id = holder.add(Entity::Player(player));
        let mut globalEntities: Vec<u64> = Vec::new();
        globalEntities.push(id.index);
        proof {
            assert(globalEntities@ =~= seq![0u64]);
            assert(holder.spec_order() =~= seq![0u64]);
        }
        GameContext {
            holder,
            map,
            player: id,
            collision: CollisionIndex::new(GRID_WIDTH, GRID_HEIGHT),
            globalEntities,
        }
    }

    proof fn lemma_fresh_on_screen(&self)
        requires
            self.wf(),
        ensures
            self.map.spec_active() matches Some(s) ==> !s.spec_entities().contains(self.holder.spec_current_id()),
            !self.globalEntities@.contains(self.holder.spec_current_id()),
    {
        let c = self.holder.spec_current_id();
        if let Some(s) = self.map.spec_active() {
            assert(self.map.spec_screen(self.map.spec_active_id()) is Some);
            if s.spec_entities().contains(c) {
                let j = choose|j: int| 0 <= j < s.spec_entities().len() && s.spec_entities()[j] == c;
                assert(s.spec_entities()[j] < c);
            }
        }
        if self.globalEntities@.contains(c) {
            let j = choose|j: int| 0 <= j < self.globalEntities@.len() && self.globalEntities@[j] == c;
            assert(self.globalEntities@[j] < c);
        }
    }

    /// Adds the entity and puts it on the active screen. `None`, and the
    /// world unchanged, when there is no active screen or no index is left.
    pub fn addEntityActiveScreen(&mut self, entity: Entity) -> (r: Option<ID>)
        requires
            old(self).wf(),
        ensures
            final(self).wf(),
            r is Some <==> (old(self).map.spec_active() is Some && old(self).holder.spec_current_id() < EMPTY_INDEX),
            r matches Some(id) ==> {
                &&& id == (ID { index: old(self).holder.spec_current_id(), sub: 0 })
                &&& final(self).holder.view() == old(self).holder.view().insert(id.index, entity.with_id(id))
                &&& final(self).holder.spec_order() == old(self).holder.spec_order().push(id.index)
                &&& final(self).map.spec_active() matches Some(s) && s.spec_entities() == old(self).map.spec_active()->0.spec_entities().push(id.index)
            },
            r is None ==> *final(self) == *old(self),
            final(self).globalEntities@ == old(self).globalEntities@,
            final(self).player == old(self).player,
            final(self).collision == old(self).collision,
            forall|x: int, y: int| #[trigger] final(self).map.spec_active_tile(x, y) == old(self).map.spec_active_tile(x, y),
    {
        if self.holder.getCurrentIndex() == EMPTY_INDEX || !self.map.hasActiveScreen() {
            return None;
        }
        proof {
            self.lemma_fresh_on_screen();
        }
        let ghost before = *self;
        let id = self.holder.add(entity);
        self.map.addEntityActiveScreen(id);
        proof {
            let c = self.holder.spec_current_id();
            assert forall|j: int| 0 <= j < self.globalEntities@.len() implies #[trigger] self.globalEntities@[j] < c by {
                assert(before.globalEntities@[j] < before.holder.spec_current_id());
            }
            assert forall|k: usize| #[trigger] self.map.spec_screen(k) is Some implies all_below(self.map.spec_screen(k)->0.spec_entities(), c) by {
                if k != before.map.spec_active_id() {
                    assert(before.map.spec_screen(k) is Some);
                    let e = self.map.spec_screen(k)->0.spec_entities();
                    assert forall|j: int| 0 <= j < e.len() implies #[trigger] e[j] < c by {
                        assert(before.map.spec_screen(k)->0.spec_entities()[j] < before.holder.spec_current_id());
                    }
                } else {
                    assert(before.map.spec_screen(k) is Some);
                    let o = before.map.spec_screen(k)->0.spec_entities();
                    let e = self.map.spec_screen(k)->0.spec_entities();
                    assert forall|j: int| 0 <= j < e.len() implies #[trigger] e[j] < c by {
                        if j < o.len() {
                            assert(o[j] < before.holder.spec_current_id());
                        }
                    }
                }
            }
        }
        Some(id)
    }

    /// Adds the entity and runs it whatever screen is active. `None`, and the
    /// world unchanged, when no index is left.
    pub fn addEntityGlobal(&mut self, entity: Entity) -> (r: Option<ID>)
        requires
            old(self).wf(),
        ensures
            final(self).wf(),
            r is Some <==> old(self).holder.spec_current_id() < EMPTY_INDEX,
            r matches Some(id) ==> {
                &&& id == (ID { index: old(self).holder.spec_current_id(), sub: 0 })
                &&& final(self).holder.view() == old(self).holder.view().insert(id.index, entity.with_id(id))
                &&& final(self).holder.spec_order() == old(self).holder.spec_order().push(id.index)
                &&& final(self).globalEntities@ == old(self).globalEntities@.push(id.index)
            },
            r is None ==> *final(self) == *old(self),
            final(self).map == old(self).map,
            final(self).player == old(self).player,
            final(self).collision == old(self).collision,
    {
        if self.holder.getCurrentIndex() == EMPTY_INDEX {
            return None;
        }
        proof {
            self.lemma_fresh_on_screen();
        }
        let ghost before = *self;
        let id = self.holder.add(entity);
        self.globalEntities.push(id.index);
        proof {
            let c = self.holder.spec_current_id();
            assert forall|j: int| 0 <= j < self.globalEntities@.len() implies #[trigger] self.globalEntities@[j] < c by {
                if j < before.globalEntities@.len() {
                    assert(before.globalEntities@[j] < before.holder.spec_current_id());
                }
            }
            assert forall|k: usize| #[trigger] self.map.spec_screen(k) is Some implies all_below(self.map.spec_screen(k)->0.spec_entities(), c) by {
                let e = self.map.spec_screen(k)->0.spec_entities();
                assert forall|j: int| 0 <= j < e.len() implies #[trigger] e[j] < c by {
                    assert(e[j] < before.holder.spec_current_id());
                }
            }
            assert(self.globalEntities@.no_duplicates()) by {
                assert forall|a: int, b: int| 0 <= a < b < self.globalEntities@.len() implies self.globalEntities@[a] != self.globalEntities@[b] by {
                    if b == before.globalEntities@.len() {
                        assert(before.globalEntities@[a] < before.holder.spec_current_id());
                    }
                }
            }
        }
        Some(id)
    }

    /// Runs an entity already in the store whatever screen is active; false,
    /// and nothing changes, when the store does not hold it.
    pub fn activateEntityGlobal(&mut self, id: ID) -> (r: bool)
        requires
            old(self).wf(),
        ensures
            final(self).wf(),
            r == old(self).holder.view().contains_key(id.index),
            r ==> final(self).globalEntities@ == if old(self).globalEntities@.contains(id.index) {
                old(self).globalEntities@
            } else {
                old(self).globalEntities@.push(id.index)
            },
            !r ==> final(self).globalEntities@ == old(self).globalEntities@,
            final(self).holder == old(self).holder,
            final(self).map == old(self).map,
            final(self).player == old(self).player,
            final(self).collision == old(self).collision,
    {
        if self.holder.get(id).is_none() {
            return false;
        }
        proof {
            self.holder.lemma_below_current(id.index);
        }
        let ghost before = self.globalEntities@;
        let mut i: usize = 0;
        while i < self.globalEntities.len()
            invariant
                i <= self.globalEntities@.len(),
                *self == *old(self),
                self.wf(),
                self.holder.view().contains_key(id.index),
                id.index < self.holder.spec_current_id(),
                self.globalEntities@ == before,
                forall|j: int| 0 <= j < i ==> self.globalEntities@[j] != id.index,
            decreases self.globalEntities@.len() - i,
        {
            if self.globalEntities[i] == id.index {
                assert(before[i as int] == id.index);
                return true;
            }
            i = i + 1;
        }
        self.globalEntities.push(id.index);
        proof {
            let c = self.holder.spec_current_id();
            assert forall|j: int| 0 <= j < self.globalEntities@.len() implies #[trigger] self.globalEntities@[j] < c by {
                if j < before.len() {
                    assert(before[j] < c);
                }
            }
            assert(self.globalEntities@.no_duplicates()) by {
                assert forall|a: int, b: int| 0 <= a < b < self.globalEntities@.len() implies self.globalEntities@[a] != self.globalEntities@[b] by {
                    if b == before.len() {
                        assert(before[a] != id.index);
                    }
                }
            }
        }
        true
    }

    /// Puts an entity already in the store on the active screen; false, and
    /// nothing changes, when the store does not hold it or there is no
    /// active screen.
    pub fn activateEntityActiveScreen(&mut self, id: ID) -> (r: bool)
        requires
            old(self).wf(),
        ensures
            final(self).wf(),
            !old(self).holder.view().contains_key(id.index) ==> !r && *final(self) == *old(self),
            old(self).holder.view().contains_key(id.index) && old(self).map.spec_active() is Some ==>
                (final(self).map.spec_active() matches Some(s) && s.spec_entities().contains(id.index)),
            final(self).holder == old(self).holder,
            final(self).globalEntities@ == old(self).globalEntities@,
            final(self).player == old(self).player,
            final(self).collision == old(self).collision,
            final(self).map.spec_active_id() == old(self).map.spec_active_id(),
            forall|x: int, y: int| #[trigger] final(self).map.spec_active_tile(x, y) == old(self).map.spec_active_tile(x, y),
            forall|x: int, y: int| #[trigger] final(self).map.on_active(x, y) == old(self).map.on_active(x, y),
            old(self).map.spec_active() is Some ==> final(self).map.spec_active() is Some
                && forall|e: u64| #[trigger] old(self).map.spec_active()->0.spec_entities().contains(e)
                    ==> final(self).map.spec_active()->0.spec_entities().contains(e),
            forall|k: usize| k != old(self).map.spec_active_id() ==> #[trigger] final(self).map.spec_screen(k) == old(self).map.spec_screen(k),
    {
        if self.holder.get(id).is_none() {
            return false;
        }
        proof {
            self.holder.lemma_below_current(id.index);
        }
        let ghost before = *self;
        let r = self.map.addEntityActiveScreen(id);
        proof {
            if let Some(o) = before.map.spec_active() {
                let s2 = self.map.spec_active()->0.spec_entities();
                assert forall|e: u64| #[trigger] o.spec_entities().contains(e) implies s2.contains(e) by {
                    let j = choose|j: int| 0 <= j < o.spec_entities().len() && o.spec_entities()[j] == e;
                    assert(s2[j] == e);
                }
            }
        }
        proof {
            let c = self.holder.spec_current_id();
            if let Some(o) = before.map.spec_active() {
                let s = self.map.spec_active()->0.spec_entities();
                if !r {
                    assert(s.contains(id.index));
                } else {
                    assert(s[s.len() - 1] == id.index);
                }
            }
            assert forall|k: usize| #[trigger] self.map.spec_screen(k) is Some implies all_below(self.map.spec_screen(k)->0.spec_entities(), c) by {
                assert(before.map.spec_screen(k) is Some);
                let o = before.map.spec_screen(k)->0.spec_entities();
                let e = self.map.spec_screen(k)->0.spec_entities();
                assert forall|j: int| 0 <= j < e.len() implies #[trigger] e[j] < c by {
                    if j < o.len() {
                        assert(o[j] < c);
                    }
                }
            }
        }
        r
    }

    /// Stops running the entity globally; false if it was not run globally.
    fn removeGlobal(&mut self, k: u64) -> (r: bool)
        requires
            old(self).wf(),
        ensures
            final(self).wf(),
            r == old(self).globalEntities@.contains(k),
            final(self).globalEntities@ == old(self).globalEntities@.filter(|e: u64| e != k),
            final(self).holder == old(self).holder,
            final(self).map == old(self).map,
            final(self).player == old(self).player,
            final(self).collision == old(self).collision,
    {
        let ghost before = *self;
        let mut i: usize = 0;
        while i < self.globalEntities.len()
            invariant
                i <= self.globalEntities@.len(),
                *self == before,
                before == *old(self),
                self.wf(),
                forall|j: int| 0 <= j < i ==> self.globalEntities@[j] != k,
            decreases self.globalEntities@.len() - i,
        {
            if self.globalEntities[i] == k {
                let ghost g = self.globalEntities@;
                self.globalEntities.remove(i);
                proof {
                    assert(g[i as int] == k);
                    lemma_remove_unique(g, i as int, k);
                    assert(g.contains(k));
                    let c = self.holder.spec_current_id();
                    assert forall|j: int| 0 <= j < self.globalEntities@.len() implies #[trigger] self.globalEntities@[j] < c by {
                        let e = self.globalEntities@[j];
                        assert(self.globalEntities@.contains(e));
                        let j0 = choose|j0: int| 0 <= j0 < g.len() && g[j0] == e;
                        assert(g[j0] < c);
                    }
                }
                return true;
            }
            i = i + 1;
        }
        proof {
            crate::screen::lemma_filter_absent(self.globalEntities@, k);
        }
        false
    }

    /// Takes the entity out of the world: out of the store, out of the global
    /// list and out of the active screen's list. An error when the store did
    /// not hold it, or when neither list had it (then the entity, if any,
    /// comes back with the error).
    pub fn removeEntity(&mut self, id: ID) -> (r: Result<Entity, (Option<Entity>, &'static str)>)
        requires
            old(self).wf(),
        ensures
            final(self).wf(),
            final(self).holder.view() == old(self).holder.view().remove(id.index),
            final(self).holder.spec_order() == old(self).holder.spec_order().filter(|k: u64| k != id.index),
            final(self).globalEntities@ == old(self).globalEntities@.filter(|e: u64| e != id.index),
            !final(self).globalEntities@.contains(id.index),
            forall|e: u64| e != id.index ==> (#[trigger] final(self).globalEntities@.contains(e) == old(self).globalEntities@.contains(e)),
            old(self).map.spec_active() is None ==> final(self).map == old(self).map,
            old(self).map.spec_active() matches Some(o) ==> (final(self).map.spec_active() matches Some(s)
                && s.spec_entities() == o.spec_entities().filter(|e: u64| e != id.index)
                && !s.spec_entities().contains(id.index)
                && forall|e: u64| e != id.index ==> (s.spec_entities().contains(e) == o.spec_entities().contains(e))),
            forall|k: usize| k != old(self).map.spec_active_id() ==> #[trigger] final(self).map.spec_screen(k) == old(self).map.spec_screen(k),
            final(self).map.spec_active_id() == old(self).map.spec_active_id(),
            forall|x: int, y: int| #[trigger] final(self).map.spec_active_tile(x, y) == old(self).map.spec_active_tile(x, y),
            forall|x: int, y: int| #[trigger] final(self).map.on_active(x, y) == old(self).map.on_active(x, y),
            r is Ok <==> old(self).holder.view().contains_key(id.index) && (old(self).globalEntities@.contains(id.index)
                || (old(self).map.spec_active() matches Some(o) && o.spec_entities().contains(id.index))),
            r matches Ok(e) ==> e == old(self).holder.view()[id.index],
            final(self).player == old(self).player,
            final(self).collision == old(self).collision,
    {
        let ghost before = *self;
        let res = self.holder.remove(id);
        proof {
            let c = self.holder.spec_current_id();
            assert forall|k: usize| #[trigger] self.map.spec_screen(k) is Some implies all_below(self.map.spec_screen(k)->0.spec_entities(), c) by {
                assert(before.map.spec_screen(k) is Some);
            }
        }
        let global = self.removeGlobal(id.index);
        proof {
            let f = |e: u64| e != id.index;
            if self.globalEntities@.contains(id.index) {
                before.globalEntities@.lemma_filter_contains_rev(f, id.index);
            }
            assert forall|e: u64| e != id.index implies (#[trigger] self.globalEntities@.contains(e) == before.globalEntities@.contains(e)) by {
                if self.globalEntities@.contains(e) {
                    before.globalEntities@.lemma_filter_contains_rev(f, e);
                }
                if before.globalEntities@.contains(e) {
                    let j = choose|j: int| 0 <= j < before.globalEntities@.len() && before.globalEntities@[j] == e;
                    before.globalEntities@.lemma_filter_contains(f, j);
                }
            }
        }
        let ghost mid = *self;
        let onScreen = self.map.removeEntityActiveScreen(id);
        proof {
            let c = self.holder.spec_current_id();
            assert forall|k: usize| #[trigger] self.map.spec_screen(k) is Some implies all_below(self.map.spec_screen(k)->0.spec_entities(), c) by {
                assert(mid.map.spec_screen(k) is Some);
                if k == mid.map.spec_active_id() {
                    let o = mid.map.spec_screen(k)->0.spec_entities();
                    let e = self.map.spec_screen(k)->0.spec_entities();
                    assert forall|j: int| 0 <= j < e.len() implies #[trigger] e[j] < c by {
                        assert(e.contains(e[j]));
                        let j0 = choose|j0: int| 0 <= j0 < o.len() && o[j0] == e[j];
                        assert(o[j0] < c);
                    }
                }
            }
            assert forall|x: int, y: int| #[trigger] self.map.on_active(x, y) == before.map.on_active(x, y) by {}
        }
        if global || onScreen {
            match res {
                Some(e) => Ok(e),
                None => Err((None, "Entity does not exist but was listed to run")),
            }
        } else {
            Err((res, "Entity not found in active screen or globally"))
        }
    }

    /// Moves the hitbox of `id` in the collision index, as
    /// `CollisionIndex::updatePosition` says.
    pub fn updatePosition(&mut self, id: ID, hitbox: Rect, prevHitbox: Rect)
        requires
            old(self).wf(),
        ensures
            final(self).wf(),
            final(self).candidate_ids_grew(*old(self), id, hitbox, prevHitbox),
            crate::collision::distinct_pairs(final(self).collision.spec_candidates()),
            final(self).collision.spec_candidates().subrange(0, old(self).collision.spec_candidates().len() as int)
                == old(self).collision.spec_candidates(),
            forall|i: int| old(self).collision.spec_candidates().len() <= i < final(self).collision.spec_candidates().len()
                ==> #[trigger] final(self).collision.new_pair(old(self).collision, id, hitbox, prevHitbox, i),
            forall|x: int, y: int| final(self).collision.in_grid(x, y) ==> #[trigger] final(self).collision.cell(x, y) == if covers(
                old(self).collision.spec_width(),
                old(self).collision.spec_height(),
                hitbox,
                x,
                y,
            ) {
                EntityHitbox { id, hitbox }
            } else {
                old(self).collision.cleared_cell(id, prevHitbox, x, y)
            },
            final(self).holder == old(self).holder,
            final(self).map == old(self).map,
            final(self).player == old(self).player,
            final(self).globalEntities == old(self).globalEntities,
    {
        self.collision.updatePosition(id, hitbox, prevHitbox);
    }

    /// The collision index changed as `CollisionIndex::updatePosition` says.
    pub open spec fn candidate_ids_grew(&self, before: GameContext, id: ID, hitbox: Rect, prevHitbox: Rect) -> bool {
        &&& self.collision.candidate_ids() == before.collision.candidate_ids().union(before.collision.met_by(id, hitbox, prevHitbox))
        &&& self.collision.spec_width() == before.collision.spec_width()
        &&& self.collision.spec_height() == before.collision.spec_height()
    }

    pub fn removeCollision(&mut self, id: ID, hitbox: Rect)
        requires
            old(self).wf(),
        ensures
            final(self).wf(),
            final(self).collision.candidate_ids() == old(self).collision.candidate_ids().filter(|p: (ID, ID)| p.0 != id && p.1 != id),
            final(self).collision.spec_candidates() == old(self).collision.spec_candidates().filter(
                |p: (EntityHitbox, EntityHitbox)| p.0.id != id && p.1.id != id,
            ),
            final(self).collision.spec_width() == old(self).collision.spec_width(),
            final(self).collision.spec_height() == old(self).collision.spec_height(),
            forall|x: int, y: int| final(self).collision.in_grid(x, y) ==> #[trigger] final(self).collision.cell(x, y)
                == old(self).collision.cleared_cell(id, hitbox, x, y),
            final(self).holder == old(self).holder,
            final(self).map == old(self).map,
            final(self).player == old(self).player,
            final(self).globalEntities == old(self).globalEntities,
    {
        self.collision.removeCollision(id, hitbox);
    }

    pub fn getCollisionList(&self, id: ID) -> (r: Vec<ID>)
        ensures
            r@ == collision_list(self.collision.spec_candidates(), id),
    {
        self.collision.getCollisionList(id)
    }

    pub fn resetCollisionLists(&mut self)
        requires
            old(self).wf(),
        ensures
            final(self).wf(),
            final(self).collision.spec_candidates().len() == 0,
            final(self).collision.spec_width() == old(self).collision.spec_width(),
            final(self).collision.spec_height() == old(self).collision.spec_height(),
            forall|x: int, y: int| #[trigger] final(self).collision.cell(x, y) == old(self).collision.cell(x, y),
            final(self).holder == old(self).holder,
            final(self).map == old(self).map,
            final(self).player == old(self).player,
            final(self).globalEntities == old(self).globalEntities,
    {
        self.collision.resetCollisionLists();
    }

    pub fn disableEntityCollisionFrame(&mut self)
        requires
            old(self).wf(),
        ensures
            final(self).wf(),
            final(self).collision.spec_candidates() == old(self).collision.spec_candidates(),
            final(self).collision.spec_width() == old(self).collision.spec_width(),
            final(self).collision.spec_height() == old(self).collision.spec_height(),
            forall|x: int, y: int| final(self).collision.in_grid(x, y) ==> #[trigger] final(self).collision.cell(x, y) == spec_empty_hitbox(),
            final(self).holder == old(self).holder,
            final(self).map == old(self).map,
            final(self).player == old(self).player,
            final(self).globalEntities == old(self).globalEntities,
    {
        self.collision.disableEntityCollisionFrame();
    }

    /// The first entity of `ids` that the store holds and that occupies part of `hitbox`.
    fn firstAt(&self, ids: &Vec<ID>, hitbox: Rect) -> (r: Option<ID>)
        requires
            self.wf(),
        ensures
            r matches Some(id) ==> ids@.contains(id) && self.holder.view().contains_key(id.index) && self.holder.view()[id.index].collidesStaticSpec(hitbox),
            r is None ==> forall|i: int| 0 <= i < ids@.len() && #[trigger] self.holder.view().contains_key(ids@[i].index)
                ==> !self.holder.view()[ids@[i].index].collidesStaticSpec(hitbox),
    {
        let mut i: usize = 0;
        while i < ids.len()
            invariant
                i <= ids@.len(),
                self.wf(),
                forall|j: int| 0 <= j < i && #[trigger] self.holder.view().contains_key(ids@[j].index)
                    ==> !self.holder.view()[ids@[j].index].collidesStaticSpec(hitbox),
            decreases ids@.len() - i,
        {
            let id = ids[i];
            match self.holder.get(id) {
                Some(e) => {
                    if e.collidesStatic(hitbox) {
                        assert(ids@[i as int] == id);
                        return Some(id);
                    }
                },
                None => {},
            }
            i = i + 1;
        }
        None
    }

    /// The first entity on the active screen that occupies part of `hitbox`.
    pub fn getEntityAtPositionActiveScreen(&self, hitbox: Rect) -> (r: Option<ID>)
        requires
            self.wf(),
        ensures
            r matches Some(id) ==> self.holder.view().contains_key(id.index) && self.holder.view()[id.index].collidesStaticSpec(hitbox)
                && (self.map.spec_active() matches Some(s) && s.spec_entities().contains(id.index)),
            r is None ==> (self.map.spec_active() matches Some(s) ==> forall|i: int| 0 <= i < s.spec_entities().len()
                && #[trigger] self.holder.view().contains_key(s.spec_entities()[i])
                ==> !self.holder.view()[s.spec_entities()[i]].collidesStaticSpec(hitbox)),
    {
        let ids = self.map.activeScreenEntities();
        let r = self.firstAt(&ids, hitbox);
        proof {
            if let Some(s) = self.map.spec_active() {
                if let Some(id) = r {
                    let j = choose|j: int| 0 <= j < ids@.len() && ids@[j] == id;
                    assert(s.spec_entities()[j] == id.index);
                } else {
                    assert forall|i: int| 0 <= i < s.spec_entities().len() && #[trigger] self.holder.view().contains_key(s.spec_entities()[i])
                        implies !self.holder.view()[s.spec_entities()[i]].collidesStaticSpec(hitbox) by {
                        assert(ids@[i].index == s.spec_entities()[i]);
                    }
                }
            } else {
                if let Some(id) = r {
                    let j = choose|j: int| 0 <= j < ids@.len() && ids@[j] == id;
                }
            }
        }
        r
    }

    /// The identities of the entities run whatever screen is active.
    pub fn globalEntityIter(&self) -> (r: Vec<ID>)
        ensures
            r@.len() == self.globalEntities@.len(),
            forall|i: int| 0 <= i < r@.len() ==> #[trigger] r@[i] == (ID { index: self.globalEntities@[i], sub: 0 }),
    {
        let mut r: Vec<ID> = Vec::new();
        let mut i: usize = 0;
        while i < self.globalEntities.len()
            invariant
                i <= self.globalEntities@.len(),
                r@.len() == i,
                forall|j: int| 0 <= j < i ==> #[trigger] r@[j] == (ID { index: self.globalEntities@[j], sub: 0 }),
            decreases self.globalEntities@.len() - i,
        {
            r.push(ID::new(self.globalEntities[i], 0));
            i = i + 1;
        }
        r
    }

    /// The identities of the entities on the active screen.
    pub fn activeScreenEntityIter(&self) -> (r: Vec<ID>)
        requires
            self.wf(),
        ensures
            self.map.spec_active() is None ==> r@.len() == 0,
            self.map.spec_active() matches Some(s) ==> r@.len() == s.spec_entities().len() && forall|i: int|
                0 <= i < r@.len() ==> #[trigger] r@[i] == (ID { index: s.spec_entities()[i], sub: 0 }),
    {
        self.map.activeScreenEntities()
    }

    pub fn getPlayerID(&self) -> (r: ID)
        ensures
            r == self.player,
    {
        self.player
    }

    pub fn getHolder(&self) -> (r: &Holder)
        ensures
            *r == self.holder,
    {
        &self.holder
    }

    pub fn getMap(&self) -> (r: &TileMap)
        ensures
            *r == self.map,
    {
        &self.map
    }

    /// The player's position as the store holds it.
    pub fn playerPosition(&self) -> (r: Option<(i32, i32)>)
        requires
            self.wf(),
        ensures
            r == self.spec_player_position(),
    {
        match self.holder.getTyped(crate::entity::TypedID::<Player>::new(self.player)) {
            Some(p) => Some(p.position),
            None => None,
        }
    }

    /// A world put back together from its parts, as a save restores it;
    /// `None` when the parts do not fit together: a global entity listed
    /// twice, or an entity listed globally or on a screen that the store
    /// never gave an index to.
    pub fn restore(holder: Holder, map: TileMap, player: ID, globalEntities: Vec<u64>) -> (r: Option<GameContext>)
        requires
            holder.wf(),
            map.wf(),
        ensures
            r is Some <==> (globalEntities@.no_duplicates() && all_below(globalEntities@, holder.spec_current_id())
                && forall|k: usize| #[trigger] map.spec_screen(k) is Some ==> all_below(map.spec_screen(k)->0.spec_entities(), holder.spec_current_id())),
            r matches Some(ctx) ==> ctx.wf() && ctx.holder == holder && ctx.map == map && ctx.player == player
                && ctx.globalEntities@ == globalEntities@ && ctx.collision.spec_candidates().len() == 0,
    {
        let bound = holder.getCurrentIndex();
        if !map.entitiesBelow(bound) {
            return None;
        }
        let mut i: usize = 0;
        while i < globalEntities.len()
            invariant
                i <= globalEntities@.len(),
                bound == holder.spec_current_id(),
                forall|a: int| 0 <= a < i ==> #[trigger] globalEntities@[a] < bound,
                forall|a: int, b: int| 0 <= a < b < i ==> globalEntities@[a] != globalEntities@[b],
            decreases globalEntities@.len() - i,
        {
            if globalEntities[i] >= bound {
                assert(globalEntities@[i as int] >= bound);
                return None;
            }
            let mut j: usize = 0;
            while j < i
                invariant
                    j <= i,
                    i < globalEntities@.len(),
                    forall|a: int| 0 <= a < j ==> globalEntities@[a] != globalEntities@[i as int],
                decreases i - j,
            {
                if globalEntities[j] == globalEntities[i] {
                    assert(globalEntities@[j as int] == globalEntities@[i as int]);
                    return None;
                }
                j = j + 1;
            }
            i = i + 1;
        }
        Some(GameContext { holder, map, player, collision: CollisionIndex::new(GRID_WIDTH, GRID_HEIGHT), globalEntities })
    }

    /// The first globally run entity that occupies part of `hitbox`.
    pub fn getEntityAtPositionGlobal(&self, hitbox: Rect) -> (r: Option<ID>)
        requires
            self.wf(),
        ensures
            r matches Some(id) ==> self.globalEntities@.contains(id.index) && self.holder.view().contains_key(id.index)
                && self.holder.view()[id.index].collidesStaticSpec(hitbox),
            r is None ==> forall|i: int| 0 <= i < self.globalEntities@.len() && #[trigger] self.holder.view().contains_key(self.globalEntities@[i])
                ==> !self.holder.view()[self.globalEntities@[i]].collidesStaticSpec(hitbox),
    {
        let ids = self.globalEntityIter();
        let r = self.firstAt(&ids, hitbox);
        proof {
            if let Some(id) = r {
                let j = choose|j: int| 0 <= j < ids@.len() && ids@[j] == id;
                assert(self.globalEntities@[j] == id.index);
            } else {
                assert forall|i: int| 0 <= i < self.globalEntities@.len() && #[trigger] self.holder.view().contains_key(self.globalEntities@[i])
                    implies !self.holder.view()[self.globalEntities@[i]].collidesStaticSpec(hitbox) by {
                    assert(ids@[i].index == self.globalEntities@[i]);
                }
            }
        }
        r
    }

    /// When the player's middle has left the active screen, moves play to the
    /// screen it leads to, puts the player at its entry point there, and
    /// empties the collision grid, whose cells belonged to the old screen.
    pub fn transitionPlayer(&mut self) -> (r: bool)
        requires
            old(self).wf(),
        ensures
            final(self).wf(),
            r == (old(self).holder.view().contains_key(old(self).player.index)
                && old(self).holder.view()[old(self).player.index] is Player
                && old(self).map.spec_transition(old(self).holder.view()[old(self).player.index]->Player_0.hitbox) is Some),
            r ==> {
                let t = old(self).map.spec_transition(old(self).holder.view()[old(self).player.index]->Player_0.hitbox)->0;
                &&& final(self).map.spec_active_id() == t.0
                &&& final(self).holder.view()[old(self).player.index]->Player_0.position == (t.1.x, t.1.y)
                &&& final(self).holder.view()[old(self).player.index]->Player_0.hitbox == t.1
            },
            !r ==> *final(self) == *old(self),
            final(self).holder.view().dom() == old(self).holder.view().dom(),
            final(self).player == old(self).player,
            final(self).globalEntities == old(self).globalEntities,
    {
        let hitbox = match self.holder.getTyped(crate::entity::TypedID::<Player>::new(self.player)) {
            Some(p) => p.hitbox,
            None => {
                return false;
            },
        };
        let ghost before = *self;
        match self.map.transitionScreen(hitbox) {
            Some(rect) => {
                let player = self.player;
                self.holder.placeAt(player, rect.x, rect.y);
                self.collision.disableEntityCollisionFrame();
                proof {
                    let c = self.holder.spec_current_id();
                    assert forall|k: usize| #[trigger] self.map.spec_screen(k) is Some implies all_below(self.map.spec_screen(k)->0.spec_entities(), c) by {
                        assert(before.map.spec_screen(k) is Some);
                    }
                    assert(self.holder.view().dom() =~= before.holder.view().dom());
                }
                true
            },
            None => false,
        }
    }

}

} // verus!
