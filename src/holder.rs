use vstd::prelude::*;
use crate::id::{ID, EMPTY_INDEX};
use crate::message::{CollisionMsg, Command, Request};
use crate::common::IDRegistration;
use crate::player::{Player, Signals};
use crate::geometry::Rect;
use crate::entity::{Entity, EntityData, TypedID, EntityTraitsWrappable, InnerCode, same_saved, update_rel};

verus! {

/// Keys strictly increasing.
pub open spec fn increasing_keys(s: Seq<(u64, InnerCode)>) -> bool {
    forall|i: int, j: int| 0 <= i < j < s.len() ==> s[i].0 < s[j].0
}

/// Keys strictly increasing: the order in which the entities were added.
pub open spec fn increasing(s: Seq<(u64, Entity)>) -> bool {
    forall|i: int, j: int| 0 <= i < j < s.len() ==> s[i].0 < s[j].0
}

/// The plain data of a store, which a save keeps: each entity's data under
/// its index, in the order the entities were added, and the next index.
pub struct InnerHolder {
    pub innerEntities: Vec<(u64, InnerCode)>,
    pub currentId: u64,
}

/// Owns every live entity, each under the index it was given when added.
pub struct Holder {
    entities: Vec<(u64, Entity)>,
    currentId: u64,
}

impl Holder {
    pub closed spec fn wf(&self) -> bool {
        &&& increasing(self.entities@)
        &&& forall|i: int| 0 <= i < self.entities@.len() ==> #[trigger] self.entities@[i].0 < self.currentId
    }

    closed spec fn has(&self, k: u64) -> bool {
        exists|i: int| 0 <= i < self.entities@.len() && #[trigger] self.entities@[i].0 == k
    }

    closed spec fn pos(&self, k: u64) -> int {
        choose|i: int| 0 <= i < self.entities@.len() && #[trigger] self.entities@[i].0 == k
    }

    /// The live entities by index.
    pub closed spec fn view(&self) -> Map<u64, Entity> {
        Map::new(|k: u64| self.has(k), |k: u64| self.entities@[self.pos(k)].1)
    }

    /// The live indices in the order their entities were added.
    pub closed spec fn spec_order(&self) -> Seq<u64> {
        self.entities@.map_values(|e: (u64, Entity)| e.0)
    }

    /// The entities with their indices, in the order they were added.
    pub closed spec fn spec_entries(&self) -> Seq<(u64, Entity)> {
        self.entities@
    }

    /// The index the next added entity receives.
    pub closed spec fn spec_current_id(&self) -> u64 {
        self.currentId
    }

    proof fn lemma_at(&self, i: int)
        requires
            self.wf(),
            0 <= i < self.entities@.len(),
        ensures
            self.has(self.entities@[i].0),
            self.pos(self.entities@[i].0) == i,
            self.view().contains_key(self.entities@[i].0),
            self.view()[self.entities@[i].0] == self.entities@[i].1,
    {
        let k = self.entities@[i].0;
        assert(self.has(k));
        let p = self.pos(k);
        if p < i {
            assert(self.entities@[p].0 < self.entities@[i].0);
        } else if p > i {
            assert(self.entities@[i].0 < self.entities@[p].0);
        }
    }

    /// The entries are the store: each entry's index is live and holds that
    /// entry's entity, and every live index has an entry.
    pub proof fn lemma_entries_view(&self)
        requires
            self.wf(),
        ensures
            forall|i: int| 0 <= i < self.spec_entries().len() ==> self.view().contains_key(#[trigger] self.spec_entries()[i].0)
                && self.view()[self.spec_entries()[i].0] == self.spec_entries()[i].1,
            forall|k: u64| #[trigger] self.view().contains_key(k) ==> exists|i: int| 0 <= i < self.spec_entries().len()
                && #[trigger] self.spec_entries()[i].0 == k,
            increasing(self.spec_entries()),
    {
        assert forall|i: int| 0 <= i < self.spec_entries().len() implies self.view().contains_key(#[trigger] self.spec_entries()[i].0)
            && self.view()[self.spec_entries()[i].0] == self.spec_entries()[i].1 by {
            self.lemma_at(i);
        }
        assert forall|k: u64| #[trigger] self.view().contains_key(k) implies exists|i: int| 0 <= i < self.spec_entries().len()
            && #[trigger] self.spec_entries()[i].0 == k by {
            let p = self.pos(k);
            assert(self.spec_entries()[p].0 == k);
        }
    }

    /// Every live index is below the next one to be given.
    pub proof fn lemma_below_current(&self, k: u64)
        requires
            self.wf(),
            self.view().contains_key(k),
        ensures
            k < self.spec_current_id(),
    {
        let i = self.pos(k);
        assert(self.entities@[i].0 < self.currentId);
    }

    /// After the entity at position `i` alone was replaced, the view changed
    /// at its index only.
    proof fn lemma_replaced(&self, before: Holder, i: int)
        requires
            before.wf(),
            0 <= i < before.entities@.len(),
            self.entities@.len() == before.entities@.len(),
            self.entities@[i].0 == before.entities@[i].0,
            forall|j: int| 0 <= j < self.entities@.len() && j != i ==> self.entities@[j] == before.entities@[j],
            self.currentId == before.currentId,
        ensures
            self.wf(),
            self.view() == before.view().insert(before.entities@[i].0, self.entities@[i].1),
            self.spec_order() == before.spec_order(),
    {
        assert forall|a: int, b: int| 0 <= a < b < self.entities@.len() implies self.entities@[a].0 < self.entities@[b].0 by {
            assert(before.entities@[a].0 < before.entities@[b].0);
        }
        assert forall|j: int| 0 <= j < self.entities@.len() implies #[trigger] self.entities@[j].0 < self.currentId by {
            assert(before.entities@[j].0 < before.currentId);
        }
        let k = before.entities@[i].0;
        let m = before.view().insert(k, self.entities@[i].1);
        self.lemma_at(i);
        assert forall|q: u64| #[trigger] self.view().contains_key(q) == m.contains_key(q) by {
            if self.has(q) {
                let p = self.pos(q);
                if p != i {
                    before.lemma_at(p);
                }
            }
            if before.has(q) {
                let p = before.pos(q);
                self.lemma_at(p);
            }
        }
        assert forall|q: u64| #[trigger] self.view().contains_key(q) implies self.view()[q] == m[q] by {
            let p = self.pos(q);
            if p != i {
                self.lemma_at(p);
                before.lemma_at(p);
            }
        }
        assert(self.view() =~= m);
        assert(self.spec_order() =~= before.spec_order());
    }

    pub fn new() -> (r: Holder)
        ensures
            r.wf(),
            r.view() == Map::<u64, Entity>::empty(),
            r.spec_order() == Seq::<u64>::empty(),
            r.spec_current_id() == 0,
    {
        let r = Holder { entities: Vec::new(), currentId: 0 };
        assert(r.view() =~= Map::<u64, Entity>::empty());
        assert(r.spec_order() =~= Seq::<u64>::empty());
        r
    }

    /// Stores the entity under the next unused index, with its identity
    /// stamped, and returns that identity.
    pub fn add(&mut self, entity: Entity) -> (r: ID)
        requires
            old(self).wf(),
            old(self).spec_current_id() < EMPTY_INDEX,
        ensures
            final(self).wf(),
            r == (ID { index: old(self).spec_current_id(), sub: 0 }),
            !old(self).view().contains_key(r.index),
            final(self).view() == old(self).view().insert(r.index, entity.with_id(r)),
            final(self).spec_order() == old(self).spec_order().push(r.index),
            final(self).spec_current_id() == old(self).spec_current_id() + 1,
    {
        let ghost before = *self;
        let k = self.currentId;
        let id = ID::new(k, 0);
        let mut entity = entity;
        entity.setID(id);
        self.entities.push((k, entity));
        self.currentId = k + 1;
        proof {
            let n = self.entities@.len() - 1;
            assert forall|j: int| 0 <= j < n implies #[trigger] self.entities@[j] == before.entities@[j] by {}
            assert forall|a: int, b: int| 0 <= a < b < self.entities@.len() implies self.entities@[a].0 < self.entities@[b].0 by {
                if b < n {
                    assert(before.entities@[a].0 < before.entities@[b].0);
                } else {
                    assert(before.entities@[a].0 < before.currentId);
                }
            }
            assert forall|j: int| 0 <= j < self.entities@.len() implies #[trigger] self.entities@[j].0 < self.currentId by {
                if j < n {
                    assert(before.entities@[j].0 < before.currentId);
                }
            }
            if before.has(k) {
                let p = before.pos(k);
                assert(before.entities@[p].0 < before.currentId);
            }
            let m = before.view().insert(k, self.entities@[n].1);
            self.lemma_at(n);
            assert forall|q: u64| #[trigger] self.view().contains_key(q) == m.contains_key(q) by {
                if self.has(q) {
                    let p = self.pos(q);
                    if p != n {
                        assert(before.entities@[p] == self.entities@[p]);
                        before.lemma_at(p);
                    }
                }
                if before.has(q) {
                    let p = before.pos(q);
                    assert(before.entities@[p] == self.entities@[p]);
                    self.lemma_at(p);
                }
            }
            assert forall|q: u64| #[trigger] self.view().contains_key(q) implies self.view()[q] == m[q] by {
                let p = self.pos(q);
                self.lemma_at(p);
                if p != n {
                    assert(before.entities@[p] == self.entities@[p]);
                    before.lemma_at(p);
                }
            }
            assert(self.view() =~= m);
            assert(self.spec_order() =~= before.spec_order().push(k));
        }
        id
    }

    /// Position in the vector of the entity with index `k`.
    fn find(&self, k: u64) -> (r: Option<usize>)
        requires
            self.wf(),
        ensures
            r is None <==> !self.view().contains_key(k),
            r matches Some(i) ==> i < self.entities@.len() && self.entities@[i as int].0 == k
                && self.view()[k] == self.entities@[i as int].1,
    {
        let mut i: usize = 0;
        while i < self.entities.len()
            invariant
                i <= self.entities@.len(),
                self.wf(),
                forall|j: int| 0 <= j < i ==> self.entities@[j].0 != k,
            decreases self.entities@.len() - i,
        {
            if self.entities[i].0 == k {
                proof {
                    self.lemma_at(i as int);
                }
                return Some(i);
            }
            i = i + 1;
        }
        None
    }

    /// Takes the entity out of the store and hands it back; `None` if absent.
    pub fn remove(&mut self, id: ID) -> (r: Option<Entity>)
        requires
            old(self).wf(),
        ensures
            final(self).wf(),
            r is Some == old(self).view().contains_key(id.index),
            r matches Some(e) ==> e == old(self).view()[id.index],
            final(self).view() == old(self).view().remove(id.index),
            final(self).spec_current_id() == old(self).spec_current_id(),
            final(self).spec_order() == old(self).spec_order().filter(|k: u64| k != id.index),
    {
        let ghost before = *self;
        match self.find(id.getID()) {
            None => {
                proof {
                    assert(self.view() =~= before.view().remove(id.index));
                    assert forall|j: int| 0 <= j < before.spec_order().len() implies before.spec_order()[j] != id.index by {
                        before.lemma_at(j);
                    }
                    lemma_filter_absent_u64(before.spec_order(), id.index);
                }
                None
            },
            Some(i) => {
                let (_, e) = self.entities.remove(i);
                proof {
                    let k = id.index;
                    let s = before.entities@;
                    assert forall|a: int, b: int| 0 <= a < b < self.entities@.len() implies self.entities@[a].0 < self.entities@[b].0 by {
                        let a0 = if a < i { a } else { a + 1 };
                        let b0 = if b < i { b } else { b + 1 };
                        assert(s[a0].0 < s[b0].0);
                    }
                    assert forall|j: int| 0 <= j < self.entities@.len() implies #[trigger] self.entities@[j].0 < self.currentId by {
                        let j0 = if j < i { j } else { j + 1 };
                        assert(s[j0].0 < before.currentId);
                    }
                    let m = before.view().remove(k);
                    assert forall|q: u64| #[trigger] self.view().contains_key(q) == m.contains_key(q) by {
                        if self.has(q) {
                            let p = self.pos(q);
                            let pa = if p < i { p } else { p + 1 };
                            assert(s[pa].0 == q);
                            before.lemma_at(pa);
                            if q == k {
                                assert(s[i as int].0 == k);
                                if pa < i { assert(s[pa].0 < s[i as int].0); } else { assert(s[i as int].0 < s[pa].0); }
                            }
                        }
                        if m.contains_key(q) {
                            let p = before.pos(q);
                            assert(p != i);
                            let pb = if p < i { p } else { p - 1 };
                            assert(self.entities@[pb].0 == q);
                        }
                    }
                    assert forall|q: u64| #[trigger] self.view().contains_key(q) implies self.view()[q] == m[q] by {
                        let p = self.pos(q);
                        self.lemma_at(p);
                        let pa = if p < i { p } else { p + 1 };
                        assert(s[pa] == self.entities@[p]);
                        before.lemma_at(pa);
                    }
                    assert(self.view() =~= m);
                    lemma_order_remove(s, i as int, k);
                    assert(self.entities@ == s.remove(i as int));
                }
                Some(e)
            },
        }
    }

    /// The entity with the index of `id` (its sub-index is ignored).
    pub fn get(&self, id: ID) -> (r: Option<&Entity>)
        requires
            self.wf(),
        ensures
            r is Some == self.view().contains_key(id.index),
            r matches Some(e) ==> *e == self.view()[id.index],
    {
        match self.find(id.getID()) {
            Some(i) => Some(&self.entities[i].1),
            None => None,
        }
    }

    /// The entity with the index of `id`, if it is of the kind `T`.
    pub fn getTyped<T: EntityTraitsWrappable>(&self, id: TypedID<T>) -> (r: Option<&T>)
        requires
            self.wf(),
        ensures
            r is Some == (self.view().contains_key(id.id.index) && T::spec_from(self.view()[id.id.index]) is Some),
            r matches Some(x) ==> T::spec_from(self.view()[id.id.index]) == Some(*x),
    {
        match self.find(id.id.getID()) {
            Some(i) => T::mapCode(&self.entities[i].1),
            None => None,
        }
    }

    /// The index the next added entity receives.
    pub fn getCurrentIndex(&self) -> (r: u64)
        ensures
            r == self.spec_current_id(),
    {
        self.currentId
    }

    /// The identity of the entity added last.
    pub fn getCurrentID(&self) -> (r: ID)
        requires
            self.spec_current_id() > 0,
        ensures
            r == (ID { index: (self.spec_current_id() - 1) as u64, sub: 0 }),
    {
        ID::new(self.currentId - 1, 0)
    }

    /// The identities of all live entities, in the order they were added.
    pub fn iter(&self) -> (r: Vec<ID>)
        ensures
            r@.len() == self.spec_order().len(),
            forall|i: int| 0 <= i < r@.len() ==> #[trigger] r@[i] == (ID { index: self.spec_order()[i], sub: 0 }),
    {
        let mut r: Vec<ID> = Vec::new();
        let mut i: usize = 0;
        while i < self.entities.len()
            invariant
                i <= self.entities@.len(),
                r@.len() == i,
                forall|j: int| 0 <= j < i ==> #[trigger] r@[j] == (ID { index: self.entities@[j].0, sub: 0 }),
            decreases self.entities@.len() - i,
        {
            r.push(ID::new(self.entities[i].0, 0));
            i = i + 1;
        }
        r
    }

    /// Delivers a counter message of `amt` to the entity with the index of
    /// `id`; false, and nothing changes, when there is none.
    pub fn inc(&mut self, id: ID, amt: i32, commands: &mut Vec<Command>) -> (r: bool)
        requires
            old(self).wf(),
        ensures
            final(self).wf(),
            r == old(self).view().contains_key(id.index),
            final(self).spec_current_id() == old(self).spec_current_id(),
            final(self).spec_order() == old(self).spec_order(),
            r ==> final(self).view() == old(self).view().insert(id.index, final(self).view()[id.index])
                && Entity::inc_effect(old(self).view()[id.index], final(self).view()[id.index], amt, old(commands)@, final(commands)@),
            !r ==> final(self).view() == old(self).view() && final(commands)@ == old(commands)@,
    {
        let ghost before = *self;
        match self.find(id.getID()) {
            Some(i) => {
                let slot = &mut self.entities[i];
                slot.1.inc(amt, commands);
                proof {
                    self.lemma_replaced(before, i as int);
                }
                true
            },
            None => false,
        }
    }

    /// Delivers a collision message to the entity with the index of `id`;
    /// false, and nothing changes, when there is none.
    pub fn collide(&mut self, id: ID, msg: CollisionMsg) -> (r: bool)
        requires
            old(self).wf(),
        ensures
            final(self).wf(),
            r == old(self).view().contains_key(id.index),
            final(self).spec_current_id() == old(self).spec_current_id(),
            final(self).spec_order() == old(self).spec_order(),
            r ==> final(self).view() == old(self).view().insert(id.index, old(self).view()[id.index].spec_collide(msg)),
            !r ==> final(self).view() == old(self).view(),
    {
        let ghost before = *self;
        match self.find(id.getID()) {
            Some(i) => {
                let slot = &mut self.entities[i];
                slot.1.collide(msg);
                proof {
                    self.lemma_replaced(before, i as int);
                    assert(self.view().dom() =~= before.view().dom());
                }
                true
            },
            None => false,
        }
    }

    /// Hands a wiring request to the entity with the index of `id`.
    pub fn register(&mut self, id: ID, registration: IDRegistration) -> (r: bool)
        requires
            old(self).wf(),
        ensures
            final(self).wf(),
            r == old(self).view().contains_key(id.index),
            final(self).spec_current_id() == old(self).spec_current_id(),
            final(self).spec_order() == old(self).spec_order(),
            r ==> final(self).view() == old(self).view().insert(id.index, old(self).view()[id.index].spec_register(registration)),
            !r ==> final(self).view() == old(self).view(),
    {
        let ghost before = *self;
        match self.find(id.getID()) {
            Some(i) => {
                let slot = &mut self.entities[i];
                slot.1.register(registration);
                proof {
                    self.lemma_replaced(before, i as int);
                    assert(self.view().dom() =~= before.view().dom());
                }
                true
            },
            None => false,
        }
    }

    /// Runs the commit half of the frame of the entity with the index of `id`.
    pub fn update(&mut self, id: ID, data: &EntityData, out: &mut Vec<Request>) -> (r: bool)
        requires
            old(self).wf(),
        ensures
            final(self).wf(),
            r == old(self).view().contains_key(id.index),
            final(self).spec_current_id() == old(self).spec_current_id(),
            final(self).spec_order() == old(self).spec_order(),
            final(self).view().dom() == old(self).view().dom(),
            r ==> final(self).view() == old(self).view().insert(id.index, final(self).view()[id.index])
                && update_rel(old(self).view()[id.index], *data, final(self).view()[id.index], old(out)@, final(out)@),
            !r ==> final(self).view() == old(self).view() && final(out)@ == old(out)@,
    {
        let ghost before = *self;
        match self.find(id.getID()) {
            Some(i) => {
                let slot = &mut self.entities[i];
                slot.1.update(data, out);
                proof {
                    self.lemma_replaced(before, i as int);
                    assert(self.view().dom() =~= before.view().dom());
                }
                true
            },
            None => false,
        }
    }

    /// Advances the per-frame counters of every entity.
    pub fn tickAll(&mut self)
        requires
            old(self).wf(),
        ensures
            final(self).wf(),
            final(self).spec_current_id() == old(self).spec_current_id(),
            final(self).spec_order() == old(self).spec_order(),
            final(self).view().dom() == old(self).view().dom(),
            forall|k: u64| #[trigger] old(self).view().contains_key(k) ==> final(self).view()[k] == old(self).view()[k].spec_tick(),
    {
        let ghost start = *self;
        let n = self.entities.len();
        let mut i: usize = 0;
        while i < n
            invariant
                self.wf(),
                n == self.entities@.len(),
                i <= n,
                self.currentId == start.currentId,
                self.spec_order() == start.spec_order(),
                self.view().dom() == start.view().dom(),
                self.entities@.len() == start.entities@.len(),
                forall|j: int| 0 <= j < n ==> (#[trigger] self.entities@[j]).0 == start.entities@[j].0,
                forall|j: int| 0 <= j < n ==> (#[trigger] self.entities@[j]).1 == if j < i {
                    start.entities@[j].1.spec_tick()
                } else {
                    start.entities@[j].1
                },
            decreases n - i,
        {
            let ghost before = *self;
            let slot = &mut self.entities[i];
            slot.1.tick();
            proof {
                self.lemma_replaced(before, i as int);
                assert(self.view().dom() =~= before.view().dom());
            }
            i = i + 1;
        }
        proof {
            assert forall|k: u64| #[trigger] start.view().contains_key(k) implies self.view()[k] == start.view()[k].spec_tick() by {
                let p = start.pos(k);
                start.lemma_at(p);
                self.lemma_at(p);
            }
        }
    }

    /// Tells the entity with the index of `id`, if a player, which boss it fights.
    pub fn informPlayer(&mut self, id: ID, boss: Option<ID>) -> (r: bool)
        requires
            old(self).wf(),
        ensures
            final(self).wf(),
            r == old(self).view().contains_key(id.index),
            final(self).spec_current_id() == old(self).spec_current_id(),
            final(self).spec_order() == old(self).spec_order(),
            r ==> final(self).view() == old(self).view().insert(id.index, old(self).view()[id.index].spec_set_boss(boss)),
            !r ==> final(self).view() == old(self).view(),
    {
        let ghost before = *self;
        match self.find(id.getID()) {
            Some(i) => {
                let slot = &mut self.entities[i];
                slot.1.setSnakeBoss(boss);
                proof {
                    self.lemma_replaced(before, i as int);
                    assert(self.view().dom() =~= before.view().dom());
                }
                true
            },
            None => false,
        }
    }

    /// The plain data a save keeps of the store.
    pub fn toInner(&self) -> (r: InnerHolder)
        requires
            self.wf(),
        ensures
            r.currentId == self.spec_current_id(),
            increasing_keys(r.innerEntities@),
            forall|i: int| 0 <= i < r.innerEntities@.len() ==> (#[trigger] r.innerEntities@[i]).0 < r.currentId,
            r.innerEntities@.len() == self.spec_entries().len(),
            forall|i: int| 0 <= i < r.innerEntities@.len() ==> (#[trigger] r.innerEntities@[i]).0 == self.spec_entries()[i].0
                && same_saved(self.spec_entries()[i].1, r.innerEntities@[i].1.spec_entity()),
    {
        let mut v: Vec<(u64, InnerCode)> = Vec::new();
        let mut i: usize = 0;
        while i < self.entities.len()
            invariant
                i <= self.entities@.len(),
                v@.len() == i,
                forall|j: int| 0 <= j < i ==> (#[trigger] v@[j]).0 == self.entities@[j].0
                    && same_saved(self.entities@[j].1, v@[j].1.spec_entity()),
            decreases self.entities@.len() - i,
        {
            let k = self.entities[i].0;
            let inner = self.entities[i].1.toInner();
            v.push((k, inner));
            i = i + 1;
        }
        proof {
            assert forall|a: int, b: int| 0 <= a < b < v@.len() implies v@[a].0 < v@[b].0 by {
                assert(self.entities@[a].0 < self.entities@[b].0);
            }
            assert forall|i: int| 0 <= i < v@.len() implies (#[trigger] v@[i]).0 < self.currentId by {
                assert(self.entities@[i].0 < self.currentId);
            }
        }
        InnerHolder { innerEntities: v, currentId: self.currentId }
    }

    /// The store restored from plain data; `None` when the data is
    /// malformed (indices not increasing, or not below the next index).
    pub fn fromInner(inner: InnerHolder) -> (r: Option<Holder>)
        ensures
            r is Some <==> (increasing_keys(inner.innerEntities@) && forall|i: int| 0 <= i < inner.innerEntities@.len()
                ==> (#[trigger] inner.innerEntities@[i]).0 < inner.currentId),
            r matches Some(h) ==> h.wf() && h.spec_current_id() == inner.currentId
                && h.spec_entries().len() == inner.innerEntities@.len()
                && forall|i: int| 0 <= i < h.spec_entries().len() ==> (#[trigger] h.spec_entries()[i]).0 == inner.innerEntities@[i].0
                    && same_saved(h.spec_entries()[i].1, inner.innerEntities@[i].1.spec_entity()),
    {
        let InnerHolder { innerEntities, currentId } = inner;
        let ghost src = innerEntities@;
        let n = innerEntities.len();
        let mut ok = true;
        let mut i: usize = 0;
        while i < n
            invariant
                n == src.len(),
                innerEntities@ == src,
                i <= n,
                ok == (increasing_keys(src.subrange(0, i as int)) && forall|j: int| 0 <= j < i ==> (#[trigger] src[j]).0 < currentId),
            decreases n - i,
        {
            let k = innerEntities[i].0;
            let fits = k < currentId && (i == 0 || innerEntities[i - 1].0 < k);
            proof {
                let a = src.subrange(0, i as int);
                let b = src.subrange(0, i as int + 1);
                if increasing_keys(a) && (i == 0 || src[i - 1].0 < k) {
                    assert forall|x: int, y: int| 0 <= x < y < b.len() implies b[x].0 < b[y].0 by {
                        if y < i {
                            assert(a[x].0 < a[y].0);
                        } else if x < i - 1 {
                            assert(a[x].0 < a[i - 1].0);
                        }
                    }
                }
                if increasing_keys(b) {
                    assert forall|x: int, y: int| 0 <= x < y < a.len() implies a[x].0 < a[y].0 by {
                        assert(b[x].0 < b[y].0);
                    }
                    if i > 0 {
                        assert(b[i - 1].0 < b[i as int].0);
                    }
                }
            }
            ok = ok && fits;
            i = i + 1;
        }
        proof {
            assert(src.subrange(0, n as int) =~= src);
        }
        if !ok {
            return None;
        }
        let mut rest = innerEntities;
        let mut rev: Vec<(u64, Entity)> = Vec::new();
        while rest.len() > 0
            invariant
                rest@ == src.subrange(0, rest@.len() as int),
                rest@.len() <= n,
                n == src.len(),
                rev@.len() == n - rest@.len(),
                forall|j: int| 0 <= j < rev@.len() ==> (#[trigger] rev@[j]).0 == src[n - 1 - j].0
                    && same_saved(rev@[j].1, src[n - 1 - j].1.spec_entity()),
            decreases rest@.len(),
        {
            let ghost before = rest@;
            match rest.pop() {
                Some((k, code)) => {
                    proof {
                        assert(before.last() == src[before.len() - 1]);
                        assert(rest@ =~= src.subrange(0, rest@.len() as int));
                    }
                    rev.push((k, code.intoEntity()));
                },
                None => {},
            }
        }
        let ghost all = rev@;
        let mut entities: Vec<(u64, Entity)> = Vec::new();
        while rev.len() > 0
            invariant
                all.len() == n,
                n == src.len(),
                rev@ == all.subrange(0, rev@.len() as int),
                entities@.len() == n - rev@.len(),
                forall|j: int| 0 <= j < n ==> (#[trigger] all[j]).0 == src[n - 1 - j].0
                    && same_saved(all[j].1, src[n - 1 - j].1.spec_entity()),
                forall|j: int| 0 <= j < entities@.len() ==> (#[trigger] entities@[j]).0 == src[j].0
                    && same_saved(entities@[j].1, src[j].1.spec_entity()),
            decreases rev@.len(),
        {
            let ghost before = rev@;
            match rev.pop() {
                Some(e) => {
                    proof {
                        let m = before.len() - 1;
                        assert(e == all[m]);
                        assert(n - 1 - m == entities@.len());
                        assert(rev@ =~= all.subrange(0, rev@.len() as int));
                    }
                    entities.push(e);
                },
                None => {},
            }
        }
        let h = Holder { entities, currentId };
        proof {
            assert forall|a: int, b: int| 0 <= a < b < h.entities@.len() implies h.entities@[a].0 < h.entities@[b].0 by {
                assert(src[a].0 < src[b].0);
            }
            assert forall|j: int| 0 <= j < h.entities@.len() implies #[trigger] h.entities@[j].0 < h.currentId by {
                assert(src[j].0 < currentId);
            }
        }
        Some(h)
    }

    /// Saving the store and restoring the saved data gives back a store with
    /// the same live indices, the same next index, and under each index an
    /// entity that agrees with the saved one on everything a save keeps.
    /// (`inner` is what `toInner` made of `self`; `restored` is what `fromInner`
    /// made of `inner`, which it always restores.)
    pub proof fn save_round_trip(&self, inner: InnerHolder, restored: Holder)
        requires
            self.wf(),
            inner.currentId == self.spec_current_id(),
            inner.innerEntities@.len() == self.spec_entries().len(),
            forall|i: int| 0 <= i < inner.innerEntities@.len() ==> (#[trigger] inner.innerEntities@[i]).0 == self.spec_entries()[i].0
                && same_saved(self.spec_entries()[i].1, inner.innerEntities@[i].1.spec_entity()),
            restored.spec_current_id() == inner.currentId,
            restored.spec_entries().len() == inner.innerEntities@.len(),
            forall|i: int| 0 <= i < restored.spec_entries().len() ==> (#[trigger] restored.spec_entries()[i]).0 == inner.innerEntities@[i].0
                && same_saved(restored.spec_entries()[i].1, inner.innerEntities@[i].1.spec_entity()),
        ensures
            increasing_keys(inner.innerEntities@),
            forall|i: int| 0 <= i < inner.innerEntities@.len() ==> (#[trigger] inner.innerEntities@[i]).0 < inner.currentId,
            restored.wf() ==> restored.view().dom() == self.view().dom(),
            restored.wf() ==> forall|k: u64| #[trigger] self.view().contains_key(k) ==> same_saved(self.view()[k], restored.view()[k]),
            restored.spec_current_id() == self.spec_current_id(),
    {
        assert forall|a: int, b: int| 0 <= a < b < inner.innerEntities@.len() implies inner.innerEntities@[a].0 < inner.innerEntities@[b].0 by {
            assert(self.entities@[a].0 < self.entities@[b].0);
        }
        assert forall|i: int| 0 <= i < inner.innerEntities@.len() implies (#[trigger] inner.innerEntities@[i]).0 < inner.currentId by {
            assert(self.entities@[i].0 < self.currentId);
        }
        if restored.wf() {
            assert forall|k: u64| #[trigger] self.view().contains_key(k) implies restored.view().contains_key(k) && same_saved(self.view()[k], restored.view()[k]) by {
                let i = self.pos(k);
                self.lemma_at(i);
                assert(restored.entities@[i].0 == k);
                restored.lemma_at(i);
                lemma_same_saved_trans(self.entities@[i].1, inner.innerEntities@[i].1.spec_entity(), restored.entities@[i].1);
            }
            assert forall|k: u64| #[trigger] restored.view().contains_key(k) implies self.view().contains_key(k) by {
                let i = restored.pos(k);
                restored.lemma_at(i);
                assert(self.entities@[i].0 == k);
                self.lemma_at(i);
            }
            assert(restored.view().dom() =~= self.view().dom());
        }
    }

    /// Hands the state of the keys to the entity with the index of `id`.
    pub fn signal(&mut self, id: ID, signals: Signals) -> (r: bool)
        requires
            old(self).wf(),
        ensures
            final(self).wf(),
            r == old(self).view().contains_key(id.index),
            final(self).spec_current_id() == old(self).spec_current_id(),
            final(self).spec_order() == old(self).spec_order(),
            r ==> final(self).view() == old(self).view().insert(id.index, old(self).view()[id.index].spec_signal(signals)),
            !r ==> final(self).view() == old(self).view(),
    {
        let ghost before = *self;
        match self.find(id.getID()) {
            Some(i) => {
                let slot = &mut self.entities[i];
                slot.1.signal(signals);
                proof {
                    self.lemma_replaced(before, i as int);
                    assert(self.view().dom() =~= before.view().dom());
                }
                true
            },
            None => false,
        }
    }

    /// Puts the entity with the index of `id` at `(x, y)` (see `Entity::placeAt`).
    pub fn placeAt(&mut self, id: ID, x: i32, y: i32) -> (r: bool)
        requires
            old(self).wf(),
        ensures
            final(self).wf(),
            r == old(self).view().contains_key(id.index),
            final(self).spec_current_id() == old(self).spec_current_id(),
            final(self).spec_order() == old(self).spec_order(),
            r ==> final(self).view() == old(self).view().insert(id.index, final(self).view()[id.index]),
            r && old(self).view()[id.index] is Player ==> final(self).view()[id.index] == Entity::Player(Player {
                position: (x, y),
                hitbox: Rect { x, y, ..old(self).view()[id.index]->Player_0.hitbox },
                ..old(self).view()[id.index]->Player_0
            }),
            !r ==> final(self).view() == old(self).view(),
    {
        let ghost before = *self;
        match self.find(id.getID()) {
            Some(i) => {
                let slot = &mut self.entities[i];
                slot.1.placeAt(x, y);
                proof {
                    self.lemma_replaced(before, i as int);
                }
                true
            },
            None => false,
        }
    }
}

/// Agreeing on the saved data with a common entity means agreeing with each other.
proof fn lemma_same_saved_trans(a: Entity, m: Entity, b: Entity)
    requires
        same_saved(a, m),
        same_saved(b, m),
    ensures
        same_saved(a, b),
{
}

proof fn lemma_filter_absent_u64(s: Seq<u64>, k: u64)
    requires
        forall|j: int| 0 <= j < s.len() ==> s[j] != k,
    ensures
        s.filter(|e: u64| e != k) == s,
    decreases s.len(),
{
    let f = |e: u64| e != k;
    if s.len() > 0 {
        lemma_filter_absent_u64(s.drop_last(), k);
        assert(s == s.drop_last().push(s.last()));
        s.drop_last().lemma_filter_push(s.last(), f);
    } else {
        assert(s.filter(f) =~= s);
    }
}

/// Removing the one entry with key `k` from strictly increasing entries
/// removes `k` from their key order.
proof fn lemma_order_remove(s: Seq<(u64, Entity)>, i: int, k: u64)
    requires
        increasing(s),
        0 <= i < s.len(),
        s[i].0 == k,
    ensures
        s.remove(i).map_values(|e: (u64, Entity)| e.0) == s.map_values(|e: (u64, Entity)| e.0).filter(|q: u64| q != k),
{
    let keys = s.map_values(|e: (u64, Entity)| e.0);
    let f = |q: u64| q != k;
    let a = keys.subrange(0, i);
    let b = keys.subrange(i + 1, keys.len() as int);
    assert(keys =~= a.push(k) + b);
    assert(s.remove(i).map_values(|e: (u64, Entity)| e.0) =~= a + b);
    assert forall|j: int| 0 <= j < a.len() implies a[j] != k by {
        assert(s[j].0 < s[i].0);
    }
    assert forall|j: int| 0 <= j < b.len() implies b[j] != k by {
        assert(s[i].0 < s[i + 1 + j].0);
    }
    lemma_filter_absent_u64(a, k);
    lemma_filter_absent_u64(b, k);
    Seq::filter_distributes_over_add(a.push(k), b, f);
    a.lemma_filter_push(k, f);
}

} // verus!
