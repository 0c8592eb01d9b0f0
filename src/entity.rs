//! Entity identities and the manager that hands them out.

use vstd::prelude::*;

use crate::aspect::Aspect;
use crate::world::{signature, ComponentManager};
use crate::EntityData;

verus! {

/// Unique identifier of an entity; never handed out twice by one manager.
pub type Id = u64;

/// An entity: the slot it occupies and its unique id. The id tells a live entity apart from
/// an earlier occupant of the same slot.
#[derive(Copy, Clone, Debug, PartialEq, Eq, Hash, Structural)]
pub struct Entity {
    index: usize,
    unique_id: Id,
}

impl Entity {
    pub closed spec fn slot(self) -> usize {
        self.index
    }

    pub closed spec fn uid(self) -> Id {
        self.unique_id
    }

    /// The sentinel entity.
    pub closed spec fn spec_nil() -> Entity {
        Entity { index: 0, unique_id: 0 }
    }

    /// Entities are equal exactly when their slots and ids are.
    pub proof fn lemma_eq(a: Entity, b: Entity)
        ensures
            (a == b) <==> (a.slot() == b.slot() && a.uid() == b.uid()),
    {
    }

    /// The sentinel entity, which no manager hands out: its id is 0, and ids start at 1.
    pub fn nil() -> (r: Entity)
        ensures
            r == Entity::spec_nil(),
            r.slot() == 0,
            r.uid() == 0,
    {
        Entity { index: 0, unique_id: 0 }
    }

    /// The entity's unique identifier.
    pub fn id(&self) -> (r: Id)
        ensures
            r == self.uid(),
    {
        self.unique_id
    }

    /// The slot that the entity occupies.
    pub fn index(&self) -> (r: usize)
        ensures
            r == self.slot(),
    {
        self.index
    }
}

impl Default for Entity {
    fn default() -> (r: Entity)
        ensures
            r == Entity::spec_nil(),
            r.slot() == 0,
            r.uid() == 0,
    {
        Entity::nil()
    }
}

/// An entity together with its slot, as the manager holds it for a live entity.
#[derive(Copy, Clone, Debug, PartialEq, Eq, Hash, Structural)]
pub struct IndexedEntity {
    entity: Entity,
}

impl IndexedEntity {
    pub closed spec fn spec_entity(self) -> Entity {
        self.entity
    }

    pub open spec fn slot(self) -> usize {
        self.spec_entity().slot()
    }

    /// The slot of the entity.
    pub fn index(&self) -> (r: usize)
        ensures
            r == self.slot(),
    {
        self.entity.index
    }

    /// The entity itself.
    pub fn entity(&self) -> (r: Entity)
        ensures
            r == self.spec_entity(),
    {
        self.entity
    }
}

/// Every `usize` below `n`.
spec fn below(n: usize) -> Set<usize> {
    Set::new(|i: usize| i < n)
}

proof fn lemma_below_len(n: usize)
    ensures
        below(n).finite(),
        below(n).len() == n,
    decreases n,
{
    if n == 0 {
        assert(below(n) =~= Set::empty());
    } else {
        lemma_below_len((n - 1) as usize);
        assert(below(n) =~= below((n - 1) as usize).insert((n - 1) as usize));
    }
}

/// A list without repeats of values below `n` is no longer than `n`.
proof fn lemma_distinct_below_len(s: Seq<usize>, n: usize)
    requires
        s.no_duplicates(),
        forall|k: int| 0 <= k < s.len() ==> s[k] < n,
    ensures
        s.len() <= n,
{
    lemma_below_len(n);
    s.unique_seq_to_set();
    assert(s.to_set().subset_of(below(n)));
    vstd::set_lib::lemma_len_subset(s.to_set(), below(n));
}

/// Hands out slot indices, reusing released ones before fresh ones.
pub struct IndexPool {
    recycled: Vec<usize>,
    next_index: usize,
}

impl IndexPool {
    /// Released slots, the most recently released last.
    pub closed spec fn free_list(&self) -> Seq<usize> {
        self.recycled@
    }

    /// The first slot never handed out.
    pub closed spec fn next(&self) -> usize {
        self.next_index
    }

    /// The slots handed out and not released since.
    pub open spec fn in_use(&self) -> Set<usize> {
        Set::new(|i: usize| i < self.next() && !self.free_list().contains(i))
    }

    pub closed spec fn wf(&self) -> bool {
        &&& self.recycled@.no_duplicates()
        &&& forall|k: int| 0 <= k < self.recycled@.len() ==> self.recycled@[k] < self.next_index
    }

    pub fn new() -> (r: IndexPool)
        ensures
            r.wf(),
            r.free_list() == Seq::<usize>::empty(),
            r.next() == 0,
    {
        IndexPool { recycled: Vec::new(), next_index: 0 }
    }

    /// How many slots are in use.
    pub fn count(&self) -> (r: usize)
        requires
            self.wf(),
        ensures
            r == self.next() - self.free_list().len(),
            r == self.in_use().len(),
            self.in_use().finite(),
    {
        proof {
            lemma_distinct_below_len(self.recycled@, self.next_index);
            self.lemma_in_use_len();
        }
        self.next_index - self.recycled.len()
    }

    /// The slots in use number those handed out less those released.
    proof fn lemma_in_use_len(&self)
        requires
            self.wf(),
        ensures
            self.in_use().finite(),
            self.in_use().len() == self.next() - self.free_list().len(),
    {
        let all = below(self.next_index);
        let freed = self.recycled@.to_set();
        lemma_below_len(self.next_index);
        self.recycled@.unique_seq_to_set();
        assert(freed.subset_of(all));
        assert(self.in_use() =~= all.difference(freed));
        assert(all.intersect(freed) =~= freed);
        vstd::set_lib::lemma_set_difference_len(all, freed);
        vstd::set_lib::lemma_len_subset(freed, all);
        vstd::set_lib::lemma_len_difference(all, freed);
    }

    /// Takes a slot: the most recently released one, else the first fresh one.
    pub fn get_index(&mut self) -> (r: usize)
        requires
            old(self).wf(),
            old(self).free_list().len() > 0 || old(self).next() < usize::MAX,
        ensures
            final(self).wf(),
            !old(self).in_use().contains(r),
            final(self).in_use() == old(self).in_use().insert(r),
            old(self).free_list().len() > 0 ==> {
                &&& r == old(self).free_list().last()
                &&& final(self).free_list() == old(self).free_list().drop_last()
                &&& final(self).next() == old(self).next()
            },
            old(self).free_list().len() == 0 ==> {
                &&& r == old(self).next()
                &&& final(self).free_list() == old(self).free_list()
                &&& final(self).next() == old(self).next() + 1
            },
    {
        match self.recycled.pop() {
            Some(id) => {
                proof {
                    assert(old(self).recycled@ =~= self.recycled@.push(id));
                    assert(forall|i: usize| #[trigger] old(self).recycled@.contains(i) <==> (i == id || self.recycled@.contains(i)));
                    assert(self.in_use() =~= old(self).in_use().insert(id));
                }
                id
            },
            None => {
                self.next_index = self.next_index + 1;
                proof {
                    assert(self.in_use() =~= old(self).in_use().insert(old(self).next_index));
                }
                self.next_index - 1
            },
        }
    }

    /// Gives a slot in use back to the pool.
    pub fn return_id(&mut self, id: usize)
        requires
            old(self).wf(),
            old(self).in_use().contains(id),
        ensures
            final(self).wf(),
            final(self).free_list() == old(self).free_list().push(id),
            final(self).next() == old(self).next(),
            final(self).in_use() == old(self).in_use().remove(id),
    {
        self.recycled.push(id);
        proof {
            let s0 = old(self).recycled@;
            assert(self.recycled@ =~= s0.push(id));
            assert forall|i: usize| #[trigger] self.recycled@.contains(i) <==> (i == id || s0.contains(i)) by {
                if s0.contains(i) {
                    let k = choose|k: int| 0 <= k < s0.len() && s0[k] == i;
                    assert(self.recycled@[k] == i);
                }
                if i == id {
                    assert(self.recycled@[s0.len() as int] == id);
                }
            }
            assert(self.in_use() =~= old(self).in_use().remove(id));
        }
    }
}


/// Creates, validates and removes entities, recycling the slots of removed ones.
pub struct EntityManager {
    indices: IndexPool,
    slots: Vec<Option<Entity>>,
    next_id: Id,
}

impl EntityManager {
    #[verifier::type_invariant]
    pub closed spec fn inv(self) -> bool {
        &&& self.indices.wf()
        &&& self.slots@.len() == self.indices.next()
        &&& forall|i: usize| i < self.slots@.len() ==> (#[trigger] self.slots@[i as int] is Some <==> self.indices.in_use().contains(i))
        &&& forall|i: usize| i < self.slots@.len() && #[trigger] self.slots@[i as int] is Some ==> {
            &&& self.slots@[i as int]->Some_0.index == i
            &&& 1 <= self.slots@[i as int]->Some_0.unique_id <= self.next_id
        }
    }

    /// The live entities.
    pub closed spec fn live(&self) -> Set<Entity> {
        Set::new(|e: Entity| e.index < self.slots@.len() && self.slots@[e.index as int] == Some(e))
    }

    /// Released slots, the most recently released last.
    pub closed spec fn free_list(&self) -> Seq<usize> {
        self.indices.free_list()
    }

    /// The first slot never handed out.
    pub closed spec fn next_slot(&self) -> usize {
        self.indices.next()
    }

    /// The unique id handed out last (0 before the first).
    pub closed spec fn last_id(&self) -> Id {
        self.next_id
    }

    /// `after` is `before` with `r` created in it.
    pub open spec fn creates(before: EntityManager, after: EntityManager, r: Entity) -> bool {
        &&& r.uid() == before.last_id() + 1
        &&& after.last_id() == r.uid()
        &&& after.live() == before.live().insert(r)
        &&& forall|e: Entity| #[trigger] before.live().contains(e) ==> e.slot() != r.slot() && e.uid() < r.uid()
        &&& before.free_list().len() > 0 ==> {
            &&& r.slot() == before.free_list().last()
            &&& after.free_list() == before.free_list().drop_last()
            &&& after.next_slot() == before.next_slot()
        }
        &&& before.free_list().len() == 0 ==> {
            &&& r.slot() == before.next_slot()
            &&& after.free_list() == before.free_list()
            &&& after.next_slot() == before.next_slot() + 1
        }
    }

    /// `after` is `before` with `e` removed from it; nothing changes where `e` is not live.
    pub open spec fn removes(before: EntityManager, after: EntityManager, e: Entity) -> bool {
        &&& after.live() == before.live().remove(e)
        &&& after.last_id() == before.last_id()
        &&& after.next_slot() == before.next_slot()
        &&& before.live().contains(e) ==> after.free_list() == before.free_list().push(e.slot())
        &&& !before.live().contains(e) ==> after.free_list() == before.free_list()
    }

    /// The manager's internal invariant, which every manager value meets.
    pub closed spec fn wf(&self) -> bool {
        self.inv()
    }

    /// No two live entities share a slot.
    pub proof fn lemma_live_slots(&self)
        requires
            self.inv(),
        ensures
            forall|a: Entity, b: Entity| #[trigger] self.live().contains(a) && #[trigger] self.live().contains(b) && a.slot() == b.slot() ==> a == b,
    {
    }

    /// Live entities carry ids handed out already.
    pub proof fn lemma_live_ids(&self)
        requires
            self.wf(),
        ensures
            forall|e: Entity| #[trigger] self.live().contains(e) ==> 1 <= e.uid() <= self.last_id(),
    {
        assert forall|e: Entity| #[trigger] self.live().contains(e) implies 1 <= e.uid() <= self.last_id() by {
            assert(self.slots@[e.index as int] is Some);
        }
    }

    /// Whether one more entity can be created without running out of ids or slots.
    pub open spec fn can_create(&self) -> bool {
        &&& self.last_id() < Id::MAX
        &&& (self.free_list().len() > 0 || self.next_slot() < usize::MAX)
    }

    /// Moves the fields out, leaving an empty manager behind.
    fn take(&mut self) -> (r: (IndexPool, Vec<Option<Entity>>, Id))
        ensures
            r == (old(self).indices, old(self).slots, old(self).next_id),
            final(self).live() == Set::<Entity>::empty(),
    {
        let mut me = EntityManager::new();
        std::mem::swap(self, &mut me);
        let EntityManager { indices, slots, next_id } = me;
        (indices, slots, next_id)
    }

    pub fn new() -> (r: EntityManager)
        ensures
            r.wf(),
            r.live() == Set::<Entity>::empty(),
            r.free_list() == Seq::<usize>::empty(),
            r.next_slot() == 0,
            r.last_id() == 0,
    {
        let r = EntityManager { indices: IndexPool::new(), slots: Vec::new(), next_id: 0 };
        assert(r.live() =~= Set::<Entity>::empty());
        r
    }

    /// Creates an entity in the most recently released slot, else in a fresh one, under the next
    /// unique id.
    pub fn create(&mut self) -> (r: Entity)
        requires
            old(self).can_create(),
        ensures
            EntityManager::creates(*old(self), *final(self), r),
    {
        proof { use_type_invariant(&*self); }
        let (mut indices, mut slots, next_id) = self.take();
        let index = indices.get_index();
        let entity = Entity { index, unique_id: next_id + 1 };
        if index < slots.len() {
            slots.set(index, Some(entity));
        } else {
            slots.push(Some(entity));
        }
        proof {
            let old_slots = old(self).slots@;
            assert forall|i: usize| i < slots@.len() implies (#[trigger] slots@[i as int] is Some <==> indices.in_use().contains(i)) by {
                if i != index {
                    assert(slots@[i as int] == old_slots[i as int]);
                }
            }
            assert forall|i: usize| i < slots@.len() && #[trigger] slots@[i as int] is Some implies {
                &&& slots@[i as int]->Some_0.index == i
                &&& 1 <= slots@[i as int]->Some_0.unique_id <= next_id + 1
            } by {
                if i != index {
                    assert(slots@[i as int] == old_slots[i as int]);
                }
            }
        }
        *self = EntityManager { indices, slots, next_id: next_id + 1 };
        proof {
            assert(self.live() =~= old(self).live().insert(entity));
        }
        entity
    }

    /// Whether the entity is live: its slot holds it under the same unique id.
    pub fn is_valid(&self, entity: &Entity) -> (r: bool)
        ensures
            r == self.live().contains(*entity),
    {
        proof { use_type_invariant(self); }
        if entity.index < self.slots.len() {
            match self.slots[entity.index] {
                Some(e) => e == *entity,
                None => false,
            }
        } else {
            false
        }
    }

    /// How many entities are live.
    pub fn count(&self) -> (r: usize)
        ensures
            r == self.next_slot() - self.free_list().len(),
            r == self.live().len(),
            self.live().finite(),
    {
        proof {
            use_type_invariant(self);
            self.lemma_live_len();
        }
        self.indices.count()
    }

    /// Live entities and slots in use correspond one to one.
    proof fn lemma_live_len(&self)
        requires
            self.inv(),
        ensures
            self.live().finite(),
            self.live().len() == self.indices.in_use().len(),
    {
        self.indices.lemma_in_use_len();
        let f = |i: usize| self.slots@[i as int]->Some_0;
        let used = self.indices.in_use();
        assert forall|e: Entity| #[trigger] self.live().contains(e) <==> used.map(f).contains(e) by {
            if self.live().contains(e) {
                assert(self.slots@[e.index as int] is Some);
                assert(used.contains(e.index) && f(e.index) == e);
            }
            if used.map(f).contains(e) {
                let i = choose|i: usize| used.contains(i) && f(i) == e;
                assert(self.slots@[i as int] is Some);
            }
        }
        assert(self.live() =~= used.map(f));
        assert forall|a: usize, b: usize| used.contains(a) && used.contains(b) && #[trigger] f(a) == #[trigger] f(b) implies a == b by {
            assert(self.slots@[a as int] is Some && self.slots@[b as int] is Some);
        }
        vstd::set_lib::lemma_map_size(used, self.live(), f);
    }

    /// The live entity with its slot.
    pub fn indexed(&self, entity: &Entity) -> (r: IndexedEntity)
        requires
            self.live().contains(*entity),
        ensures
            r.spec_entity() == *entity,
    {
        IndexedEntity { entity: *entity }
    }

    /// The live entities, in slot order.
    pub fn iter(&self) -> (r: EntityIter)
        ensures
            r.wf(),
            r.handles().to_set() == self.live(),
            r.handles().no_duplicates(),
            r.handles().len() == self.live().len(),
    {
        proof { use_type_invariant(self); }
        let mut items: Vec<EntityData> = Vec::new();
        let ghost mut hs: Seq<Entity> = Seq::empty();
        let mut k: usize = 0;
        while k < self.slots.len()
            invariant
                self.inv(),
                k <= self.slots@.len(),
                hs.len() == items@.len(),
                forall|j: int| 0 <= j < hs.len() ==> #[trigger] items@[j].target().spec_entity() == hs[j],
                forall|e: Entity| #[trigger] hs.contains(e) <==> (self.live().contains(e) && e.index < k),
                forall|a: int, b: int| 0 <= a < b < hs.len() ==> hs[a].index < hs[b].index,
                forall|j: int| 0 <= j < hs.len() ==> hs[j].index < k,
            decreases self.slots@.len() - k,
        {
            match self.slots[k] {
                Some(e) => {
                    items.push(EntityData::new(IndexedEntity { entity: e }));
                    proof {
                        let h0 = hs;
                        hs = hs.push(e);
                        assert forall|x: Entity| #[trigger] hs.contains(x) <==> (self.live().contains(x) && x.index < k + 1) by {
                            if h0.contains(x) {
                                let j = choose|j: int| 0 <= j < h0.len() && h0[j] == x;
                                assert(hs[j] == x);
                            }
                            if x == e {
                                assert(hs[h0.len() as int] == x);
                            }
                            if hs.contains(x) {
                                let j = choose|j: int| 0 <= j < hs.len() && hs[j] == x;
                                if j < h0.len() {
                                    assert(h0[j] == x);
                                }
                            }
                        }
                    }
                },
                None => {
                    proof {
                        assert forall|x: Entity| #[trigger] hs.contains(x) <==> (self.live().contains(x) && x.index < k + 1) by {
                            if self.live().contains(x) && x.index == k {
                                assert(self.slots@[k as int] is Some);
                            }
                        }
                    }
                },
            }
            k = k + 1;
        }
        proof {
            assert(hs.to_set() =~= self.live());
            assert forall|a: int, b: int| 0 <= a < hs.len() && 0 <= b < hs.len() && a != b implies hs[a] != hs[b] by {
                if a < b {
                    assert(hs[a].index < hs[b].index);
                } else {
                    assert(hs[b].index < hs[a].index);
                }
            }
        }
        let r = EntityIter { items, next: 0 };
        assert(r.handles() =~= hs);
        proof {
            hs.unique_seq_to_set();
        }
        r
    }

    /// Removes a live entity and releases its slot; does nothing to an entity that is not live.
    pub fn remove(&mut self, entity: &Entity)
        ensures
            EntityManager::removes(*old(self), *final(self), *entity),
    {
        proof { use_type_invariant(&*self); }
        if self.is_valid(entity) {
            let (mut indices, mut slots, next_id) = self.take();
            let index = entity.index;
            slots.set(index, None);
            indices.return_id(index);
            proof {
                let old_slots = old(self).slots@;
                assert forall|i: usize| i < slots@.len() implies (#[trigger] slots@[i as int] is Some <==> indices.in_use().contains(i)) by {
                    if i != index {
                        assert(slots@[i as int] == old_slots[i as int]);
                    }
                }
                assert forall|i: usize| i < slots@.len() && #[trigger] slots@[i as int] is Some implies {
                    &&& slots@[i as int]->Some_0.index == i
                    &&& 1 <= slots@[i as int]->Some_0.unique_id <= next_id
                } by {
                    assert(slots@[i as int] == old_slots[i as int]);
                }
            }
            *self = EntityManager { indices, slots, next_id };
            proof {
                assert(self.live() =~= old(self).live().remove(*entity));
            }
        } else {
            proof {
                assert(self.live() =~= old(self).live().remove(*entity));
            }
        }
    }
}

/// A snapshot of entities, handed out one at a time.
pub struct EntityIter {
    items: Vec<EntityData>,
    next: usize,
}

impl EntityIter {
    /// The entities not handed out yet, in order.
    pub closed spec fn remaining(&self) -> Seq<EntityData> {
        self.items@.subrange(self.next as int, self.items@.len() as int)
    }

    pub(crate) fn of(items: Vec<EntityData>) -> (r: EntityIter)
        ensures
            r.wf(),
            r.remaining() == items@,
    {
        let r = EntityIter { items, next: 0 };
        assert(r.remaining() =~= items@);
        r
    }

    pub closed spec fn wf(&self) -> bool {
        self.next <= self.items@.len()
    }

    /// The entities not handed out yet.
    pub open spec fn handles(&self) -> Seq<Entity> {
        self.remaining().map_values(|d: EntityData| d.target().spec_entity())
    }

    /// Hands out the next entity.
    pub fn next(&mut self) -> (r: Option<EntityData>)
        requires
            old(self).wf(),
        ensures
            final(self).wf(),
            old(self).remaining().len() == 0 ==> r is None && final(self).remaining() == old(self).remaining(),
            old(self).remaining().len() > 0 ==> {
                &&& r == Some(old(self).remaining()[0])
                &&& final(self).remaining() == old(self).remaining().drop_first()
            },
    {
        if self.next < self.items.len() {
            let d = self.items[self.next];
            self.next = self.next + 1;
            assert(self.remaining() =~= old(self).remaining().drop_first());
            Some(d)
        } else {
            None
        }
    }

    /// The entities not handed out yet whose components meet the aspect.
    pub fn filter<C: ComponentManager>(self, aspect: Aspect, components: &C) -> (r: FilteredEntityIter)
        requires
            self.wf(),
        ensures
            r.wf(),
            r.remaining() == self.remaining().filter(
                |d: EntityData| aspect.matches(signature(components, d.target().slot())),
            ),
    {
        let ghost pred = |d: EntityData| aspect.matches(signature(components, d.target().slot()));
        let mut items: Vec<EntityData> = Vec::new();
        let mut k: usize = self.next;
        while k < self.items.len()
            invariant
                self.next <= k <= self.items@.len(),
                pred == (|d: EntityData| aspect.matches(signature(components, d.target().slot()))),
                items@ == self.items@.subrange(self.next as int, k as int).filter(pred),
            decreases self.items@.len() - k,
        {
            let d = self.items[k];
            proof {
                let s0 = self.items@.subrange(self.next as int, k as int);
                assert(self.items@.subrange(self.next as int, k + 1) =~= s0.push(d));
                s0.lemma_filter_push(d, pred);
            }
            if aspect.check(&d, components) {
                items.push(d);
            }
            k = k + 1;
        }
        let inner = EntityIter { items, next: 0 };
        assert(inner.remaining() =~= items@);
        FilteredEntityIter { inner }
    }
}

/// The entities of a snapshot that meet an aspect, handed out one at a time.
pub struct FilteredEntityIter {
    inner: EntityIter,
}

impl FilteredEntityIter {
    /// The entities not handed out yet, in order.
    pub closed spec fn remaining(&self) -> Seq<EntityData> {
        self.inner.remaining()
    }

    pub closed spec fn wf(&self) -> bool {
        self.inner.wf()
    }

    /// Hands out the next entity.
    pub fn next(&mut self) -> (r: Option<EntityData>)
        requires
            old(self).wf(),
        ensures
            final(self).wf(),
            old(self).remaining().len() == 0 ==> r is None && final(self).remaining() == old(self).remaining(),
            old(self).remaining().len() > 0 ==> {
                &&& r == Some(old(self).remaining()[0])
                &&& final(self).remaining() == old(self).remaining().drop_first()
            },
    {
        self.inner.next()
    }
}

/// Removing a live entity and then creating one puts the new entity in the removed one's slot,
/// under another unique id; the removed handle stays invalid.
pub proof fn lemma_index_reuse(m0: EntityManager, a: Entity, m1: EntityManager, b: Entity, m2: EntityManager)
    requires
        m0.wf(),
        m0.live().contains(a),
        EntityManager::removes(m0, m1, a),
        EntityManager::creates(m1, m2, b),
    ensures
        b.slot() == a.slot(),
        b.uid() != a.uid(),
        !m2.live().contains(a),
        m2.live().contains(b),
{
    m0.lemma_live_ids();
}

} // verus!