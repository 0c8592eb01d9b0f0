//! Storage of one component type, addressed by entity slot.

use vstd::prelude::*;

use crate::entity::{Entity, IndexedEntity};
use crate::{BuildData, EditData, ModifyData};

verus! {

/// A piece of data that can be attached to an entity.
pub trait Component {}

impl<T> Component for T {}

/// Dense storage indexes a vector by slot; sparse storage lists (slot, value) pairs.
enum InnerComponentList<T> {
    Hot(Vec<Option<T>>),
    Cold(Vec<(usize, T)>),
}

/// The components of one type, by entity slot.
pub struct ComponentList<T> {
    inner: InnerComponentList<T>,
}

/// Where slot `i` is listed in a sparse storage.
spec fn cold_pos<T>(v: Seq<(usize, T)>, i: usize) -> int {
    choose|j: int| 0 <= j < v.len() && v[j].0 == i
}

spec fn cold_has<T>(v: Seq<(usize, T)>, i: usize) -> bool {
    exists|j: int| 0 <= j < v.len() && v[j].0 == i
}

spec fn cold_unique<T>(v: Seq<(usize, T)>) -> bool {
    forall|j: int, k: int| 0 <= j < v.len() && 0 <= k < v.len() && v[j].0 == v[k].0 ==> j == k
}

/// In a sparse storage without repeated slots, the pair listing slot `v[j].0` is the `j`-th.
proof fn lemma_cold_pos<T>(v: Seq<(usize, T)>, j: int)
    requires
        cold_unique(v),
        0 <= j < v.len(),
    ensures
        cold_has(v, v[j].0),
        cold_pos(v, v[j].0) == j,
{
    assert(cold_has(v, v[j].0));
}

spec fn hot_view<T>(v: Seq<Option<T>>) -> Map<usize, T> {
    Map::new(|i: usize| i < v.len() && v[i as int] is Some, |i: usize| v[i as int]->Some_0)
}

spec fn cold_view<T>(v: Seq<(usize, T)>) -> Map<usize, T> {
    Map::new(|i: usize| cold_has(v, i), |i: usize| v[cold_pos(v, i)].1)
}

/// Writing through a reference to a stored dense component replaces that component.
proof fn lemma_hot_write<T>(v: Seq<Option<T>>, i: usize)
    requires
        i < v.len(),
        v[i as int] is Some,
    ensures
        forall|w: T| #[trigger] hot_view(v.update(i as int, Some(w))) == hot_view(v).insert(i, w),
{
    assert forall|w: T| #[trigger] hot_view(v.update(i as int, Some(w))) == hot_view(v).insert(i, w) by {
        assert(hot_view(v.update(i as int, Some(w))) =~= hot_view(v).insert(i, w));
    }
}

/// Writing through a reference to a stored sparse component replaces that component.
proof fn lemma_cold_write<T>(v: Seq<(usize, T)>, j: int)
    requires
        cold_unique(v),
        0 <= j < v.len(),
    ensures
        forall|w: T| #![trigger v.update(j, (v[j].0, w))] {
            &&& cold_unique(v.update(j, (v[j].0, w)))
            &&& cold_view(v.update(j, (v[j].0, w))) == cold_view(v).insert(v[j].0, w)
        },
{
    assert forall|w: T| #![trigger v.update(j, (v[j].0, w))] {
            &&& cold_unique(v.update(j, (v[j].0, w)))
            &&& cold_view(v.update(j, (v[j].0, w))) == cold_view(v).insert(v[j].0, w)
    } by {
        let u = v.update(j, (v[j].0, w));
        assert forall|i: usize| #[trigger] cold_has(u, i) == cold_has(v, i) by {
            if cold_has(v, i) {
                let k = choose|k: int| 0 <= k < v.len() && v[k].0 == i;
                assert(u[k].0 == i);
            }
            if cold_has(u, i) {
                let k = choose|k: int| 0 <= k < u.len() && u[k].0 == i;
                assert(v[k].0 == i);
            }
        }
        assert forall|a: int, b: int| 0 <= a < u.len() && 0 <= b < u.len() && u[a].0 == u[b].0 implies a == b by {
            assert(v[a].0 == u[a].0 && v[b].0 == u[b].0);
        }
        assert forall|i: usize| #[trigger] cold_has(u, i) implies u[cold_pos(u, i)].1 == (if i == v[j].0 { w } else { v[cold_pos(v, i)].1 }) by {
            let k = cold_pos(u, i);
            lemma_cold_pos(u, k);
            lemma_cold_pos(v, k);
        }
        assert(cold_view(u) =~= cold_view(v).insert(v[j].0, w));
    }
}

impl<T> ComponentList<T> {
    /// The stored components, by slot.
    pub closed spec fn view(&self) -> Map<usize, T> {
        match self.inner {
            InnerComponentList::Hot(v) => hot_view(v@),
            InnerComponentList::Cold(v) => cold_view(v@),
        }
    }

    pub closed spec fn wf(&self) -> bool {
        match self.inner {
            InnerComponentList::Hot(_) => true,
            InnerComponentList::Cold(v) => cold_unique(v@),
        }
    }

    /// An empty storage laid out densely, for components that most entities have.
    pub fn hot() -> (r: ComponentList<T>)
        ensures
            r.wf(),
            r@ == Map::<usize, T>::empty(),
    {
        let r = ComponentList { inner: InnerComponentList::Hot(Vec::new()) };
        assert(r@ =~= Map::<usize, T>::empty());
        r
    }

    /// An empty storage laid out sparsely, for components that few entities have.
    pub fn cold() -> (r: ComponentList<T>)
        ensures
            r.wf(),
            r@ == Map::<usize, T>::empty(),
    {
        let r = ComponentList { inner: InnerComponentList::Cold(Vec::new()) };
        assert(r@ =~= Map::<usize, T>::empty());
        r
    }

    /// The position of slot `index` in a sparse storage.
    fn find(v: &Vec<(usize, T)>, index: usize) -> (r: Option<usize>)
        requires
            cold_unique(v@),
        ensures
            r matches Some(j) ==> j < v@.len() && v@[j as int].0 == index && cold_pos(v@, index) == j,
            r is None ==> !cold_has(v@, index),
    {
        let mut j: usize = 0;
        while j < v.len()
            invariant
                j <= v@.len(),
                cold_unique(v@),
                forall|k: int| 0 <= k < j ==> v@[k].0 != index,
            decreases v@.len() - j,
        {
            if v[j].0 == index {
                proof { lemma_cold_pos(v@, j as int); }
                return Some(j);
            }
            j = j + 1;
        }
        None
    }

    /// Stores `value` in slot `index`, handing back what was there.
    fn put(&mut self, index: usize, value: T) -> (r: Option<T>)
        requires
            old(self).wf(),
        ensures
            final(self).wf(),
            final(self)@ == old(self)@.insert(index, value),
            r == (if old(self)@.contains_key(index) { Some(old(self)@[index]) } else { None::<T> }),
    {
        let ghost before = old(self)@;
        match self.take_inner() {
            InnerComponentList::Hot(mut v) => {
                let ghost v0 = v@;
                while v.len() <= index
                    invariant
                        v@.len() <= index + 1 || v@.len() == v0.len(),
                        v@.len() >= v0.len(),
                        forall|k: int| 0 <= k < v0.len() ==> v@[k] == v0[k],
                        forall|k: int| v0.len() <= k < v@.len() ==> v@[k] is None,
                    decreases index + 1 - v@.len(),
                {
                    v.push(None);
                }
                let ghost v1 = v@;
                let mut slot = Some(value);
                std::mem::swap(&mut slot, vec_slot(&mut v, index));
                self.inner = InnerComponentList::Hot(v);
                proof {
                    assert(v@ == v1.update(index as int, Some(value)));
                    assert(self@ =~= before.insert(index, value));
                }
                slot
            },
            InnerComponentList::Cold(mut v) => {
                match Self::find(&v, index) {
                    Some(j) => {
                        let ghost v0 = v@;
                        let mut entry = (index, value);
                        std::mem::swap(&mut entry, vec_slot(&mut v, j));
                        self.inner = InnerComponentList::Cold(v);
                        proof {
                            assert(v@ == v0.update(j as int, (index, value)));
                            assert forall|i: usize| #[trigger] cold_has(v@, i) == cold_has(v0, i) by {
                                if cold_has(v0, i) {
                                    let k = choose|k: int| 0 <= k < v0.len() && v0[k].0 == i;
                                    assert(v@[k].0 == i);
                                }
                                if cold_has(v@, i) {
                                    let k = choose|k: int| 0 <= k < v@.len() && v@[k].0 == i;
                                    assert(v0[k].0 == i);
                                }
                            }
                            assert forall|a: int, b: int| 0 <= a < v@.len() && 0 <= b < v@.len() && v@[a].0 == v@[b].0 implies a == b by {
                                assert(v0[a].0 == v@[a].0 && v0[b].0 == v@[b].0);
                            }
                            assert forall|i: usize| #[trigger] cold_has(v@, i) implies v@[cold_pos(v@, i)].1 == (if i == index { value } else { v0[cold_pos(v0, i)].1 }) by {
                                let k = cold_pos(v@, i);
                                lemma_cold_pos(v@, k);
                                lemma_cold_pos(v0, k);
                            }
                            assert(self@ =~= before.insert(index, value));
                        }
                        Some(entry.1)
                    },
                    None => {
                        let ghost v0 = v@;
                        v.push((index, value));
                        self.inner = InnerComponentList::Cold(v);
                        proof {
                            assert forall|a: int, b: int| 0 <= a < v@.len() && 0 <= b < v@.len() && v@[a].0 == v@[b].0 implies a == b by {
                                if a < v0.len() && b == v0.len() {
                                    assert(cold_has(v0, index));
                                }
                                if b < v0.len() && a == v0.len() {
                                    assert(cold_has(v0, index));
                                }
                            }
                            assert forall|i: usize| #[trigger] cold_has(v@, i) == (i == index || cold_has(v0, i)) by {
                                if cold_has(v0, i) {
                                    let k = choose|k: int| 0 <= k < v0.len() && v0[k].0 == i;
                                    assert(v@[k].0 == i);
                                }
                                if i == index {
                                    assert(v@[v0.len() as int].0 == i);
                                }
                                if cold_has(v@, i) {
                                    let k = choose|k: int| 0 <= k < v@.len() && v@[k].0 == i;
                                    if k < v0.len() {
                                        assert(v0[k].0 == i);
                                    }
                                }
                            }
                            assert forall|i: usize| #[trigger] cold_has(v@, i) implies v@[cold_pos(v@, i)].1 == (if i == index { value } else { v0[cold_pos(v0, i)].1 }) by {
                                let k = cold_pos(v@, i);
                                lemma_cold_pos(v@, k);
                                if k < v0.len() {
                                    lemma_cold_pos(v0, k);
                                }
                            }
                            assert(self@ =~= before.insert(index, value));
                        }
                        None
                    },
                }
            },
        }
    }

    /// Drops what slot `index` holds, handing it back.
    fn take(&mut self, index: usize) -> (r: Option<T>)
        requires
            old(self).wf(),
        ensures
            final(self).wf(),
            final(self)@ == old(self)@.remove(index),
            r == (if old(self)@.contains_key(index) { Some(old(self)@[index]) } else { None::<T> }),
    {
        let ghost before = old(self)@;
        match self.take_inner() {
            InnerComponentList::Hot(mut v) => {
                if index < v.len() {
                    let ghost v0 = v@;
                    let mut slot = None;
                    std::mem::swap(&mut slot, vec_slot(&mut v, index));
                    self.inner = InnerComponentList::Hot(v);
                    proof {
                        assert(v@ == v0.update(index as int, None));
                        assert(self@ =~= before.remove(index));
                    }
                    slot
                } else {
                    self.inner = InnerComponentList::Hot(v);
                    proof {
                        assert(self@ =~= before.remove(index));
                    }
                    None
                }
            },
            InnerComponentList::Cold(mut v) => {
                match Self::find(&v, index) {
                    Some(j) => {
                        let ghost v0 = v@;
                        let entry = v.swap_remove(j);
                        self.inner = InnerComponentList::Cold(v);
                        proof {
                            let n = v0.len() - 1;
                            // where the pair now at position k stood before
                            let from = |k: int| if k == j { n } else { k };
                            assert forall|k: int| 0 <= k < v@.len() implies #[trigger] v@[k] == v0[from(k)] by {}
                            assert forall|a: int, b: int| 0 <= a < v@.len() && 0 <= b < v@.len() && v@[a].0 == v@[b].0 implies a == b by {
                                assert(v0[from(a)].0 == v0[from(b)].0);
                            }
                            assert forall|i: usize| #[trigger] cold_has(v@, i) == (i != index && cold_has(v0, i)) by {
                                if cold_has(v0, i) && i != index {
                                    let k = choose|k: int| 0 <= k < v0.len() && v0[k].0 == i;
                                    if k == n {
                                        assert(v@[j as int].0 == i);
                                    } else {
                                        assert(k != j);
                                        assert(v@[k].0 == i);
                                    }
                                }
                                if cold_has(v@, i) {
                                    let k = choose|k: int| 0 <= k < v@.len() && v@[k].0 == i;
                                    assert(v0[from(k)].0 == i);
                                    assert(from(k) != j);
                                }
                            }
                            assert forall|i: usize| #[trigger] cold_has(v@, i) implies v@[cold_pos(v@, i)].1 == v0[cold_pos(v0, i)].1 by {
                                let k = cold_pos(v@, i);
                                lemma_cold_pos(v@, k);
                                lemma_cold_pos(v0, from(k));
                            }
                            assert(self@ =~= before.remove(index));
                        }
                        Some(entry.1)
                    },
                    None => {
                        self.inner = InnerComponentList::Cold(v);
                        proof {
                            assert(self@ =~= before.remove(index));
                        }
                        None
                    },
                }
            },
        }
    }

    /// Whether slot `index` holds a component.
    fn holds(&self, index: usize) -> (r: bool)
        requires
            self.wf(),
        ensures
            r == self@.contains_key(index),
    {
        match &self.inner {
            InnerComponentList::Hot(v) => index < v.len() && v[index].is_some(),
            InnerComponentList::Cold(v) => Self::find(v, index).is_some(),
        }
    }

    /// A copy of what slot `index` holds.
    fn fetch(&self, index: usize) -> (r: Option<T>)
        where
            T: Copy,
        requires
            self.wf(),
        ensures
            r == (if self@.contains_key(index) { Some(self@[index]) } else { None::<T> }),
    {
        match &self.inner {
            InnerComponentList::Hot(v) => {
                if index < v.len() {
                    v[index]
                } else {
                    None
                }
            },
            InnerComponentList::Cold(v) => match Self::find(v, index) {
                Some(j) => Some(v[j].1),
                None => None,
            },
        }
    }

    /// A mutable reference to what slot `index` holds.
    fn fetch_mut(&mut self, index: usize) -> (r: Option<&mut T>)
        requires
            old(self).wf(),
        ensures
            final(self).wf(),
            r is Some ==> {
                &&& old(self)@.contains_key(index)
                &&& *r.unwrap() == old(self)@[index]
                &&& final(self)@ == old(self)@.insert(index, *final(r.unwrap()))
            },
            r is None ==> !old(self)@.contains_key(index) && final(self)@ == old(self)@,
    {
        match &mut self.inner {
            InnerComponentList::Hot(v) => {
                if index < v.len() {
                    proof {
                        if v@[index as int] is Some {
                            lemma_hot_write(v@, index);
                        }
                    }
                    vec_slot(v, index).as_mut()
                } else {
                    None
                }
            },
            InnerComponentList::Cold(v) => match Self::find(v, index) {
                Some(j) => {
                    proof {
                        lemma_cold_write(v@, j as int);
                    }
                    Some(&mut vec_slot(v, j).1)
                },
                None => None,
            },
        }
    }

    /// Stores the component of an entity being built, handing back what its slot held.
    pub fn add(&mut self, entity: &BuildData, component: T) -> (r: Option<T>)
        requires
            old(self).wf(),
        ensures
            final(self).wf(),
            final(self)@ == old(self)@.insert(entity.target().slot(), component),
            r == old(self)@.get(entity.target().slot()),
    {
        self.put(entity.entity().index(), component)
    }

    /// Stores the component of an entity being modified, handing back the one it replaces.
    pub fn insert(&mut self, entity: &ModifyData, component: T) -> (r: Option<T>)
        requires
            old(self).wf(),
        ensures
            final(self).wf(),
            final(self)@ == old(self)@.insert(entity.edited().slot(), component),
            r == old(self)@.get(entity.edited().slot()),
    {
        self.put(entity.entity().index(), component)
    }

    /// Removes the component of an entity being modified, handing it back.
    pub fn remove(&mut self, entity: &ModifyData) -> (r: Option<T>)
        requires
            old(self).wf(),
        ensures
            final(self).wf(),
            final(self)@ == old(self)@.remove(entity.edited().slot()),
            r == old(self)@.get(entity.edited().slot()),
    {
        self.take(entity.entity().index())
    }

    /// Stores the component of a live entity, handing back the one it replaces.
    pub fn set<U: EditData>(&mut self, entity: &U, component: T) -> (r: Option<T>)
        requires
            old(self).wf(),
        ensures
            final(self).wf(),
            final(self)@ == old(self)@.insert(entity.edited().slot(), component),
            r == old(self)@.get(entity.edited().slot()),
    {
        self.put(entity.entity().index(), component)
    }

    /// A copy of the entity's component, if it has one.
    pub fn get<U: EditData>(&self, entity: &U) -> (r: Option<T>)
        where
            T: Copy,
        requires
            self.wf(),
        ensures
            r == self@.get(entity.edited().slot()),
    {
        self.fetch(entity.entity().index())
    }

    /// Whether the entity has a component here.
    pub fn has<U: EditData>(&self, entity: &U) -> (r: bool)
        requires
            self.wf(),
        ensures
            r == self@.contains_key(entity.edited().slot()),
    {
        self.holds(entity.entity().index())
    }

    /// Whether slot `index` holds a component.
    pub fn contains_slot(&self, index: usize) -> (r: bool)
        requires
            self.wf(),
        ensures
            r == self@.contains_key(index),
    {
        self.holds(index)
    }

    /// A mutable reference to the entity's component, if it has one.
    pub fn borrow<U: EditData>(&mut self, entity: &U) -> (r: Option<&mut T>)
        requires
            old(self).wf(),
        ensures
            final(self).wf(),
            r is Some ==> {
                &&& old(self)@.contains_key(entity.edited().slot())
                &&& *r.unwrap() == old(self)@[entity.edited().slot()]
                &&& final(self)@ == old(self)@.insert(entity.edited().slot(), *final(r.unwrap()))
            },
            r is None ==> !old(self)@.contains_key(entity.edited().slot()) && final(self)@ == old(self)@,
    {
        self.fetch_mut(entity.entity().index())
    }

    /// The component of an entity known to have one.
    pub fn index<U: EditData>(&self, entity: &U) -> (r: &T)
        requires
            self.wf(),
            self@.contains_key(entity.edited().slot()),
        ensures
            *r == self@[entity.edited().slot()],
    {
        let index = entity.entity().index();
        match &self.inner {
            InnerComponentList::Hot(v) => v[index].as_ref().unwrap(),
            InnerComponentList::Cold(v) => {
                let j = Self::find(v, index).unwrap();
                &v[j].1
            },
        }
    }

    /// A mutable reference to the component of an entity known to have one.
    pub fn index_mut<U: EditData>(&mut self, entity: &U) -> (r: &mut T)
        requires
            old(self).wf(),
            old(self)@.contains_key(entity.edited().slot()),
        ensures
            final(self).wf(),
            *r == old(self)@[entity.edited().slot()],
            final(self)@ == old(self)@.insert(entity.edited().slot(), *final(r)),
    {
        self.fetch_mut(entity.entity().index()).unwrap()
    }

    /// Drops whatever the entity's slot holds; used when the entity is removed, so that a later
    /// occupant of the slot does not find it.
    pub fn clear(&mut self, entity: &IndexedEntity)
        requires
            old(self).wf(),
        ensures
            final(self).wf(),
            final(self)@ == old(self)@.remove(entity.slot()),
    {
        self.take(entity.index());
    }

    /// Moves the storage out, leaving an empty dense one behind.
    fn take_inner(&mut self) -> (r: InnerComponentList<T>)
        ensures
            r == old(self).inner,
    {
        let mut inner = InnerComponentList::Hot(Vec::new());
        std::mem::swap(&mut self.inner, &mut inner);
        inner
    }
}

/// A mutable reference to the `i`-th element.
pub(crate) fn vec_slot<A>(v: &mut Vec<A>, i: usize) -> (r: &mut A)
    requires
        i < old(v)@.len(),
    ensures
        *r == old(v)@[i as int],
        final(v)@ == old(v)@.update(i as int, *final(r)),
{
    &mut v[i]
}

} // verus!

verus! {

/// Reading back a component just stored gives it; storing another one in its place replaces it.
pub proof fn lemma_round_trip<T>(
    before: ComponentList<T>,
    slot: usize,
    v: T,
    mid: ComponentList<T>,
    v2: T,
    after: ComponentList<T>,
)
    requires
        mid@ == before@.insert(slot, v),
        after@ == mid@.insert(slot, v2),
    ensures
        mid@.get(slot) == Some(v),
        after@.get(slot) == Some(v2),
        after@.remove(slot) == before@.remove(slot),
{
    assert(after@.remove(slot) =~= before@.remove(slot));
}

/// Fills in the components of a new entity.
pub trait EntityBuilder<C> {
    /// What building `entity` does to the storages, from `before` to `after`. A builder that
    /// does not state it promises nothing.
    open spec fn effect(&self, entity: Entity, before: C, after: C) -> bool {
        true
    }

    fn build(&mut self, entity: BuildData, components: &mut C)
        ensures
            old(self).effect(entity.target().spec_entity(), *old(components), *final(components)),
    ;
}

impl<C> EntityBuilder<C> for () {
    open spec fn effect(&self, entity: Entity, before: C, after: C) -> bool {
        after == before
    }

    fn build(&mut self, entity: BuildData, components: &mut C) {
    }
}

/// Changes the components of a live entity.
pub trait EntityModifier<C> {
    /// What modifying `entity` does to the storages, from `before` to `after`. A modifier that
    /// does not state it promises nothing.
    open spec fn effect(&self, entity: Entity, before: C, after: C) -> bool {
        true
    }

    fn modify(&mut self, entity: ModifyData, components: &mut C)
        ensures
            old(self).effect(entity.target().spec_entity(), *old(components), *final(components)),
    ;
}

impl<C> EntityModifier<C> for () {
    open spec fn effect(&self, entity: Entity, before: C, after: C) -> bool {
        after == before
    }

    fn modify(&mut self, entity: ModifyData, components: &mut C) {
    }
}

} // verus!
