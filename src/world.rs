//! The world: entities, their components, the systems, and the queue of pending changes.

use vstd::prelude::*;

use crate::component::{EntityBuilder, EntityModifier};
use crate::entity::{Entity, EntityIter, EntityManager, IndexedEntity};
use crate::system::Lifecycle;
use crate::{BuildData, EntityData, ModifyData};

verus! {

/// Identifies a component type within a component manager.
pub type ComponentId = usize;

/// Holds one storage per component type.
pub trait ComponentManager: Sized {
    /// Whether the entity in slot `index` has a component of type `ty`.
    spec fn holds(&self, ty: ComponentId, index: usize) -> bool;

    fn new() -> Self;

    /// Whether the entity has a component of type `ty`.
    fn has(&self, ty: ComponentId, entity: &EntityData) -> (r: bool)
        ensures
            r == self.holds(ty, entity.target().slot()),
    ;

    /// Drops every component of the entity's slot.
    fn remove_all(&mut self, entity: &IndexedEntity)
        ensures
            forall|t: ComponentId, i: usize| #[trigger] final(self).holds(t, i) == (i != entity.slot() && old(self).holds(t, i)),
    ;
}

/// The component types that the entity in slot `index` has.
pub open spec fn signature<C: ComponentManager>(components: &C, index: usize) -> Set<ComponentId> {
    Set::new(|t: ComponentId| components.holds(t, index))
}

/// Membership in a signature is `holds`.
pub broadcast proof fn lemma_signature<C: ComponentManager>(components: &C, index: usize, t: ComponentId)
    ensures
        #[trigger] signature(components, index).contains(t) == components.holds(t, index),
{
}

impl ComponentManager for () {
    open spec fn holds(&self, ty: ComponentId, index: usize) -> bool {
        false
    }

    fn new() -> Self {
    }

    fn has(&self, ty: ComponentId, entity: &EntityData) -> (r: bool) {
        false
    }

    fn remove_all(&mut self, entity: &IndexedEntity) {
    }
}

/// Holds the resources that systems share, other than components.
pub trait ServiceManager: Sized {
    fn new() -> Self;
}

impl ServiceManager for () {
    fn new() -> Self {
    }
}

/// The systems of a world, told of every entity whose components may have changed.
pub trait SystemManager: Sized {
    type Components: ComponentManager;
    type Services: ServiceManager;

    /// Every event the systems were told of, oldest first. A verified manager states it: the
    /// default, which never grows, cannot meet the contracts below.
    open spec fn heard(&self) -> Seq<Heard> {
        Seq::empty()
    }

    fn new() -> Self;

    /// An entity was built.
    fn activated(&mut self, entity: EntityData, components: &Self::Components)
        ensures
            final(self).heard() == old(self).heard().push((Lifecycle::Activation, entity.target().spec_entity(), signature(components, entity.target().slot()))),
    ;

    /// A live entity was modified.
    fn reactivated(&mut self, entity: EntityData, components: &Self::Components)
        ensures
            final(self).heard() == old(self).heard().push((Lifecycle::Reactivation, entity.target().spec_entity(), signature(components, entity.target().slot()))),
    ;

    /// An entity is about to be removed.
    fn deactivated(&mut self, entity: EntityData, components: &Self::Components)
        ensures
            final(self).heard() == old(self).heard().push((Lifecycle::Removal, entity.target().spec_entity(), signature(components, entity.target().slot()))),
    ;

    /// Runs the systems that are active. They reach the data only through its public methods,
    /// which create entities and queue requests but remove nothing.
    fn update(&mut self, data: &mut DataHelper<Self::Components, Self::Services>)
        ensures
            final(self).heard() == old(self).heard(),
            DataHelper::extends(*old(data), *final(data)),
    ;
}

/// What the systems hear of an event: its kind, the entity, and the component types the entity
/// has as they are told.
pub type Heard = (Lifecycle, Entity, Set<ComponentId>);

/// The events that announce the live entities among `es`, in order, with their component types in
/// `components`.
pub open spec fn announce<C: ComponentManager>(es: Seq<Entity>, live: Set<Entity>, event: Lifecycle, components: C) -> Seq<Heard>
    decreases es.len(),
{
    if es.len() == 0 {
        Seq::empty()
    } else {
        announce(es.drop_last(), live, event, components) + if live.contains(es.last()) {
            seq![(event, es.last(), signature(&components, es.last().slot()))]
        } else {
            Seq::empty()
        }
    }
}

/// The removal events for `rs`, in order: one for each live entity, at its first request, with
/// the component types it has in `components`, before any is dropped.
pub open spec fn removals<C: ComponentManager>(rs: Seq<Entity>, live: Set<Entity>, components: C) -> Seq<Heard>
    decreases rs.len(),
{
    if rs.len() == 0 {
        Seq::empty()
    } else {
        removals(rs.drop_last(), live, components) + if live.contains(rs.last()) && !rs.drop_last().contains(rs.last()) {
            seq![(Lifecycle::Removal, rs.last(), signature(&components, rs.last().slot()))]
        } else {
            Seq::empty()
        }
    }
}

/// Why a request on an entity was refused.
#[derive(Copy, Clone, Debug, PartialEq, Eq, Structural)]
pub enum EcsError {
    /// The entity is not live: it was removed, or never created here.
    InvalidEntity(Entity),
}

/// The data of a world: components, services, entities, and the requests not applied yet.
pub struct DataHelper<C: ComponentManager, M: ServiceManager> {
    pub components: C,
    pub services: M,
    entities: EntityManager,
    builds: Vec<Entity>,
    modifies: Vec<Entity>,
    removes: Vec<Entity>,
}

impl<C: ComponentManager, M: ServiceManager> DataHelper<C, M> {
    pub closed spec fn manager(&self) -> EntityManager {
        self.entities
    }

    /// The component storages.
    pub closed spec fn stored(&self) -> C {
        self.components
    }

    /// The live entities.
    pub open spec fn live(&self) -> Set<Entity> {
        self.manager().live()
    }

    /// Entities built and not yet announced to the systems, oldest first.
    pub closed spec fn pending_builds(&self) -> Seq<Entity> {
        self.builds@
    }

    /// Entities modified and not yet announced to the systems, oldest first.
    pub closed spec fn pending_modifies(&self) -> Seq<Entity> {
        self.modifies@
    }

    /// Entities whose removal is requested and not yet applied, oldest first.
    pub closed spec fn pending_removes(&self) -> Seq<Entity> {
        self.removes@
    }

    /// Whether no request waits.
    pub open spec fn settled(&self) -> bool {
        &&& self.pending_builds().len() == 0
        &&& self.pending_modifies().len() == 0
        &&& self.pending_removes().len() == 0
    }

    /// `after` is `before` with every waiting request applied: the entities whose removal was
    /// requested are gone, with every component of their slots, and nothing else changed.
    pub open spec fn flushes(before: Self, after: Self) -> bool {
        &&& after.settled()
        &&& after.live() == before.live().difference(before.pending_removes().to_set())
        &&& after.manager().last_id() == before.manager().last_id()
        &&& after.manager().next_slot() == before.manager().next_slot()
        &&& after.manager().free_list() == before.manager().free_list() + before.freed_slots()
        &&& forall|t: ComponentId, i: usize| #[trigger] after.stored().holds(t, i) == (
            before.stored().holds(t, i) && !Self::purged(before, i))
    }

    /// `after` follows from `before` by creating entities and queueing requests: nothing live
    /// was removed, and every queue only grew at its end.
    pub open spec fn extends(before: Self, after: Self) -> bool {
        &&& before.live().subset_of(after.live())
        &&& before.pending_builds().is_prefix_of(after.pending_builds())
        &&& before.pending_modifies().is_prefix_of(after.pending_modifies())
        &&& before.pending_removes().is_prefix_of(after.pending_removes())
    }

    /// Creating entities and queueing requests, step after step, is still that.
    pub proof fn lemma_extends_trans(a: Self, b: Self, c: Self)
        requires
            DataHelper::extends(a, b),
            DataHelper::extends(b, c),
        ensures
            DataHelper::extends(a, c),
    {
        assert(a.pending_builds() =~= c.pending_builds().subrange(0, a.pending_builds().len() as int));
        assert(a.pending_modifies() =~= c.pending_modifies().subrange(0, a.pending_modifies().len() as int));
        assert(a.pending_removes() =~= c.pending_removes().subrange(0, a.pending_removes().len() as int));
    }

    /// The slots that applying the waiting removals releases, in order.
    pub open spec fn freed_slots(self) -> Seq<usize> {
        removals(self.pending_removes(), self.live(), self.stored()).map_values(|p: Heard| p.1.slot())
    }

    /// What the systems are told when the waiting requests are applied.
    pub open spec fn notices(self) -> Seq<Heard> {
        announce(self.pending_builds(), self.live(), Lifecycle::Activation, self.stored())
            + announce(self.pending_modifies(), self.live(), Lifecycle::Reactivation, self.stored())
            + removals(self.pending_removes(), self.live(), self.stored())
    }

    /// Whether slot `i` belongs to an entity that is live and whose removal is requested.
    pub open spec fn purged(before: Self, i: usize) -> bool {
        exists|e: Entity| #[trigger] before.pending_removes().contains(e) && before.live().contains(e) && e.slot() == i
    }

    pub fn new() -> (r: Self)
        ensures
            r.live() == Set::<Entity>::empty(),
            r.manager().last_id() == 0,
            r.manager().free_list() == Seq::<usize>::empty(),
            r.manager().next_slot() == 0,
            r.settled(),
    {
        DataHelper {
            components: C::new(),
            services: M::new(),
            entities: EntityManager::new(),
            builds: Vec::new(),
            modifies: Vec::new(),
            removes: Vec::new(),
        }
    }

    /// Whether the entity is live.
    pub fn is_valid(&self, entity: &Entity) -> (r: bool)
        ensures
            r == self.live().contains(*entity),
    {
        self.entities.is_valid(entity)
    }

    /// Access to the entity's components, if it is live.
    pub fn entity_data(&self, entity: &Entity) -> (r: Option<EntityData>)
        ensures
            r is Some <==> self.live().contains(*entity),
            r matches Some(d) ==> d.target().spec_entity() == *entity,
    {
        if self.entities.is_valid(entity) {
            Some(EntityData::new(self.entities.indexed(entity)))
        } else {
            None
        }
    }

    /// The live entities, in slot order.
    pub fn entities(&self) -> (r: EntityIter)
        ensures
            r.wf(),
            r.handles().to_set() == self.live(),
            r.handles().no_duplicates(),
            r.handles().len() == self.live().len(),
    {
        self.entities.iter()
    }

    /// Creates an entity and runs the builder on it at once; the systems hear of it when the
    /// requests are next applied.
    pub fn create_entity<B: EntityBuilder<C>>(&mut self, builder: B) -> (r: Entity)
        requires
            old(self).manager().can_create(),
        ensures
            EntityManager::creates(old(self).manager(), final(self).manager(), r),
            builder.effect(r, old(self).stored(), final(self).stored()),
            final(self).pending_builds() == old(self).pending_builds().push(r),
            final(self).pending_modifies() == old(self).pending_modifies(),
            final(self).pending_removes() == old(self).pending_removes(),
    {
        let mut builder = builder;
        let entity = self.entities.create();
        builder.build(BuildData::new(self.entities.indexed(&entity)), &mut self.components);
        self.builds.push(entity);
        entity
    }

    /// Runs the modifier on a live entity at once; the systems hear of it when the requests are
    /// next applied, so that a pass in progress does not see its set of entities change. An
    /// entity that is not live is refused.
    pub fn modify_entity<Mo: EntityModifier<C>>(&mut self, entity: Entity, modifier: Mo) -> (r: Result<(), EcsError>)
        ensures
            r is Err <==> !old(self).live().contains(entity),
            r == Err::<(), EcsError>(EcsError::InvalidEntity(entity)) || r is Ok,
            r is Err ==> *final(self) == *old(self),
            final(self).manager() == old(self).manager(),
            final(self).pending_builds() == old(self).pending_builds(),
            r is Ok ==> modifier.effect(entity, old(self).stored(), final(self).stored()),
            r is Ok ==> final(self).pending_modifies() == old(self).pending_modifies().push(entity),
            final(self).pending_removes() == old(self).pending_removes(),
    {
        if !self.entities.is_valid(&entity) {
            return Err(EcsError::InvalidEntity(entity));
        }
        let mut modifier = modifier;
        modifier.modify(ModifyData::new(self.entities.indexed(&entity)), &mut self.components);
        self.modifies.push(entity);
        Ok(())
    }

    /// Asks for a live entity to be removed when the requests are next applied. An entity that
    /// is not live is refused.
    pub fn remove_entity(&mut self, entity: Entity) -> (r: Result<(), EcsError>)
        ensures
            r is Err <==> !old(self).live().contains(entity),
            r == Err::<(), EcsError>(EcsError::InvalidEntity(entity)) || r is Ok,
            r is Err ==> *final(self) == *old(self),
            final(self).manager() == old(self).manager(),
            final(self).pending_builds() == old(self).pending_builds(),
            final(self).pending_modifies() == old(self).pending_modifies(),
            final(self).stored() == old(self).stored(),
            r is Ok ==> final(self).pending_removes() == old(self).pending_removes().push(entity),
    {
        if !self.entities.is_valid(&entity) {
            return Err(EcsError::InvalidEntity(entity));
        }
        self.removes.push(entity);
        Ok(())
    }
}

/// Whether one of `es` sits in slot `i`.
spec fn taken(es: Set<Entity>, i: usize) -> bool {
    exists|e: Entity| #[trigger] es.contains(e) && e.slot() == i
}

/// Entities, their components, and the systems that run on them.
pub struct World<S: SystemManager> {
    pub systems: S,
    pub data: DataHelper<S::Components, S::Services>,
}

impl<S: SystemManager> World<S> {
    pub fn new() -> (r: World<S>)
        ensures
            r.data.live() == Set::<Entity>::empty(),
            r.data.manager().last_id() == 0,
            r.data.manager().free_list() == Seq::<usize>::empty(),
            r.data.manager().next_slot() == 0,
            r.data.settled(),
    {
        World { systems: S::new(), data: DataHelper::new() }
    }

    /// The live entities, in slot order.
    pub fn entities(&self) -> (r: EntityIter)
        ensures
            r.wf(),
            r.handles().to_set() == self.data.live(),
            r.handles().no_duplicates(),
            r.handles().len() == self.data.live().len(),
    {
        self.data.entities()
    }

    /// Runs the modifier on a live entity at once; the systems hear of it when the requests are
    /// next applied. An entity that is not live is refused.
    pub fn modify_entity<Mo: EntityModifier<S::Components>>(&mut self, entity: Entity, modifier: Mo) -> (r: Result<(), EcsError>)
        ensures
            r is Err <==> !old(self).data.live().contains(entity),
            r == Err::<(), EcsError>(EcsError::InvalidEntity(entity)) || r is Ok,
            r is Err ==> *final(self) == *old(self),
            final(self).systems == old(self).systems,
            final(self).data.manager() == old(self).data.manager(),
            final(self).data.pending_builds() == old(self).data.pending_builds(),
            final(self).data.pending_removes() == old(self).data.pending_removes(),
            r is Ok ==> modifier.effect(entity, old(self).data.stored(), final(self).data.stored()),
            r is Ok ==> final(self).data.pending_modifies() == old(self).data.pending_modifies().push(entity),
    {
        self.data.modify_entity(entity, modifier)
    }

    /// Runs the active systems, then applies the requests: builds, then modifications, then
    /// removals, each in the order asked, telling the systems of each.
    pub fn update(&mut self)
        ensures
            final(self).data.settled(),
            forall|e: Entity| #[trigger] old(self).data.pending_removes().contains(e) && old(self).data.live().contains(e)
                ==> !final(self).data.live().contains(e),
            exists|mid: DataHelper<S::Components, S::Services>| {
                &&& #[trigger] DataHelper::extends(old(self).data, mid)
                &&& DataHelper::flushes(mid, final(self).data)
                &&& final(self).systems.heard() == old(self).systems.heard() + mid.notices()
            },
    {
        self.systems.update(&mut self.data);
        let ghost mid = self.data;
        self.flush_queue();
        proof {
            assert forall|e: Entity| #[trigger] old(self).data.pending_removes().contains(e) && old(self).data.live().contains(e)
                implies !self.data.live().contains(e) by {
                let rs0 = old(self).data.pending_removes();
                let j = choose|j: int| 0 <= j < rs0.len() && rs0[j] == e;
                assert(mid.pending_removes()[j] == e);
                assert(mid.pending_removes().to_set().contains(e));
            }
        }
    }

    /// Applies the waiting requests: builds, then modifications, then removals, each in the order
    /// asked. The systems are told of each build and modification of a live entity, and of the
    /// removal of each live entity, before its components are dropped and its slot released.
    pub fn flush_queue(&mut self)
        ensures
            DataHelper::flushes(old(self).data, final(self).data),
            final(self).systems.heard() == old(self).systems.heard() + old(self).data.notices(),
    {
        let ghost before = self.data;
        let ghost h0 = self.systems.heard();
        let ghost live0 = before.live();
        let ghost comps0 = before.components;
        proof {
            use_type_invariant(&self.data.entities);
            self.data.entities.lemma_live_slots();
        }
        let mut builds: Vec<Entity> = Vec::new();
        std::mem::swap(&mut builds, &mut self.data.builds);
        let mut k: usize = 0;
        while k < builds.len()
            invariant
                k <= builds@.len(),
                builds@ == before.builds@,
                live0 == before.live(),
                comps0 == before.components,
                self.data.entities == before.entities,
                self.data.components == before.components,
                self.data.builds@.len() == 0,
                self.data.modifies == before.modifies,
                self.data.removes == before.removes,
                self.systems.heard() == h0 + announce(builds@.subrange(0, k as int), live0, Lifecycle::Activation, comps0),
            decreases builds@.len() - k,
        {
            let entity = builds[k];
            proof {
                assert(builds@.subrange(0, k + 1).drop_last() =~= builds@.subrange(0, k as int));
            }
            if self.data.entities.is_valid(&entity) {
                let d = EntityData::new(self.data.entities.indexed(&entity));
                self.systems.activated(d, &self.data.components);
            }
            proof {
                let h = h0 + announce(builds@.subrange(0, k as int), live0, Lifecycle::Activation, comps0);
                if live0.contains(entity) {
                    assert(h.push((Lifecycle::Activation, entity, signature(&comps0, entity.slot())))
                        =~= h + seq![(Lifecycle::Activation, entity, signature(&comps0, entity.slot()))]);
                } else {
                    assert(h =~= h + Seq::<Heard>::empty());
                }
                assert(h0 + announce(builds@.subrange(0, k + 1), live0, Lifecycle::Activation, comps0)
                    =~= h + announce(builds@.subrange(0, k + 1), live0, Lifecycle::Activation, comps0).subrange(
                        announce(builds@.subrange(0, k as int), live0, Lifecycle::Activation, comps0).len() as int,
                        announce(builds@.subrange(0, k + 1), live0, Lifecycle::Activation, comps0).len() as int));
            }
            k = k + 1;
        }
        proof {
            assert(builds@.subrange(0, builds@.len() as int) =~= builds@);
        }
        let ghost h1 = self.systems.heard();
        let mut modifies: Vec<Entity> = Vec::new();
        std::mem::swap(&mut modifies, &mut self.data.modifies);
        let mut k: usize = 0;
        while k < modifies.len()
            invariant
                k <= modifies@.len(),
                modifies@ == before.modifies@,
                live0 == before.live(),
                comps0 == before.components,
                self.data.entities == before.entities,
                self.data.components == before.components,
                self.data.builds@.len() == 0,
                self.data.modifies@.len() == 0,
                self.data.removes == before.removes,
                self.systems.heard() == h1 + announce(modifies@.subrange(0, k as int), live0, Lifecycle::Reactivation, comps0),
            decreases modifies@.len() - k,
        {
            let entity = modifies[k];
            proof {
                assert(modifies@.subrange(0, k + 1).drop_last() =~= modifies@.subrange(0, k as int));
            }
            if self.data.entities.is_valid(&entity) {
                let d = EntityData::new(self.data.entities.indexed(&entity));
                self.systems.reactivated(d, &self.data.components);
            }
            proof {
                let h = h1 + announce(modifies@.subrange(0, k as int), live0, Lifecycle::Reactivation, comps0);
                if live0.contains(entity) {
                    assert(h.push((Lifecycle::Reactivation, entity, signature(&comps0, entity.slot())))
                        =~= h + seq![(Lifecycle::Reactivation, entity, signature(&comps0, entity.slot()))]);
                } else {
                    assert(h =~= h + Seq::<Heard>::empty());
                }
                assert(h1 + announce(modifies@.subrange(0, k + 1), live0, Lifecycle::Reactivation, comps0)
                    =~= h + announce(modifies@.subrange(0, k + 1), live0, Lifecycle::Reactivation, comps0).subrange(
                        announce(modifies@.subrange(0, k as int), live0, Lifecycle::Reactivation, comps0).len() as int,
                        announce(modifies@.subrange(0, k + 1), live0, Lifecycle::Reactivation, comps0).len() as int));
            }
            k = k + 1;
        }
        proof {
            assert(modifies@.subrange(0, modifies@.len() as int) =~= modifies@);
        }
        let ghost h2 = self.systems.heard();
        let mut removes: Vec<Entity> = Vec::new();
        std::mem::swap(&mut removes, &mut self.data.removes);
        let ghost mut gone: Set<Entity> = Set::empty();
        let mut k: usize = 0;
        while k < removes.len()
            invariant
                k <= removes@.len(),
                removes@ == before.removes@,
                live0 == before.live(),
                comps0 == before.components,
                self.data.builds@.len() == 0,
                self.data.modifies@.len() == 0,
                self.data.removes@.len() == 0,
                self.data.entities.last_id() == before.entities.last_id(),
                self.data.entities.next_slot() == before.entities.next_slot(),
                self.data.entities.free_list() == before.entities.free_list()
                    + removals(removes@.subrange(0, k as int), live0, comps0).map_values(|p: Heard| p.1.slot()),
                self.data.live() == live0.difference(gone),
                forall|a: Entity, b: Entity| #[trigger] live0.contains(a) && #[trigger] live0.contains(b) && a.slot() == b.slot() ==> a == b,
                forall|e: Entity| #[trigger] gone.contains(e) <==> (live0.contains(e) && removes@.subrange(0, k as int).contains(e)),
                forall|t: ComponentId, i: usize| #[trigger] self.data.components.holds(t, i) == (
                    before.components.holds(t, i) && !taken(gone, i)),
                self.systems.heard() == h2 + removals(removes@.subrange(0, k as int), live0, comps0),
            decreases removes@.len() - k,
        {
            let entity = removes[k];
            let ghost pre = removes@.subrange(0, k as int);
            proof {
                assert(removes@.subrange(0, k + 1).drop_last() =~= pre);
                assert forall|e: Entity| #[trigger] removes@.subrange(0, k + 1).contains(e) <==> (pre.contains(e) || e == entity) by {
                    if pre.contains(e) {
                        let j = choose|j: int| 0 <= j < pre.len() && pre[j] == e;
                        assert(removes@.subrange(0, k + 1)[j] == e);
                    }
                    if e == entity {
                        assert(removes@.subrange(0, k + 1)[k as int] == e);
                    }
                    if removes@.subrange(0, k + 1).contains(e) && e != entity {
                        let sub = removes@.subrange(0, k + 1);
                        let j = choose|j: int| 0 <= j < sub.len() && sub[j] == e;
                        assert(pre[j] == e);
                    }
                }
            }
            if self.data.entities.is_valid(&entity) {
                let indexed = self.data.entities.indexed(&entity);
                proof {
                    assert(!taken(gone, entity.slot())) by {
                        if taken(gone, entity.slot()) {
                            let g = choose|g: Entity| #[trigger] gone.contains(g) && g.slot() == entity.slot();
                            assert(live0.contains(g) && live0.contains(entity));
                        }
                    }
                    assert(signature(&self.data.components, entity.slot()) =~= signature(&comps0, entity.slot()));
                }
                self.systems.deactivated(EntityData::new(indexed), &self.data.components);
                self.data.components.remove_all(&indexed);
                self.data.entities.remove(&entity);
                proof {
                    let g0 = gone;
                    gone = gone.insert(entity);
                    assert(self.data.live() =~= live0.difference(gone));
                    assert forall|i: usize| #[trigger] taken(gone, i) == (i == entity.slot() || taken(g0, i)) by {
                        if i == entity.slot() {
                            assert(gone.contains(entity));
                        }
                        if taken(g0, i) {
                            let e = choose|e: Entity| #[trigger] g0.contains(e) && e.slot() == i;
                            assert(gone.contains(e));
                        }
                    }
                    let h = h2 + removals(pre, live0, comps0);
                    assert(h.push((Lifecycle::Removal, entity, signature(&comps0, entity.slot())))
                        =~= h + seq![(Lifecycle::Removal, entity, signature(&comps0, entity.slot()))]);
                }
            } else {
                proof {
                    let h = h2 + removals(pre, live0, comps0);
                    assert(h =~= h + Seq::<Heard>::empty());
                }
            }
            proof {
                let f = |p: Heard| p.1.slot();
                let rp = removals(pre, live0, comps0);
                let rn = removals(removes@.subrange(0, k + 1), live0, comps0);
                assert(rn.map_values(f) =~= rp.map_values(f) + rn.subrange(rp.len() as int, rn.len() as int).map_values(f));
                let h = h2 + removals(pre, live0, comps0);
                assert(h2 + removals(removes@.subrange(0, k + 1), live0, comps0)
                    =~= h + removals(removes@.subrange(0, k + 1), live0, comps0).subrange(
                        removals(pre, live0, comps0).len() as int,
                        removals(removes@.subrange(0, k + 1), live0, comps0).len() as int));
            }
            k = k + 1;
        }
        proof {
            let rs = before.removes@;
            assert(rs.subrange(0, rs.len() as int) =~= rs);
            assert(self.data.live() =~= before.live().difference(rs.to_set()));
            assert forall|t: ComponentId, i: usize| #[trigger] self.data.components.holds(t, i) == (
                before.components.holds(t, i) && !DataHelper::purged(before, i)) by {
                if taken(gone, i) {
                    let e = choose|e: Entity| #[trigger] gone.contains(e) && e.slot() == i;
                    assert(before.pending_removes().contains(e));
                }
                if DataHelper::purged(before, i) {
                    let e = choose|e: Entity| #[trigger] before.pending_removes().contains(e) && before.live().contains(e) && e.slot() == i;
                    assert(gone.contains(e));
                }
            }
            assert(self.systems.heard() =~= h0 + before.notices());
        }
    }
}

/// A removal requested in a cycle wins over the builds and modifications of the same cycle: once
/// the requests are applied the entity is gone, and its slot holds no component.
pub proof fn lemma_removal_wins<C: ComponentManager, M: ServiceManager>(before: DataHelper<C, M>, after: DataHelper<C, M>, e: Entity)
    requires
        DataHelper::flushes(before, after),
        before.live().contains(e),
        before.pending_removes().contains(e),
    ensures
        !after.live().contains(e),
        signature(&after.stored(), e.slot()) == Set::<ComponentId>::empty(),
{
    assert(DataHelper::purged(before, e.slot()));
    assert(signature(&after.stored(), e.slot()) =~= Set::<ComponentId>::empty());
}

/// An entity created right after the removal of another is put in its slot, and starts with
/// only what its builder adds: a component type that the builder never adds is absent, whatever
/// the removed entity had.
pub proof fn lemma_purge_on_reuse<C: ComponentManager, M: ServiceManager, B: EntityBuilder<C>>(
    before: DataHelper<C, M>,
    after: DataHelper<C, M>,
    a: Entity,
    built: DataHelper<C, M>,
    builder: B,
    b: Entity,
    x: ComponentId,
)
    requires
        before.manager().wf(),
        DataHelper::flushes(before, after),
        before.live().contains(a),
        before.pending_removes() == seq![a],
        EntityManager::creates(after.manager(), built.manager(), b),
        builder.effect(b, after.stored(), built.stored()),
        forall|c0: C, c1: C| #[trigger] builder.effect(b, c0, c1) && c1.holds(x, b.slot()) ==> c0.holds(x, b.slot()),
    ensures
        b.slot() == a.slot(),
        b != a,
        !built.live().contains(a),
        !built.stored().holds(x, b.slot()),
{
    lemma_removal_wins(before, after, a);
    before.manager().lemma_live_ids();
    let rs = before.pending_removes();
    assert(rs.drop_last() =~= Seq::<Entity>::empty());
    assert(rs.last() == a);
    assert(removals(rs.drop_last(), before.live(), before.stored()) =~= Seq::<Heard>::empty());
    assert(!rs.drop_last().contains(a));
    assert(removals(rs, before.live(), before.stored()) =~= seq![(Lifecycle::Removal, a, signature(&before.stored(), a.slot()))]);
    assert(before.freed_slots() =~= seq![a.slot()]);
    assert(!after.stored().holds(x, a.slot())) by {
        assert(DataHelper::purged(before, a.slot())) by {
            assert(rs.contains(a)) by { assert(rs[0] == a); }
        }
    }
}

} // verus!
