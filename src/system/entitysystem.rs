//! Systems that follow the entities matching an aspect and are run only on demand.

use vstd::prelude::*;

use crate::aspect::Aspect;
use crate::entity::{Entity, EntityIter};
use crate::system::{follows, notice_for, received, track, Inbox, InterestSet, Ledger, Lifecycle, Notice, System};
use crate::world::{signature, DataHelper};
use crate::EntityData;

verus! {

/// The work of a passive entity system: one pass over the entities it follows, reading the data.
pub trait PassiveEntityProcess: System {
    fn process(&mut self, entities: EntityIter, data: &DataHelper<Self::Components, Self::Services>, ledger: &mut Ledger)
        ensures
            final(ledger).log() == old(ledger).log().push(entities.handles()),
    ;
}

/// Follows the entities that match an aspect; runs the inner system over them when asked, never
/// at an update.
pub struct PassiveEntitySystem<T: PassiveEntityProcess> {
    interested: InterestSet,
    aspect: Aspect,
    pub inner: T,
    inbox: Inbox,
    passes: Ledger,
}

impl<T: PassiveEntityProcess> PassiveEntitySystem<T> {
    pub closed spec fn interest(&self) -> InterestSet {
        self.interested
    }

    pub closed spec fn spec_inner(&self) -> T {
        self.inner
    }

    /// The passes the inner system made, with the entities it was handed, oldest first.
    pub closed spec fn inner_passes(&self) -> Seq<Seq<Entity>> {
        self.passes.log()
    }

    /// What the inner system was told, oldest first.
    pub closed spec fn inner_heard(&self) -> Seq<(Notice, Entity)> {
        self.inbox.log()
    }

    pub closed spec fn spec_aspect(&self) -> Aspect {
        self.aspect
    }

    /// A system that follows no entity yet.
    pub fn new(inner: T, aspect: Aspect) -> (r: PassiveEntitySystem<T>)
        ensures
            r.interest()@ == Set::<Entity>::empty(),
            r.interest().told() == Seq::<(Notice, Entity)>::empty(),
            r.spec_aspect() == aspect,
            r.spec_inner() == inner,
            r.inner_heard() == Seq::<(Notice, Entity)>::empty(),
    {
        PassiveEntitySystem { interested: InterestSet::new(), aspect, inner, inbox: Inbox::new(), passes: Ledger::new() }
    }

    /// The entities the system follows.
    pub fn interest_set(&self) -> (r: &InterestSet)
        ensures
            *r == self.interest(),
    {
        &self.interested
    }

    /// Tells the system of an event about the entity.
    fn apply(&mut self, event: Lifecycle, entity: &EntityData, world: &T::Components)
        ensures
            final(self).spec_aspect() == old(self).spec_aspect(),
            follows(old(self).interest(), final(self).interest(), old(self).spec_aspect(), event,
                entity.target().spec_entity(), signature(world, entity.target().slot())),
            received(old(self).inner_heard(), final(self).inner_heard(), notice_for(event,
                old(self).interest()@.contains(entity.target().spec_entity()),
                event != Lifecycle::Removal && old(self).spec_aspect().matches(signature(world, entity.target().slot()))),
                entity.target().spec_entity()),
    {
        track(&mut self.interested, &self.aspect, &mut self.inner, &mut self.inbox, event, entity, world);
    }
}

impl<T: PassiveEntityProcess> System for PassiveEntitySystem<T> {
    type Components = T::Components;
    type Services = T::Services;

    fn activated(&mut self, entity: &EntityData, world: &T::Components, inbox: &mut Inbox)
        ensures
            final(self).spec_aspect() == old(self).spec_aspect(),
            follows(old(self).interest(), final(self).interest(), old(self).spec_aspect(), Lifecycle::Activation,
                entity.target().spec_entity(), signature(world, entity.target().slot())),
            received(old(self).inner_heard(), final(self).inner_heard(), notice_for(Lifecycle::Activation,
                old(self).interest()@.contains(entity.target().spec_entity()),
                old(self).spec_aspect().matches(signature(world, entity.target().slot()))),
                entity.target().spec_entity()),
    {
        inbox.record(Notice::Activated, entity);
        self.apply(Lifecycle::Activation, entity, world)
    }

    fn reactivated(&mut self, entity: &EntityData, world: &T::Components, inbox: &mut Inbox)
        ensures
            final(self).spec_aspect() == old(self).spec_aspect(),
            follows(old(self).interest(), final(self).interest(), old(self).spec_aspect(), Lifecycle::Reactivation,
                entity.target().spec_entity(), signature(world, entity.target().slot())),
            received(old(self).inner_heard(), final(self).inner_heard(), notice_for(Lifecycle::Reactivation,
                old(self).interest()@.contains(entity.target().spec_entity()),
                old(self).spec_aspect().matches(signature(world, entity.target().slot()))),
                entity.target().spec_entity()),
    {
        inbox.record(Notice::Reactivated, entity);
        self.apply(Lifecycle::Reactivation, entity, world)
    }

    fn deactivated(&mut self, entity: &EntityData, world: &T::Components, inbox: &mut Inbox)
        ensures
            final(self).spec_aspect() == old(self).spec_aspect(),
            follows(old(self).interest(), final(self).interest(), old(self).spec_aspect(), Lifecycle::Removal,
                entity.target().spec_entity(), signature(world, entity.target().slot())),
            received(old(self).inner_heard(), final(self).inner_heard(), notice_for(Lifecycle::Removal,
                old(self).interest()@.contains(entity.target().spec_entity()),
                false),
                entity.target().spec_entity()),
    {
        inbox.record(Notice::Deactivated, entity);
        self.apply(Lifecycle::Removal, entity, world)
    }

    fn is_active(&self) -> (r: bool)
        ensures
            !r,
    {
        false
    }
}

impl<T: PassiveEntityProcess> PassiveEntitySystem<T> {
    /// Runs the inner system over the entities it follows.
    pub fn process(&mut self, data: &DataHelper<T::Components, T::Services>)
        ensures
            final(self).interest() == old(self).interest(),
            final(self).spec_aspect() == old(self).spec_aspect(),
            final(self).inner_heard() == old(self).inner_heard(),
            final(self).inner_passes() == old(self).inner_passes().push(old(self).interest().entities()),
    {
        let entities = self.interested.iter();
        self.inner.process(entities, data, &mut self.passes);
    }
}

} // verus!
