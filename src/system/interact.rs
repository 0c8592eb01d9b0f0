//! Systems over two kinds of entity at once, such as the entities that can collide with each other.

use vstd::prelude::*;

use crate::aspect::Aspect;
use crate::entity::{Entity, EntityIter};
use crate::system::{follows, notice_for, received, track, Inbox, InterestSet, Ledger, Lifecycle, Notice, Process, System};
use crate::world::{signature, ComponentId, DataHelper};
use crate::EntityData;

verus! {

/// The work of an interaction system: one pass over the two groups it follows.
pub trait InteractProcess: System {
    fn process(&mut self, first: EntityIter, second: EntityIter, data: &mut DataHelper<Self::Components, Self::Services>, ledger: &mut Ledger)
        ensures
            DataHelper::extends(*old(data), *final(data)),
            final(ledger).log() == old(ledger).log().push(first.handles()).push(second.handles()),
    ;
}

/// Follows the entities that match each of two aspects, in two groups.
pub struct InteractSystem<T: InteractProcess> {
    interested_a: InterestSet,
    interested_b: InterestSet,
    aspect_a: Aspect,
    aspect_b: Aspect,
    inner: T,
    told: Ghost<Seq<(Group, Notice, Entity)>>,
    inbox: Inbox,
    passes: Ledger,
}

/// One of the two groups of an interaction system.
#[derive(Copy, Clone, Debug, PartialEq, Eq, Structural)]
pub enum Group {
    First,
    Second,
}

/// The notice about `x` for one group, as a log entry.
pub open spec fn told_group(group: Group, notice: Option<Notice>, x: Entity) -> Seq<(Group, Notice, Entity)> {
    match notice {
        Some(n) => seq![(group, n, x)],
        None => Seq::empty(),
    }
}

/// `after` is `before` told of `event` about `x`, whose signature is now `sig`: the first group
/// handles it, then the second, and the inner system hears the notices in that order.
pub open spec fn pair_follows<T: InteractProcess>(before: InteractSystem<T>, after: InteractSystem<T>, event: Lifecycle, x: Entity, sig: Set<ComponentId>) -> bool {
    let now_a = event != Lifecycle::Removal && before.spec_aspect_a().matches(sig);
    let now_b = event != Lifecycle::Removal && before.spec_aspect_b().matches(sig);
    let na = notice_for(event, before.interest_a()@.contains(x), now_a);
    let nb = notice_for(event, before.interest_b()@.contains(x), now_b);
    &&& after.spec_aspect_a() == before.spec_aspect_a()
    &&& after.spec_aspect_b() == before.spec_aspect_b()
    &&& follows(before.interest_a(), after.interest_a(), before.spec_aspect_a(), event, x, sig)
    &&& follows(before.interest_b(), after.interest_b(), before.spec_aspect_b(), event, x, sig)
    &&& after.told() == before.told() + told_group(Group::First, na, x) + told_group(Group::Second, nb, x)
    &&& received_both(before.inner_heard(), after.inner_heard(), na, nb, x)
}

/// `after` is `before` with what a system notes when handed `first` and then `second` about `x`.
pub open spec fn received_both(before: Seq<(Notice, Entity)>, after: Seq<(Notice, Entity)>, first: Option<Notice>, second: Option<Notice>, x: Entity) -> bool {
    exists|mid: Seq<(Notice, Entity)>| #[trigger] received(before, mid, first, x) && received(mid, after, second, x)
}

impl<T: InteractProcess> InteractSystem<T> {
    pub closed spec fn interest_a(&self) -> InterestSet {
        self.interested_a
    }

    pub closed spec fn interest_b(&self) -> InterestSet {
        self.interested_b
    }

    /// The passes the inner system made, with the entities it was handed, oldest first.
    pub closed spec fn inner_passes(&self) -> Seq<Seq<Entity>> {
        self.passes.log()
    }

    /// What the inner system was told, oldest first.
    pub closed spec fn inner_heard(&self) -> Seq<(Notice, Entity)> {
        self.inbox.log()
    }

    /// Every notice the inner system was told, with its group, oldest first.
    pub closed spec fn told(&self) -> Seq<(Group, Notice, Entity)> {
        self.told@
    }

    pub closed spec fn spec_aspect_a(&self) -> Aspect {
        self.aspect_a
    }

    pub closed spec fn spec_aspect_b(&self) -> Aspect {
        self.aspect_b
    }

    /// A system that follows no entity yet.
    pub fn new(inner: T, aspect_a: Aspect, aspect_b: Aspect) -> (r: InteractSystem<T>)
        ensures
            r.interest_a()@ == Set::<Entity>::empty(),
            r.interest_b()@ == Set::<Entity>::empty(),
            r.spec_aspect_a() == aspect_a,
            r.spec_aspect_b() == aspect_b,
            r.told() == Seq::<(Group, Notice, Entity)>::empty(),
            r.inner_heard() == Seq::<(Notice, Entity)>::empty(),
    {
        InteractSystem {
            interested_a: InterestSet::new(),
            interested_b: InterestSet::new(),
            aspect_a,
            aspect_b,
            inner,
            told: Ghost(Seq::empty()),
            inbox: Inbox::new(),
            passes: Ledger::new(),
        }
    }

    /// Tells both groups of an event about the entity, the first group first.
    fn apply(&mut self, event: Lifecycle, entity: &EntityData, world: &T::Components)
        ensures
            pair_follows(*old(self), *final(self), event, entity.target().spec_entity(),
                signature(world, entity.target().slot())),
    {
        let na = track(&mut self.interested_a, &self.aspect_a, &mut self.inner, &mut self.inbox, event, entity, world);
        let ghost mid = self.inbox.log();
        let nb = track(&mut self.interested_b, &self.aspect_b, &mut self.inner, &mut self.inbox, event, entity, world);
        let ghost x = entity.target().spec_entity();
        self.told = Ghost(self.told@ + told_group(Group::First, na, x) + told_group(Group::Second, nb, x));
        assert(received(old(self).inner_heard(), mid, na, x) && received(mid, self.inner_heard(), nb, x));
        assert(received_both(old(self).inner_heard(), self.inner_heard(), na, nb, x));
    }
}

impl<T: InteractProcess> System for InteractSystem<T> {
    type Components = T::Components;
    type Services = T::Services;

    fn activated(&mut self, entity: &EntityData, world: &T::Components, inbox: &mut Inbox)
        ensures
            pair_follows(*old(self), *final(self), Lifecycle::Activation, entity.target().spec_entity(),
                signature(world, entity.target().slot())),
    {
        inbox.record(Notice::Activated, entity);
        self.apply(Lifecycle::Activation, entity, world)
    }

    fn reactivated(&mut self, entity: &EntityData, world: &T::Components, inbox: &mut Inbox)
        ensures
            pair_follows(*old(self), *final(self), Lifecycle::Reactivation, entity.target().spec_entity(),
                signature(world, entity.target().slot())),
    {
        inbox.record(Notice::Reactivated, entity);
        self.apply(Lifecycle::Reactivation, entity, world)
    }

    fn deactivated(&mut self, entity: &EntityData, world: &T::Components, inbox: &mut Inbox)
        ensures
            pair_follows(*old(self), *final(self), Lifecycle::Removal, entity.target().spec_entity(),
                signature(world, entity.target().slot())),
    {
        inbox.record(Notice::Deactivated, entity);
        self.apply(Lifecycle::Removal, entity, world)
    }

    fn is_active(&self) -> bool {
        self.inner.is_active()
    }
}

impl<T: InteractProcess> Process for InteractSystem<T> {
    /// Hands the inner system both groups, the first group first.
    fn process(&mut self, data: &mut DataHelper<T::Components, T::Services>, ledger: &mut Ledger)
        ensures
            final(self).inner_passes() == old(self).inner_passes().push(old(self).interest_a().entities()).push(
                old(self).interest_b().entities(),
            ),
    {
        ledger.note_run();
        let first = self.interested_a.iter();
        let second = self.interested_b.iter();
        self.inner.process(first, second, data, &mut self.passes);
    }
}

} // verus!
