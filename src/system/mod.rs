//! Systems, and the interest sets through which they follow the entities that match an aspect.

use vstd::prelude::*;

use crate::aspect::Aspect;
use crate::entity::{Entity, EntityIter};
use crate::world::{signature, ComponentId, ComponentManager, DataHelper, Heard, ServiceManager, SystemManager};
use crate::{EditData, EntityData};

pub mod data;
pub mod entity;
pub mod entitysystem;
pub mod interact;
pub mod interval;
pub mod lazy;

pub use self::data::{DataProcess, DataSystem};
pub use self::entity::{EntityProcess, EntitySystem};
pub use self::entitysystem::{PassiveEntityProcess, PassiveEntitySystem};
pub use self::interact::{Group, InteractProcess, InteractSystem};
pub use self::interval::IntervalSystem;
pub use self::lazy::LazySystem;

verus! {

/// A unit of behaviour, told of entities as they join, change and leave. Each notice is noted
/// in the inbox handed along, so that what a system was told can be stated.
pub trait System {
    type Components: ComponentManager;
    type Services: ServiceManager;

    /// An entity started to interest the system. By default nothing else happens.
    fn activated(&mut self, entity: &EntityData, components: &Self::Components, inbox: &mut Inbox)
        ensures
            final(inbox).log() == old(inbox).log().push((Notice::Activated, entity.target().spec_entity())),
    {
        inbox.record(Notice::Activated, entity);
    }

    /// An entity that interests the system changed. By default it leaves and joins again:
    /// `deactivated`, then `activated`.
    fn reactivated(&mut self, entity: &EntityData, components: &Self::Components, inbox: &mut Inbox)
        ensures
            received(old(inbox).log(), final(inbox).log(), Some(Notice::Reactivated), entity.target().spec_entity()),
    {
        self.deactivated(entity, components, inbox);
        self.activated(entity, components, inbox);
    }

    /// An entity stopped interesting the system. By default nothing else happens.
    fn deactivated(&mut self, entity: &EntityData, components: &Self::Components, inbox: &mut Inbox)
        ensures
            final(inbox).log() == old(inbox).log().push((Notice::Deactivated, entity.target().spec_entity())),
    {
        inbox.record(Notice::Deactivated, entity);
    }

    /// Whether the system runs at each update; one that does not only answers queries.
    fn is_active(&self) -> bool {
        true
    }
}

/// The notices a system received, oldest first.
pub struct Inbox {
    log: Ghost<Seq<(Notice, Entity)>>,
}

impl Inbox {
    pub closed spec fn log(&self) -> Seq<(Notice, Entity)> {
        self.log@
    }

    /// An inbox with nothing in it.
    pub fn new() -> (r: Inbox)
        ensures
            r.log() == Seq::<(Notice, Entity)>::empty(),
    {
        Inbox { log: Ghost(Seq::empty()) }
    }

    /// Notes that `notice` about the entity arrived.
    pub fn record(&mut self, notice: Notice, entity: &EntityData)
        ensures
            final(self).log() == old(self).log().push((notice, entity.target().spec_entity())),
    {
        self.log = Ghost(self.log@.push((notice, entity.target().spec_entity())));
    }
}

/// `after` is `before` with what a system notes when handed `notice` about `x`: nothing for no
/// notice, and for a reactivation either the reactivation itself or, by default, a deactivation
/// followed by an activation.
pub open spec fn received(before: Seq<(Notice, Entity)>, after: Seq<(Notice, Entity)>, notice: Option<Notice>, x: Entity) -> bool {
    match notice {
        None => after == before,
        Some(Notice::Reactivated) => after == before.push((Notice::Reactivated, x)) || after == before.push(
            (Notice::Deactivated, x),
        ).push((Notice::Activated, x)),
        Some(n) => after == before.push((n, x)),
    }
}

/// A system that runs over the world's data.
pub trait Process: System {
    /// One pass over the data. It reaches the data only through its public methods, so it can
    /// create entities and queue requests, but not remove anything.
    fn process(&mut self, data: &mut DataHelper<Self::Components, Self::Services>, ledger: &mut Ledger)
        ensures
            DataHelper::extends(*old(data), *final(data)),
            final(ledger).log() == old(ledger).log().push(Seq::<Entity>::empty()),
    ;
}

/// The passes a system made, oldest first, each with the entities it was handed.
pub struct Ledger {
    log: Ghost<Seq<Seq<Entity>>>,
}

impl Ledger {
    pub closed spec fn log(&self) -> Seq<Seq<Entity>> {
        self.log@
    }

    /// A ledger with no pass in it.
    pub fn new() -> (r: Ledger)
        ensures
            r.log() == Seq::<Seq<Entity>>::empty(),
    {
        Ledger { log: Ghost(Seq::empty()) }
    }

    /// Notes a pass that was handed no entities.
    pub fn note_run(&mut self)
        ensures
            final(self).log() == old(self).log().push(Seq::<Entity>::empty()),
    {
        self.log = Ghost(self.log@.push(Seq::empty()));
    }

    /// Notes a pass over the entities that `entities` has still to hand out.
    pub fn note_pass(&mut self, entities: &EntityIter)
        ensures
            final(self).log() == old(self).log().push(entities.handles()),
    {
        self.log = Ghost(self.log@.push(entities.handles()));
    }

    /// Notes a pass over the entities of `entries`.
    pub fn note_entries<D>(&mut self, entries: &Vec<(EntityData, D)>)
        ensures
            final(self).log() == old(self).log().push(entries@.map_values(|p: (EntityData, D)| p.0.target().spec_entity())),
    {
        self.log = Ghost(self.log@.push(entries@.map_values(|p: (EntityData, D)| p.0.target().spec_entity())));
    }
}

/// The systems of a world as one list of a single type (an enum, where they differ), told of
/// every event in list order and run in list order.
pub struct SystemList<T: Process> {
    systems: Vec<T>,
    inbox: Inbox,
    ledger: Ledger,
    heard: Ghost<Seq<Heard>>,
}

impl<T: Process> SystemList<T> {
    pub closed spec fn view(&self) -> Seq<T> {
        self.systems@
    }

    /// A list of the given systems, told of nothing yet.
    pub fn with(systems: Vec<T>) -> (r: SystemList<T>)
        ensures
            r@ == systems@,
            r.heard() == Seq::<Heard>::empty(),
    {
        SystemList { systems, inbox: Inbox::new(), ledger: Ledger::new(), heard: Ghost(Seq::empty()) }
    }

    /// The systems, to be inspected.
    pub fn systems(&self) -> (r: &Vec<T>)
        ensures
            r@ == self@,
    {
        &self.systems
    }

    /// Tells every system of the event.
    fn tell_all(&mut self, event: Lifecycle, entity: &EntityData, components: &T::Components)
        ensures
            final(self).heard() == old(self).heard().push((event, entity.target().spec_entity(), signature(components, entity.target().slot()))),
            final(self)@.len() == old(self)@.len(),
    {
        let mut k: usize = 0;
        while k < self.systems.len()
            invariant
                k <= self.systems@.len(),
                self.systems@.len() == old(self).systems@.len(),
                self.heard == old(self).heard,
            decreases self.systems@.len() - k,
        {
            let sys = crate::component::vec_slot(&mut self.systems, k);
            match event {
                Lifecycle::Activation => sys.activated(entity, components, &mut self.inbox),
                Lifecycle::Reactivation => sys.reactivated(entity, components, &mut self.inbox),
                Lifecycle::Removal => sys.deactivated(entity, components, &mut self.inbox),
            }
            k = k + 1;
        }
        self.heard = Ghost(self.heard@.push((event, entity.target().spec_entity(), signature(components, entity.target().slot()))));
    }
}

impl<T: Process> SystemManager for SystemList<T> {
    type Components = T::Components;
    type Services = T::Services;

    closed spec fn heard(&self) -> Seq<Heard> {
        self.heard@
    }

    fn new() -> Self {
        SystemList { systems: Vec::new(), inbox: Inbox::new(), ledger: Ledger::new(), heard: Ghost(Seq::empty()) }
    }

    fn activated(&mut self, entity: EntityData, components: &T::Components) {
        self.tell_all(Lifecycle::Activation, &entity, components);
    }

    fn reactivated(&mut self, entity: EntityData, components: &T::Components) {
        self.tell_all(Lifecycle::Reactivation, &entity, components);
    }

    fn deactivated(&mut self, entity: EntityData, components: &T::Components) {
        self.tell_all(Lifecycle::Removal, &entity, components);
    }

    fn update(&mut self, data: &mut DataHelper<T::Components, T::Services>) {
        let ghost start = *data;
        let mut k: usize = 0;
        while k < self.systems.len()
            invariant
                k <= self.systems@.len(),
                self.heard == old(self).heard,
                DataHelper::extends(start, *data),
                start == *old(data),
            decreases self.systems@.len() - k,
        {
            let sys = crate::component::vec_slot(&mut self.systems, k);
            if sys.is_active() {
                let ghost mid = *data;
                sys.process(data, &mut self.ledger);
                proof {
                    DataHelper::lemma_extends_trans(start, mid, *data);
                }
            }
            k = k + 1;
        }
    }
}

/// What an interest set tells its system about an entity.
#[derive(Copy, Clone, Debug, PartialEq, Eq, Structural)]
pub enum Notice {
    Activated,
    Reactivated,
    Deactivated,
}

/// The change to an entity that an interest set is told of.
#[derive(Copy, Clone, Debug, PartialEq, Eq, Structural)]
pub enum Lifecycle {
    /// The entity was built.
    Activation,
    /// The entity's components were modified.
    Reactivation,
    /// The entity is being removed.
    Removal,
}

/// What the system hears, given whether the entity was a member and whether it matches now.
pub open spec fn notice_for(event: Lifecycle, was: bool, now: bool) -> Option<Notice> {
    match event {
        Lifecycle::Activation => if !was && now { Some(Notice::Activated) } else { None },
        Lifecycle::Reactivation => if was {
            if now { Some(Notice::Reactivated) } else { Some(Notice::Deactivated) }
        } else if now {
            Some(Notice::Activated)
        } else {
            None
        },
        Lifecycle::Removal => if was { Some(Notice::Deactivated) } else { None },
    }
}

/// The members after the event, given whether the entity matches now.
pub open spec fn members_after(members: Set<Entity>, event: Lifecycle, x: Entity, now: bool) -> Set<Entity> {
    match event {
        Lifecycle::Activation => if now { members.insert(x) } else { members },
        Lifecycle::Reactivation => if now { members.insert(x) } else { members.remove(x) },
        Lifecycle::Removal => members.remove(x),
    }
}

/// The notices as a log entry: nothing, or the one notice about `x`.
pub open spec fn told_about(notice: Option<Notice>, x: Entity) -> Seq<(Notice, Entity)> {
    match notice {
        Some(n) => seq![(n, x)],
        None => Seq::empty(),
    }
}

spec fn ents(v: Seq<EntityData>) -> Seq<Entity> {
    v.map_values(|d: EntityData| d.target().spec_entity())
}

/// `after` is `before` told of `event` about `x`, whose signature is now `sig`.
pub open spec fn follows(before: InterestSet, after: InterestSet, aspect: Aspect, event: Lifecycle, x: Entity, sig: Set<ComponentId>) -> bool {
    let now = event != Lifecycle::Removal && aspect.matches(sig);
    let notice = notice_for(event, before@.contains(x), now);
    &&& after@ == members_after(before@, event, x, now)
    &&& after.told() == before.told() + told_about(notice, x)
}

/// The entities a system follows, with the log of what it was told about them.
pub struct InterestSet {
    members: Vec<EntityData>,
    told: Ghost<Seq<(Notice, Entity)>>,
}

impl InterestSet {
    pub closed spec fn entities(&self) -> Seq<Entity> {
        ents(self.members@)
    }

    #[verifier::type_invariant]
    closed spec fn inv(self) -> bool {
        self.entities().no_duplicates()
    }

    /// The followed entities.
    pub open spec fn view(&self) -> Set<Entity> {
        self.entities().to_set()
    }

    /// Every notice handed out, oldest first.
    pub closed spec fn told(&self) -> Seq<(Notice, Entity)> {
        self.told@
    }

    pub closed spec fn wf(&self) -> bool {
        self.inv()
    }

    pub fn new() -> (r: InterestSet)
        ensures
            r.wf(),
            r@ == Set::<Entity>::empty(),
            r.told() == Seq::<(Notice, Entity)>::empty(),
    {
        assert(ents(Seq::<EntityData>::empty()) =~= Seq::<Entity>::empty());
        let r = InterestSet { members: Vec::new(), told: Ghost(Seq::empty()) };
        assert(r@ =~= Set::<Entity>::empty());
        r
    }

    /// Where the entity stands among the members.
    fn find(&self, entity: &EntityData) -> (r: Option<usize>)
        ensures
            r matches Some(j) ==> j < self.members@.len() && self.entities()[j as int] == entity.target().spec_entity(),
            r is None <==> !self@.contains(entity.target().spec_entity()),
    {
        let target = entity.entity().entity();
        let mut j: usize = 0;
        while j < self.members.len()
            invariant
                j <= self.members@.len(),
                target == entity.target().spec_entity(),
                forall|k: int| 0 <= k < j ==> self.entities()[k] != target,
            decreases self.members@.len() - j,
        {
            if self.members[j].entity().entity() == target {
                proof {
                    assert(self.entities()[j as int] == target);
                    assert(self@.contains(target));
                }
                return Some(j);
            }
            j = j + 1;
        }
        proof {
            if self@.contains(target) {
                let k = choose|k: int| 0 <= k < self.entities().len() && self.entities()[k] == target;
            }
        }
        None
    }

    /// How many entities are followed.
    pub fn len(&self) -> (r: usize)
        ensures
            r == self@.len(),
    {
        proof {
            use_type_invariant(self);
            self.entities().unique_seq_to_set();
        }
        self.members.len()
    }

    /// Whether the entity is followed.
    pub fn contains(&self, entity: &EntityData) -> (r: bool)
        ensures
            r == self@.contains(entity.target().spec_entity()),
    {
        self.find(entity).is_some()
    }

    /// Applies one event to the set: `now` says whether the entity matches the aspect at this
    /// point. Returns what the system is to be told, and logs it.
    pub fn apply(&mut self, event: Lifecycle, entity: &EntityData, now: bool) -> (r: Option<Notice>)
        ensures
            r == notice_for(event, old(self)@.contains(entity.target().spec_entity()), now),
            final(self)@ == members_after(old(self)@, event, entity.target().spec_entity(), now),
            final(self).told() == old(self).told() + told_about(r, entity.target().spec_entity()),
    {
        proof { use_type_invariant(&*self); }
        let ghost x = entity.target().spec_entity();
        let pos = self.find(entity);
        let was = pos.is_some();
        let stays = match event {
            Lifecycle::Activation => was || now,
            Lifecycle::Reactivation => now,
            Lifecycle::Removal => false,
        };
        let mut members: Vec<EntityData> = Vec::new();
        std::mem::swap(&mut members, &mut self.members);
        let ghost e0 = ents(members@);
        if stays && !was {
            members.push(*entity);
            proof {
                assert(ents(members@) =~= e0.push(x));
                e0.lemma_push_to_set_commute(x);
                assert forall|a: int, b: int| 0 <= a < b < e0.len() + 1 implies ents(members@)[a] != ents(members@)[b] by {
                    if b == e0.len() {
                        assert(e0.contains(e0[a]));
                    }
                }
            }
        } else if !stays && was {
            let j = pos.unwrap();
            members.swap_remove(j);
            proof {
                let n = e0.len() - 1;
                let es = ents(members@);
                assert(es =~= e0.update(j as int, e0[n]).drop_last());
                assert forall|a: int, b: int| 0 <= a < es.len() && 0 <= b < es.len() && a != b implies es[a] != es[b] by {
                    let fa = if a == j { n } else { a };
                    let fb = if b == j { n } else { b };
                    assert(es[a] == e0[fa] && es[b] == e0[fb]);
                }
                assert forall|y: Entity| #[trigger] es.to_set().contains(y) == (e0.to_set().contains(y) && y != x) by {
                    if e0.to_set().contains(y) && y != x {
                        let k = choose|k: int| 0 <= k < e0.len() && e0[k] == y;
                        if k == n {
                            assert(es[j as int] == y);
                        } else {
                            assert(k != j);
                            assert(es[k] == y);
                        }
                    }
                    if es.to_set().contains(y) {
                        let k = choose|k: int| 0 <= k < es.len() && es[k] == y;
                        if k == j {
                            assert(e0[n] == y);
                        } else {
                            assert(e0[k] == y);
                        }
                    }
                }
                assert(es.to_set() =~= e0.to_set().remove(x));
            }
        } else {
            proof {
                if stays {
                    assert(e0.to_set() =~= e0.to_set().insert(x));
                } else {
                    assert(e0.to_set() =~= e0.to_set().remove(x));
                }
            }
        }
        self.members = members;
        let r = match event {
            Lifecycle::Activation => if !was && now { Some(Notice::Activated) } else { None },
            Lifecycle::Reactivation => if was {
                if now { Some(Notice::Reactivated) } else { Some(Notice::Deactivated) }
            } else if now {
                Some(Notice::Activated)
            } else {
                None
            },
            Lifecycle::Removal => if was { Some(Notice::Deactivated) } else { None },
        };
        self.told = Ghost(self.told@ + told_about(r, x));
        r
    }

    /// The members, for a pass of the system.
    pub fn iter(&self) -> (r: EntityIter)
        ensures
            r.wf(),
            r.handles() == self.entities(),
    {
        let mut items: Vec<EntityData> = Vec::new();
        let mut k: usize = 0;
        while k < self.members.len()
            invariant
                k <= self.members@.len(),
                items@ == self.members@.subrange(0, k as int),
            decreases self.members@.len() - k,
        {
            items.push(self.members[k]);
            proof {
                assert(self.members@.subrange(0, k + 1) =~= self.members@.subrange(0, k as int).push(self.members@[k as int]));
            }
            k = k + 1;
        }
        assert(items@ =~= self.members@);
        EntityIter::of(items)
    }
}

/// Tells `interest` of the event, checking the aspect against the entity's components, and tells
/// `inner` what the interest set decided.
pub(crate) fn track<T: System>(
    interest: &mut InterestSet,
    aspect: &Aspect,
    inner: &mut T,
    inbox: &mut Inbox,
    event: Lifecycle,
    entity: &EntityData,
    components: &T::Components,
) -> (r: Option<Notice>)
    ensures
        received(old(inbox).log(), final(inbox).log(), r, entity.target().spec_entity()),
        follows(*old(interest), *final(interest), *aspect, event, entity.target().spec_entity(),
            signature(components, entity.target().slot())),
        r == notice_for(event, old(interest)@.contains(entity.target().spec_entity()),
            event != Lifecycle::Removal && aspect.matches(signature(components, entity.target().slot()))),
{
    let now = match event {
        Lifecycle::Removal => false,
        _ => aspect.check(entity, components),
    };
    let notice = interest.apply(event, entity, now);
    match notice {
        Some(Notice::Activated) => inner.activated(entity, components, inbox),
        Some(Notice::Reactivated) => inner.reactivated(entity, components, inbox),
        Some(Notice::Deactivated) => inner.deactivated(entity, components, inbox),
        None => {},
    }
    notice
}

/// An interest set that holds exactly the live entities that match the aspect still does after
/// it is told of one event, provided the event changed no other entity's components: a new
/// entity is activated, a live one reactivated, or a live one removed.
pub proof fn lemma_interest_consistency<C: ComponentManager>(
    aspect: Aspect,
    members: Set<Entity>,
    live0: Set<Entity>,
    c0: C,
    event: Lifecycle,
    x: Entity,
    live1: Set<Entity>,
    c1: C,
)
    requires
        members == live0.filter(|e: Entity| aspect.matches(signature(&c0, e.slot()))),
        event == Lifecycle::Activation ==> !live0.contains(x) && live1 == live0.insert(x),
        event == Lifecycle::Reactivation ==> live0.contains(x) && live1 == live0,
        event == Lifecycle::Removal ==> live1 == live0.remove(x),
        forall|e: Entity| #[trigger] live1.contains(e) && e != x ==> signature(&c1, e.slot()) == signature(&c0, e.slot()),
    ensures
        members_after(members, event, x, aspect.matches(signature(&c1, x.slot())))
            == live1.filter(|e: Entity| aspect.matches(signature(&c1, e.slot()))),
{
    let now = aspect.matches(signature(&c1, x.slot()));
    let after = live1.filter(|e: Entity| aspect.matches(signature(&c1, e.slot())));
    assert forall|e: Entity| #[trigger] members_after(members, event, x, now).contains(e) == after.contains(e) by {
        if e != x && live1.contains(e) {
            assert(signature(&c1, e.slot()) == signature(&c0, e.slot()));
        }
    }
    assert(members_after(members, event, x, now) =~= after);
}

/// An entity that a system follows and that no longer matches after a modification leaves: the
/// inner system is told once that it was deactivated, and is not told that it was activated,
/// whether or not it keeps the default handling of reactivation.
pub proof fn lemma_leaving_on_mismatch(
    before: InterestSet,
    after: InterestSet,
    aspect: Aspect,
    x: Entity,
    sig: Set<ComponentId>,
    heard_before: Seq<(Notice, Entity)>,
    heard_after: Seq<(Notice, Entity)>,
)
    requires
        follows(before, after, aspect, Lifecycle::Reactivation, x, sig),
        received(heard_before, heard_after, notice_for(Lifecycle::Reactivation, before@.contains(x), aspect.matches(sig)), x),
        before@.contains(x),
        !aspect.matches(sig),
    ensures
        heard_after == heard_before.push((Notice::Deactivated, x)),
        after.told() == before.told().push((Notice::Deactivated, x)),
        !after@.contains(x),
{
    assert(before.told() + seq![(Notice::Deactivated, x)] =~= before.told().push((Notice::Deactivated, x)));
}

} // verus!
