//! Systems that keep a piece of data of their own for each entity they follow.

use vstd::prelude::*;

use crate::aspect::Aspect;
use crate::entity::Entity;
use crate::system::{notice_for, received, Inbox, Ledger, Lifecycle, Notice, Process, System};
use crate::world::{signature, DataHelper};
use crate::{EditData, EntityData};

verus! {

/// The work of a data system: the data it starts for a new entity, and one pass over its entries.
pub trait DataProcess<Data>: System {
    /// The data kept for an entity that starts to interest the system.
    fn init(&self, entity: &EntityData, components: &Self::Components) -> Data;

    fn process(&mut self, entries: &mut Vec<(EntityData, Data)>, data: &mut DataHelper<Self::Components, Self::Services>, ledger: &mut Ledger)
        ensures
            DataHelper::extends(*old(data), *final(data)),
            final(ledger).log() == old(ledger).log().push(old(entries)@.map_values(|p: (EntityData, Data)| entry_entity(p))),
    ;
}

/// Follows the entities that match an aspect, with a piece of data for each.
pub struct DataSystem<Data, T: DataProcess<Data>> {
    entries: Vec<(EntityData, Data)>,
    aspect: Aspect,
    inner: T,
    inbox: Inbox,
    passes: Ledger,
}

/// The entity of an entry.
pub open spec fn entry_entity<Data>(entry: (EntityData, Data)) -> Entity {
    entry.0.target().spec_entity()
}

/// Whether some entry is about `x`.
pub open spec fn has_entry<Data>(entries: Seq<(EntityData, Data)>, x: Entity) -> bool {
    exists|k: int| 0 <= k < entries.len() && entry_entity(#[trigger] entries[k]) == x
}

/// `after` is `before` told of `event` about `x`: a new entry for `x` at the end when it starts to
/// interest the system, every entry of `x` dropped when it stops, no change otherwise.
pub open spec fn keeps<Data>(before: Seq<(EntityData, Data)>, after: Seq<(EntityData, Data)>, event: Lifecycle, x: Entity, now: bool) -> bool {
    match notice_for(event, has_entry(before, x), now) {
        Some(Notice::Activated) => {
            &&& after.len() == before.len() + 1
            &&& after.drop_last() == before
            &&& entry_entity(after.last()) == x
        },
        Some(Notice::Deactivated) => after == before.filter(|p: (EntityData, Data)| entry_entity(p) != x),
        _ => after == before,
    }
}

impl<Data, T: DataProcess<Data>> DataSystem<Data, T> {
    /// The entries, oldest first.
    pub closed spec fn view(&self) -> Seq<(EntityData, Data)> {
        self.entries@
    }

    /// The passes the inner system made, with the entities it was handed, oldest first.
    pub closed spec fn inner_passes(&self) -> Seq<Seq<Entity>> {
        self.passes.log()
    }

    /// What the inner system was told, oldest first.
    pub closed spec fn inner_heard(&self) -> Seq<(Notice, Entity)> {
        self.inbox.log()
    }

    pub closed spec fn spec_aspect(&self) -> Aspect {
        self.aspect
    }

    /// A system that follows no entity yet.
    pub fn new(inner: T, aspect: Aspect) -> (r: DataSystem<Data, T>)
        ensures
            r@ == Seq::<(EntityData, Data)>::empty(),
            r.spec_aspect() == aspect,
            r.inner_heard() == Seq::<(Notice, Entity)>::empty(),
    {
        DataSystem { entries: Vec::new(), aspect, inner, inbox: Inbox::new(), passes: Ledger::new() }
    }

    /// Whether some entry is about the entity.
    fn position(&self, x: Entity) -> (r: Option<usize>)
        ensures
            r is Some <==> has_entry(self@, x),
    {
        let mut k: usize = 0;
        while k < self.entries.len()
            invariant
                k <= self.entries@.len(),
                forall|j: int| 0 <= j < k ==> entry_entity(#[trigger] self.entries@[j]) != x,
            decreases self.entries@.len() - k,
        {
            if self.entries[k].0.entity().entity() == x {
                proof {
                    assert(entry_entity(self.entries@[k as int]) == x);
                }
                return Some(k);
            }
            k = k + 1;
        }
        None
    }

    /// Drops every entry about `x`.
    fn drop_entries(&mut self, x: Entity)
        ensures
            final(self)@ == old(self)@.filter(|p: (EntityData, Data)| entry_entity(p) != x),
            final(self).spec_aspect() == old(self).spec_aspect(),
            final(self).inner_heard() == old(self).inner_heard(),
    {
        let ghost pred = |p: (EntityData, Data)| entry_entity(p) != x;
        let mut old_entries: Vec<(EntityData, Data)> = Vec::new();
        std::mem::swap(&mut old_entries, &mut self.entries);
        let ghost src = old_entries@;
        let total = old_entries.len();
        assert(src.len() == total);
        let mut kept: Vec<(EntityData, Data)> = Vec::new();
        let mut taken: usize = 0;
        while old_entries.len() > 0
            invariant
                taken + old_entries@.len() == src.len(),
                src.len() <= usize::MAX,
                old_entries@ == src.subrange(taken as int, src.len() as int),
                kept@ == src.subrange(0, taken as int).filter(pred),
                pred == (|p: (EntityData, Data)| entry_entity(p) != x),
                self.aspect == old(self).aspect,
                self.inbox == old(self).inbox,
            decreases old_entries@.len(),
        {
            let p = old_entries.remove(0);
            proof {
                assert(src.subrange(0, taken + 1) =~= src.subrange(0, taken as int).push(p));
                src.subrange(0, taken as int).lemma_filter_push(p, pred);
                assert(old_entries@ =~= src.subrange(taken + 1, src.len() as int));
            }
            if p.0.entity().entity() != x {
                kept.push(p);
            }
            taken = taken + 1;
        }
        proof {
            assert(src.subrange(0, src.len() as int) =~= src);
        }
        self.entries = kept;
    }

    /// Tells the system of an event about the entity.
    fn apply(&mut self, event: Lifecycle, entity: &EntityData, world: &T::Components)
        ensures
            final(self).spec_aspect() == old(self).spec_aspect(),
            keeps(old(self)@, final(self)@, event, entity.target().spec_entity(),
                event != Lifecycle::Removal && old(self).spec_aspect().matches(signature(world, entity.target().slot()))),
            received(old(self).inner_heard(), final(self).inner_heard(), notice_for(event,
                has_entry(old(self)@, entity.target().spec_entity()),
                event != Lifecycle::Removal && old(self).spec_aspect().matches(signature(world, entity.target().slot()))),
                entity.target().spec_entity()),
    {
        let x = entity.entity().entity();
        let now = match event {
            Lifecycle::Removal => false,
            _ => self.aspect.check(entity, world),
        };
        let was = self.position(x).is_some();
        let notice = match event {
            Lifecycle::Activation => if !was && now { Some(Notice::Activated) } else { None },
            Lifecycle::Reactivation => if was {
                if now { Some(Notice::Reactivated) } else { Some(Notice::Deactivated) }
            } else if now {
                Some(Notice::Activated)
            } else {
                None
            },
            Lifecycle::Removal => if was { Some(Notice::Deactivated) } else { None },
        };
        match notice {
            Some(Notice::Activated) => {
                let d = self.inner.init(entity, world);
                let ghost before = self.entries@;
                self.entries.push((*entity, d));
                proof {
                    assert(self.entries@.drop_last() =~= before);
                }
                self.inner.activated(entity, world, &mut self.inbox);
            },
            Some(Notice::Reactivated) => self.inner.reactivated(entity, world, &mut self.inbox),
            Some(Notice::Deactivated) => {
                self.drop_entries(x);
                self.inner.deactivated(entity, world, &mut self.inbox);
            },
            None => {},
        }
    }
}

impl<Data, T: DataProcess<Data>> System for DataSystem<Data, T> {
    type Components = T::Components;
    type Services = T::Services;

    fn activated(&mut self, entity: &EntityData, world: &T::Components, inbox: &mut Inbox)
        ensures
            final(self).spec_aspect() == old(self).spec_aspect(),
            keeps(old(self)@, final(self)@, Lifecycle::Activation, entity.target().spec_entity(), old(self).spec_aspect().matches(signature(world, entity.target().slot()))),
            received(old(self).inner_heard(), final(self).inner_heard(), notice_for(Lifecycle::Activation,
                has_entry(old(self)@, entity.target().spec_entity()), old(self).spec_aspect().matches(signature(world, entity.target().slot()))), entity.target().spec_entity()),
    {
        inbox.record(Notice::Activated, entity);
        self.apply(Lifecycle::Activation, entity, world)
    }

    fn reactivated(&mut self, entity: &EntityData, world: &T::Components, inbox: &mut Inbox)
        ensures
            final(self).spec_aspect() == old(self).spec_aspect(),
            keeps(old(self)@, final(self)@, Lifecycle::Reactivation, entity.target().spec_entity(), old(self).spec_aspect().matches(signature(world, entity.target().slot()))),
            received(old(self).inner_heard(), final(self).inner_heard(), notice_for(Lifecycle::Reactivation,
                has_entry(old(self)@, entity.target().spec_entity()), old(self).spec_aspect().matches(signature(world, entity.target().slot()))), entity.target().spec_entity()),
    {
        inbox.record(Notice::Reactivated, entity);
        self.apply(Lifecycle::Reactivation, entity, world)
    }

    fn deactivated(&mut self, entity: &EntityData, world: &T::Components, inbox: &mut Inbox)
        ensures
            final(self).spec_aspect() == old(self).spec_aspect(),
            keeps(old(self)@, final(self)@, Lifecycle::Removal, entity.target().spec_entity(), false),
            received(old(self).inner_heard(), final(self).inner_heard(), notice_for(Lifecycle::Removal,
                has_entry(old(self)@, entity.target().spec_entity()), false), entity.target().spec_entity()),
    {
        inbox.record(Notice::Deactivated, entity);
        self.apply(Lifecycle::Removal, entity, world)
    }

    fn is_active(&self) -> bool {
        self.inner.is_active()
    }
}

impl<Data, T: DataProcess<Data>> Process for DataSystem<Data, T> {
    /// Hands the inner system exactly its entries.
    fn process(&mut self, data: &mut DataHelper<T::Components, T::Services>, ledger: &mut Ledger)
        ensures
            final(self).inner_passes() == old(self).inner_passes().push(old(self)@.map_values(|p: (EntityData, Data)| entry_entity(p))),
    {
        ledger.note_run();
        self.inner.process(&mut self.entries, data, &mut self.passes);
    }
}

} // verus!
