//! Systems that run once every so many updates.

use vstd::prelude::*;

use crate::entity::Entity;
use crate::system::{Inbox, Ledger, Process, System};
use crate::world::DataHelper;
use crate::EntityData;

verus! {

/// Runs the inner system at every `interval`-th update; with an interval of 0, never.
pub struct IntervalSystem<T: Process> {
    interval: u8,
    ticker: u8,
    inner: T,
    runs: Ledger,
}

impl<T: Process> IntervalSystem<T> {
    pub closed spec fn spec_interval(&self) -> u8 {
        self.interval
    }

    /// The passes the inner system made, oldest first.
    pub closed spec fn inner_runs(&self) -> Seq<Seq<Entity>> {
        self.runs.log()
    }

    /// Updates counted since the inner system last ran.
    pub closed spec fn ticks(&self) -> u8 {
        self.ticker
    }

    /// A system that runs `system` every `interval` updates, the first time at the
    /// `interval`-th.
    pub fn new(system: T, interval: u8) -> (r: IntervalSystem<T>)
        ensures
            r.spec_interval() == interval,
            r.ticks() == 0,
            r.inner_runs() == Seq::<Seq<Entity>>::empty(),
    {
        IntervalSystem { interval, ticker: 0, inner: system, runs: Ledger::new() }
    }

    /// Counts one update; returns whether the inner system is due, and if so restarts the count.
    fn tick(&mut self) -> (r: bool)
        ensures
            final(self).spec_interval() == old(self).spec_interval(),
            final(self).runs == old(self).runs,
            old(self).spec_interval() == 0 ==> !r && final(self).ticks() == old(self).ticks(),
            old(self).spec_interval() > 0 ==> {
                &&& r == (old(self).ticks() + 1 >= old(self).spec_interval())
                &&& final(self).ticks() == if r { 0 } else { old(self).ticks() + 1 }
            },
    {
        if self.interval == 0 {
            return false;
        }
        if self.ticker >= self.interval - 1 {
            self.ticker = 0;
            true
        } else {
            self.ticker = self.ticker + 1;
            false
        }
    }
}

impl<T: Process> Process for IntervalSystem<T> {
    /// Counts the update; at every `interval`-th one the inner system runs and the count
    /// restarts.
    fn process(&mut self, data: &mut DataHelper<T::Components, T::Services>, ledger: &mut Ledger)
        ensures
            final(self).inner_runs() == if old(self).spec_interval() > 0 && old(self).ticks() + 1 >= old(self).spec_interval() {
                old(self).inner_runs().push(Seq::<Entity>::empty())
            } else {
                old(self).inner_runs()
            },
            final(self).spec_interval() == old(self).spec_interval(),
            old(self).spec_interval() == 0 ==> final(self).ticks() == old(self).ticks(),
            old(self).spec_interval() > 0 ==> final(self).ticks() == if old(self).ticks() + 1 >= old(self).spec_interval() {
                0
            } else {
                old(self).ticks() + 1
            },
            old(self).spec_interval() > 0 && old(self).ticks() + 1 < old(self).spec_interval() ==> *final(data) == *old(data),
    {
        ledger.note_run();
        if self.tick() {
            self.inner.process(data, &mut self.runs);
        }
    }
}

impl<T: Process> System for IntervalSystem<T> {
    type Components = T::Components;
    type Services = T::Services;

    fn activated(&mut self, entity: &EntityData, world: &T::Components, inbox: &mut Inbox) {
        self.inner.activated(entity, world, inbox);
    }

    fn reactivated(&mut self, entity: &EntityData, world: &T::Components, inbox: &mut Inbox) {
        self.inner.reactivated(entity, world, inbox);
    }

    fn deactivated(&mut self, entity: &EntityData, world: &T::Components, inbox: &mut Inbox) {
        self.inner.deactivated(entity, world, inbox);
    }

    fn is_active(&self) -> bool {
        self.inner.is_active()
    }
}

} // verus!
