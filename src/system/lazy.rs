//! Systems that exist before what they run is known.

use vstd::prelude::*;

use crate::system::{Inbox, Ledger, Notice, Process, System};
use crate::world::DataHelper;
use crate::EntityData;

verus! {

/// Holds a system that is set up later; until then it does nothing and is inactive.
pub struct LazySystem<T: Process> {
    inner: Option<T>,
}

impl<T: Process> LazySystem<T> {
    pub closed spec fn spec_inner(&self) -> Option<T> {
        self.inner
    }

    /// A system not set up yet.
    pub fn new() -> (r: LazySystem<T>)
        ensures
            r.spec_inner() is None,
    {
        LazySystem { inner: None }
    }

    /// Sets the system up with `sys`, unless it already is. Returns whether it already was.
    pub fn init(&mut self, sys: T) -> (r: bool)
        ensures
            r == old(self).spec_inner() is Some,
            final(self).spec_inner() == if r { old(self).spec_inner() } else { Some(sys) },
    {
        match self.inner {
            Some(_) => true,
            None => {
                self.inner = Some(sys);
                false
            },
        }
    }

    /// Sets the system up with `sys`, replacing any earlier one. Returns whether there was one.
    pub fn init_override(&mut self, sys: T) -> (r: bool)
        ensures
            r == old(self).spec_inner() is Some,
            final(self).spec_inner() == Some(sys),
    {
        let r = self.is_initialised();
        self.inner = Some(sys);
        r
    }

    /// Whether the system is set up.
    pub fn is_initialised(&self) -> (r: bool)
        ensures
            r == self.spec_inner() is Some,
    {
        self.inner.is_some()
    }
}

impl<T: Process> Process for LazySystem<T> {
    fn process(&mut self, data: &mut DataHelper<T::Components, T::Services>, ledger: &mut Ledger) {
        match &mut self.inner {
            Some(sys) => sys.process(data, ledger),
            None => ledger.note_run(),
        }
    }
}

impl<T: Process> System for LazySystem<T> {
    type Components = T::Components;
    type Services = T::Services;

    fn activated(&mut self, entity: &EntityData, world: &T::Components, inbox: &mut Inbox) {
        match &mut self.inner {
            Some(sys) => sys.activated(entity, world, inbox),
            None => inbox.record(Notice::Activated, entity),
        }
    }

    fn reactivated(&mut self, entity: &EntityData, world: &T::Components, inbox: &mut Inbox) {
        match &mut self.inner {
            Some(sys) => sys.reactivated(entity, world, inbox),
            None => inbox.record(Notice::Reactivated, entity),
        }
    }

    fn deactivated(&mut self, entity: &EntityData, world: &T::Components, inbox: &mut Inbox) {
        match &mut self.inner {
            Some(sys) => sys.deactivated(entity, world, inbox),
            None => inbox.record(Notice::Deactivated, entity),
        }
    }

    fn is_active(&self) -> (r: bool)
        ensures
            self.spec_inner() is None ==> !r,
    {
        match &self.inner {
            Some(sys) => sys.is_active(),
            None => false,
        }
    }
}

} // verus!
