//! Records of events: the latest state per key, and a queue in arrival order.

use vstd::prelude::*;

use std::collections::HashMap;
use std::hash::Hash;

use crate::manager::Manager;
use crate::world::ComponentManager;

verus! {

/// A key of a state manager.
pub trait StateKey: Hash + Eq {}

impl<T: Hash + Eq> StateKey for T {}

/// The latest state recorded for each event.
pub struct StateManager<E, S> {
    states: HashMap<E, S>,
}

impl<E: StateKey, S> StateManager<E, S> {
    pub closed spec fn view(&self) -> Map<E, S> {
        self.states@
    }

    /// A manager with no state recorded.
    pub fn new() -> (r: StateManager<E, S>)
        ensures
            r@ == Map::<E, S>::empty(),
    {
        StateManager { states: HashMap::new() }
    }

    /// Records the state of `event`, handing back the one it replaces. Holds for keys whose
    /// hashing and equality agree, as those of the integer types do.
    pub fn set(&mut self, event: E, state: S) -> (r: Option<S>)
        ensures
            vstd::std_specs::hash::obeys_key_model::<E>() ==> {
                &&& final(self)@ == old(self)@.insert(event, state)
                &&& r == old(self)@.get(event)
            },
    {
        proof {
            broadcast use vstd::std_specs::hash::group_hash_axioms;
        }
        self.states.insert(event, state)
    }

    /// The state recorded for `event`, if any.
    pub fn get(&self, event: &E) -> (r: Option<&S>)
        ensures
            vstd::std_specs::hash::obeys_key_model::<E>() ==> match r {
                Some(s) => self@.contains_key(*event) && *s == self@[*event],
                None => !self@.contains_key(*event),
            },
    {
        proof {
            broadcast use vstd::std_specs::hash::group_hash_axioms;
        }
        self.states.get(event)
    }

    /// Forgets the state of `event`, handing it back.
    pub fn clear(&mut self, event: &E) -> (r: Option<S>)
        ensures
            vstd::std_specs::hash::obeys_key_model::<E>() ==> {
                &&& final(self)@ == old(self)@.remove(*event)
                &&& r == old(self)@.get(*event)
            },
    {
        proof {
            broadcast use vstd::std_specs::hash::group_hash_axioms;
        }
        self.states.remove(event)
    }

    /// Forgets every state.
    pub fn clear_all(&mut self)
        ensures
            final(self)@ == Map::<E, S>::empty(),
    {
        self.states.clear()
    }
}

impl<C: ComponentManager, E: StateKey, S> Manager<C> for StateManager<E, S> {
}

/// Events waiting to be handled, oldest first.
pub struct QueueManager<E> {
    queue: Vec<E>,
}

impl<E> QueueManager<E> {
    pub closed spec fn view(&self) -> Seq<E> {
        self.queue@
    }

    /// An empty queue.
    pub fn new() -> (r: QueueManager<E>)
        ensures
            r@ == Seq::<E>::empty(),
    {
        QueueManager { queue: Vec::new() }
    }

    /// Adds an event at the back.
    pub fn push(&mut self, event: E)
        ensures
            final(self)@ == old(self)@.push(event),
    {
        self.queue.push(event);
    }

    /// Takes the oldest event.
    pub fn pop(&mut self) -> (r: Option<E>)
        ensures
            old(self)@.len() == 0 ==> r is None && final(self)@ == old(self)@,
            old(self)@.len() > 0 ==> r == Some(old(self)@[0]) && final(self)@ == old(self)@.drop_first(),
    {
        if self.queue.len() == 0 {
            None
        } else {
            let e = self.queue.remove(0);
            assert(self@ =~= old(self)@.drop_first());
            Some(e)
        }
    }

    /// The oldest event, left in place.
    pub fn peek(&self) -> (r: Option<&E>)
        ensures
            self@.len() == 0 ==> r is None,
            self@.len() > 0 ==> r is Some && *r.unwrap() == self@[0],
    {
        if self.queue.len() == 0 {
            None
        } else {
            Some(&self.queue[0])
        }
    }

    /// A mutable reference to the oldest event.
    pub fn modify(&mut self) -> (r: Option<&mut E>)
        ensures
            old(self)@.len() == 0 ==> r is None && final(self)@ == old(self)@,
            old(self)@.len() > 0 ==> {
                &&& r is Some
                &&& *r.unwrap() == old(self)@[0]
                &&& final(self)@ == old(self)@.update(0, *final(r.unwrap()))
            },
    {
        if self.queue.len() == 0 {
            None
        } else {
            Some(crate::component::vec_slot(&mut self.queue, 0))
        }
    }

    /// Whether no event waits.
    pub fn is_empty(&self) -> (r: bool)
        ensures
            r == (self@.len() == 0),
    {
        self.queue.len() == 0
    }
}

impl<C: ComponentManager, E> Manager<C> for QueueManager<E> {
}

} // verus!
