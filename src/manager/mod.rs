//! Managers: observers that keep their own records as entities join, change and leave.

use vstd::prelude::*;

use crate::world::ComponentManager;
use crate::EntityData;

pub mod event;
pub mod group;
pub mod player;

pub use self::event::{QueueManager, StateManager};
pub use self::group::GroupManager;
pub use self::player::PlayerManager;

verus! {

/// Observes entities as the systems do; by default it ignores them.
pub trait Manager<C: ComponentManager> {
    /// An entity was built.
    fn activated(&mut self, entity: &EntityData, components: &C) {
    }

    /// A live entity was modified.
    fn reactivated(&mut self, entity: &EntityData, components: &C) {
    }

    /// An entity is about to be removed.
    fn deactivated(&mut self, entity: &EntityData, components: &C) {
    }
}

} // verus!
