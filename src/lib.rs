//! Entity component system: entities are bare identities, components are data attached to them
//! per slot, and systems keep their own set of the entities whose components match an aspect.

pub mod aspect;
pub mod buffer;
pub mod component;
pub mod entity;
pub mod manager;
pub mod system;
pub mod world;

pub use aspect::Aspect;
pub use component::{Component, ComponentList, EntityBuilder, EntityModifier};
pub use entity::{Entity, EntityIter, IndexedEntity};
pub use system::{Inbox, Ledger, Process, System, SystemList};
pub use world::{ComponentManager, DataHelper, EcsError, ServiceManager, SystemManager, World};

use vstd::prelude::*;

verus! {

/// Access to an entity while its builder runs.
#[derive(Copy, Clone)]
pub struct BuildData {
    entity: IndexedEntity,
}

/// Access to a live entity while a modifier runs.
#[derive(Copy, Clone)]
pub struct ModifyData {
    entity: IndexedEntity,
}

/// Access to a live entity.
#[derive(Copy, Clone)]
pub struct EntityData {
    entity: IndexedEntity,
}

impl BuildData {
    pub closed spec fn target(&self) -> IndexedEntity {
        self.entity
    }

    pub(crate) fn new(entity: IndexedEntity) -> (r: BuildData)
        ensures
            r.target() == entity,
    {
        BuildData { entity }
    }

    /// The entity being built.
    pub fn entity(&self) -> (r: IndexedEntity)
        ensures
            r == self.target(),
    {
        self.entity
    }
}

impl ModifyData {
    pub closed spec fn target(&self) -> IndexedEntity {
        self.entity
    }

    pub(crate) fn new(entity: IndexedEntity) -> (r: ModifyData)
        ensures
            r.target() == entity,
    {
        ModifyData { entity }
    }
}

impl EntityData {
    pub closed spec fn target(&self) -> IndexedEntity {
        self.entity
    }

    pub(crate) fn new(entity: IndexedEntity) -> (r: EntityData)
        ensures
            r.target() == entity,
    {
        EntityData { entity }
    }
}

/// Access to a live entity whose components may be read and changed.
pub trait EditData {
    spec fn edited(&self) -> IndexedEntity;

    fn entity(&self) -> (r: IndexedEntity)
        ensures
            r == self.edited(),
    ;
}

impl EditData for ModifyData {
    open spec fn edited(&self) -> IndexedEntity {
        self.target()
    }

    fn entity(&self) -> (r: IndexedEntity) {
        self.entity
    }
}

impl EditData for EntityData {
    open spec fn edited(&self) -> IndexedEntity {
        self.target()
    }

    fn entity(&self) -> (r: IndexedEntity) {
        self.entity
    }
}

} // verus!
