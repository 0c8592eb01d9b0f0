use ecs::aspect::Aspect;
use ecs::component::{ComponentList, EntityBuilder};
use ecs::entity::IndexedEntity;
use ecs::manager::{GroupManager, Manager, PlayerManager, QueueManager, StateManager};
use ecs::system::{Inbox, Ledger, PassiveEntityProcess, PassiveEntitySystem, System};
use ecs::world::{ComponentManager, DataHelper};
use ecs::entity::EntityIter;
use ecs::{BuildData, EntityData};

const TAG: usize = 0;

pub struct Tags {
    pub tag: ComponentList<u8>,
}

impl ComponentManager for Tags {
    fn new() -> Self {
        Tags { tag: ComponentList::cold() }
    }

    fn holds(&self, ty: usize, index: usize) -> bool {
        ty == TAG && self.tag.contains_slot(index)
    }

    fn has(&self, ty: usize, entity: &EntityData) -> bool {
        ty == TAG && self.tag.has(entity)
    }

    fn remove_all(&mut self, entity: &IndexedEntity) {
        self.tag.clear(entity);
    }
}

pub struct Tagged(pub Option<u8>);

impl EntityBuilder<Tags> for Tagged {
    fn build(&mut self, entity: BuildData, c: &mut Tags) {
        if let Some(t) = self.0 {
            c.tag.add(&entity, t);
        }
    }
}

#[test]
fn player_manager_forgets_removed_and_mismatched_entities() {
    let mut data = DataHelper::<Tags, ()>::new();
    let a = data.create_entity(Tagged(Some(1)));
    let b = data.create_entity(Tagged(None));
    let mut players = PlayerManager::with_aspect(Aspect::for_all(vec![TAG]));
    assert_eq!(players.add(0, a), None);
    assert_eq!(players.add(2, b), None);
    assert_eq!(players.add(3, a), None);
    assert_eq!(players.get(0), Some(a));
    assert_eq!(players.get(1), None);
    let da = data.entity_data(&a).unwrap();
    let db = data.entity_data(&b).unwrap();
    players.reactivated(&db, &data.components);
    assert_eq!(players.get(2), None);
    players.reactivated(&da, &data.components);
    assert_eq!(players.get(0), Some(a));
    players.deactivated(&da, &data.components);
    assert_eq!(players.get(0), None);
    assert_eq!(players.get(3), None);
    assert_eq!(players.add(1, b), None);
    assert_eq!(players.remove(1), Some(b));
    assert_eq!(players.remove(1), None);
    let mut open = PlayerManager::new();
    open.add(5, b);
    open.reactivated(&db, &data.components);
    assert_eq!(open.get(5), Some(b));
}

#[test]
fn state_manager_keeps_latest_state() {
    let mut states: StateManager<u32, &str> = StateManager::new();
    assert_eq!(states.set(1, "down"), None);
    assert_eq!(states.set(1, "up"), Some("down"));
    assert_eq!(states.get(&1), Some(&"up"));
    assert_eq!(states.get(&2), None);
    assert_eq!(states.clear(&1), Some("up"));
    assert_eq!(states.clear(&1), None);
    states.set(3, "left");
    states.clear_all();
    assert_eq!(states.get(&3), None);
}

#[test]
fn queue_manager_is_first_in_first_out() {
    let mut q = QueueManager::new();
    assert!(q.is_empty());
    assert_eq!(q.peek(), None);
    q.push(1);
    q.push(2);
    assert_eq!(q.peek(), Some(&1));
    if let Some(front) = q.modify() {
        *front = 10;
    }
    assert_eq!(q.pop(), Some(10));
    assert_eq!(q.pop(), Some(2));
    assert_eq!(q.pop(), None);
    assert!(q.is_empty());
}

#[test]
fn group_manager_drops_removed_entities() {
    let mut data = DataHelper::<Tags, ()>::new();
    let a = data.create_entity(Tagged(None));
    let b = data.create_entity(Tagged(None));
    let mut groups: GroupManager<u32> = GroupManager::new();
    groups.create(7);
    assert_eq!(groups.get(&7).map(|v| v.len()), Some(0));
    assert!(groups.get(&8).is_none());
    groups.get_mut(&7).unwrap().push(a);
    groups.get_mut(&7).unwrap().push(b);
    groups.create(8);
    groups.get_mut(&8).unwrap().push(a);
    groups.create(7);
    assert_eq!(groups.get(&7), Some(&vec![a, b]));
    assert!(groups.get_mut(&9).is_none());
    let da = data.entity_data(&a).unwrap();
    groups.deactivated(&da, &data.components);
    assert_eq!(groups.get(&7), Some(&vec![b]));
    assert_eq!(groups.get(&8), Some(&vec![]));
    assert_eq!(groups.delete(&7), Some(vec![b]));
    assert!(groups.get(&7).is_none());
    assert!(groups.delete(&7).is_none());
    assert_eq!(groups.get(&8), Some(&vec![]));
}

pub struct Census(pub usize);

impl System for Census {
    type Components = Tags;
    type Services = ();
}

impl PassiveEntityProcess for Census {
    fn process(&mut self, entities: EntityIter, _: &DataHelper<Tags, ()>, _: &mut Ledger) {
        let mut entities = entities;
        self.0 = 0;
        while entities.next().is_some() {
            self.0 += 1;
        }
    }
}

#[test]
fn passive_system_follows_but_does_not_run_by_itself() {
    let mut data = DataHelper::<Tags, ()>::new();
    let a = data.create_entity(Tagged(Some(1)));
    let b = data.create_entity(Tagged(None));
    let mut census = PassiveEntitySystem::new(Census(0), Aspect::for_all(vec![TAG]));
    assert!(!census.is_active());
    let da = data.entity_data(&a).unwrap();
    let db = data.entity_data(&b).unwrap();
    census.activated(&da, &data.components, &mut Inbox::new());
    census.activated(&db, &data.components, &mut Inbox::new());
    assert_eq!(census.interest_set().len(), 1);
    census.process(&data);
    assert_eq!(census.inner.0, 1);
    census.deactivated(&da, &data.components, &mut Inbox::new());
    census.process(&data);
    assert_eq!(census.inner.0, 0);
}
