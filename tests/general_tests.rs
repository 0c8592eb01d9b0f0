use ecs::aspect::Aspect;
use ecs::component::{ComponentList, EntityBuilder, EntityModifier};
use ecs::entity::{EntityIter, IndexedEntity};
use ecs::system::{EntityProcess, EntitySystem, Inbox, Ledger, Process, System};
use ecs::world::{ComponentManager, DataHelper, SystemManager, World};
use ecs::{BuildData, EntityData, ModifyData};

// Positions are kept in tenths, as integers.
#[derive(Copy, Clone, Debug, PartialEq)]
pub struct Position {
    pub x: i32,
    pub y: i32,
}

#[derive(Copy, Clone, Debug, PartialEq)]
pub struct Team(u8);

#[derive(Copy, Clone, Debug, PartialEq)]
pub struct SomeFeature;

const BLANK: usize = 0;
const POSITION: usize = 1;
const TEAM: usize = 2;
const FEATURE: usize = 3;

pub struct TestComponents {
    pub blank_data: ComponentList<()>,
    pub position: ComponentList<Position>,
    pub team: ComponentList<Team>,
    pub feature: ComponentList<SomeFeature>,
}

impl ComponentManager for TestComponents {
    fn holds(&self, ty: usize, index: usize) -> bool {
        match ty {
            BLANK => self.blank_data.contains_slot(index),
            POSITION => self.position.contains_slot(index),
            TEAM => self.team.contains_slot(index),
            FEATURE => self.feature.contains_slot(index),
            _ => false,
        }
    }

    fn new() -> Self {
        TestComponents {
            blank_data: ComponentList::hot(),
            position: ComponentList::hot(),
            team: ComponentList::cold(),
            feature: ComponentList::hot(),
        }
    }

    fn has(&self, ty: usize, entity: &EntityData) -> bool {
        match ty {
            BLANK => self.blank_data.has(entity),
            POSITION => self.position.has(entity),
            TEAM => self.team.has(entity),
            FEATURE => self.feature.has(entity),
            _ => false,
        }
    }

    fn remove_all(&mut self, entity: &IndexedEntity) {
        self.blank_data.clear(entity);
        self.position.clear(entity);
        self.team.clear(entity);
        self.feature.clear(entity);
    }
}

pub struct HelloWorld(pub &'static str, pub u32);

impl System for HelloWorld {
    type Components = TestComponents;
    type Services = ();
}

impl Process for HelloWorld {
    fn process(&mut self, _: &mut DataHelper<TestComponents, ()>, _: &mut Ledger) {
        println!("{}", self.0);
        self.1 += 1;
    }
}

pub struct PrintPosition;

impl System for PrintPosition {
    type Components = TestComponents;
    type Services = ();

    fn is_active(&self) -> bool {
        false
    }
}

impl EntityProcess for PrintPosition {
    fn process(&mut self, entities: EntityIter, data: &mut DataHelper<TestComponents, ()>, _: &mut Ledger) {
        let mut entities = entities;
        while let Some(e) = entities.next() {
            println!("{:?}", data.components.position.borrow(&e));
        }
    }
}

pub struct TestSystems {
    pub hello_world: HelloWorld,
    pub print_position: EntitySystem<PrintPosition>,
}

impl SystemManager for TestSystems {
    type Components = TestComponents;
    type Services = ();

    fn new() -> Self {
        TestSystems {
            hello_world: HelloWorld("Hello, World!", 0),
            print_position: EntitySystem::new(PrintPosition, Aspect::for_all(vec![POSITION, FEATURE])),
        }
    }

    fn activated(&mut self, en: EntityData, co: &TestComponents) {
        self.hello_world.activated(&en, co, &mut Inbox::new());
        self.print_position.activated(&en, co, &mut Inbox::new());
    }

    fn reactivated(&mut self, en: EntityData, co: &TestComponents) {
        self.hello_world.reactivated(&en, co, &mut Inbox::new());
        self.print_position.reactivated(&en, co, &mut Inbox::new());
    }

    fn deactivated(&mut self, en: EntityData, co: &TestComponents) {
        self.hello_world.deactivated(&en, co, &mut Inbox::new());
        self.print_position.deactivated(&en, co, &mut Inbox::new());
    }

    fn update(&mut self, co: &mut DataHelper<TestComponents, ()>) {
        if self.hello_world.is_active() {
            self.hello_world.process(co, &mut Ledger::new());
        }
        if self.print_position.is_active() {
            self.print_position.process(co, &mut Ledger::new());
        }
    }
}

pub struct Build(Position, Team, bool);

impl EntityBuilder<TestComponents> for Build {
    fn build(&mut self, e: BuildData, c: &mut TestComponents) {
        c.position.add(&e, self.0);
        c.team.add(&e, self.1);
        if self.2 {
            c.feature.add(&e, SomeFeature);
        }
    }
}

pub struct FirstChange;

impl EntityModifier<TestComponents> for FirstChange {
    fn modify(&mut self, e: ModifyData, c: &mut TestComponents) {
        assert_eq!(Some(Position { x: 5, y: 7 }), c.position.insert(&e, Position { x: -25, y: 76 }));
        assert_eq!(Some(Team(4)), c.team.remove(&e));
        assert!(!c.feature.has(&e));
        assert!(c.feature.insert(&e, SomeFeature).is_none());
    }
}

pub struct SecondChange;

impl EntityModifier<TestComponents> for SecondChange {
    fn modify(&mut self, e: ModifyData, c: &mut TestComponents) {
        assert_eq!(Position { x: -25, y: 76 }, *c.position.index(&e));
        assert_eq!(None, c.team.remove(&e));
        assert!(c.feature.insert(&e, SomeFeature).is_some());
    }
}

#[test]
fn test_general_1() {
    let mut world = World::<TestSystems>::new();

    // Entity builders
    let entity = world.data.create_entity(Build(Position { x: 5, y: 7 }, Team(4), false));
    world.data.create_entity(Build(Position { x: 6, y: 8 }, Team(3), true));
    world.update();

    // A passive system, run by hand
    world.systems.print_position.process(&mut world.data, &mut Ledger::new());
    assert_eq!(world.systems.print_position.interest_set().len(), 1);

    // Entity modifiers
    world.modify_entity(entity, FirstChange).unwrap();
    world.update();
    assert_eq!(world.systems.print_position.interest_set().len(), 2);
    world.systems.print_position.process(&mut world.data, &mut Ledger::new());
    world.modify_entity(entity, SecondChange).unwrap();

    // Iterating over the entities
    let mut all = world.entities();
    let mut n = 0;
    while let Some(e) = all.next() {
        assert!(world.data.components.position.has(&e));
        n += 1;
    }
    assert_eq!(n, 2);

    // Iterating with an aspect
    let mut with_team = world.entities().filter(Aspect::for_all(vec![TEAM]), &world.data.components);
    let mut m = 0;
    while let Some(e) = with_team.next() {
        assert!(world.data.components.team.has(&e));
        m += 1;
    }
    assert_eq!(m, 1);

    // Active systems
    world.update();
    assert_eq!(world.systems.hello_world.1, 3);

    // Changing a system
    world.systems.hello_world.0 = "Goodbye, World!";
    world.update();
    assert_eq!(world.systems.hello_world.0, "Goodbye, World!");
    assert_eq!(world.systems.hello_world.1, 4);
}
