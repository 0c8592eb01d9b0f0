use ecs::aspect::Aspect;
use ecs::component::{ComponentList, EntityBuilder, EntityModifier};
use ecs::entity::{EntityIter, IndexedEntity};
use ecs::system::{EntityProcess, EntitySystem, Inbox, Ledger, Process, System};
use ecs::world::{ComponentManager, DataHelper, EcsError, SystemManager, World};
use ecs::{BuildData, EditData, EntityData, ModifyData};

const POSITION: usize = 0;
const VELOCITY: usize = 1;
const HEALTH: usize = 2;
const FLAG: usize = 3;

pub struct Comps {
    pub position: ComponentList<(i32, i32)>,
    pub velocity: ComponentList<(i32, i32)>,
    pub health: ComponentList<u32>,
    pub flag: ComponentList<bool>,
}

impl ComponentManager for Comps {
    fn new() -> Self {
        Comps {
            position: ComponentList::hot(),
            velocity: ComponentList::hot(),
            health: ComponentList::cold(),
            flag: ComponentList::cold(),
        }
    }

    fn holds(&self, ty: usize, index: usize) -> bool {
        match ty {
            POSITION => self.position.contains_slot(index),
            VELOCITY => self.velocity.contains_slot(index),
            HEALTH => self.health.contains_slot(index),
            FLAG => self.flag.contains_slot(index),
            _ => false,
        }
    }

    fn has(&self, ty: usize, entity: &EntityData) -> bool {
        match ty {
            POSITION => self.position.has(entity),
            VELOCITY => self.velocity.has(entity),
            HEALTH => self.health.has(entity),
            FLAG => self.flag.has(entity),
            _ => false,
        }
    }

    fn remove_all(&mut self, entity: &IndexedEntity) {
        self.position.clear(entity);
        self.velocity.clear(entity);
        self.health.clear(entity);
        self.flag.clear(entity);
    }
}

/// Adds the components it holds to a new entity.
pub struct Build {
    pub position: Option<(i32, i32)>,
    pub velocity: Option<(i32, i32)>,
    pub health: Option<u32>,
}

impl EntityBuilder<Comps> for Build {
    fn build(&mut self, entity: BuildData, c: &mut Comps) {
        if let Some(p) = self.position {
            c.position.add(&entity, p);
        }
        if let Some(v) = self.velocity {
            c.velocity.add(&entity, v);
        }
        if let Some(h) = self.health {
            c.health.add(&entity, h);
        }
    }
}

fn build(position: Option<(i32, i32)>, velocity: Option<(i32, i32)>, health: Option<u32>) -> Build {
    Build { position, velocity, health }
}

pub struct SetFlag;

impl EntityModifier<Comps> for SetFlag {
    fn modify(&mut self, entity: ModifyData, c: &mut Comps) {
        c.flag.insert(&entity, true);
    }
}

pub struct DropVelocity;

impl EntityModifier<Comps> for DropVelocity {
    fn modify(&mut self, entity: ModifyData, c: &mut Comps) {
        c.velocity.remove(&entity);
    }
}

/// Moves every entity it follows by its velocity, and counts what it is told.
pub struct Mover {
    pub activated: u32,
    pub deactivated: u32,
}

impl System for Mover {
    type Components = Comps;
    type Services = ();

    fn activated(&mut self, _: &EntityData, _: &Comps, _: &mut Inbox) {
        self.activated += 1;
    }

    fn deactivated(&mut self, _: &EntityData, _: &Comps, _: &mut Inbox) {
        self.deactivated += 1;
    }
}

impl EntityProcess for Mover {
    fn process(&mut self, entities: EntityIter, data: &mut DataHelper<Comps, ()>, _: &mut Ledger) {
        let mut entities = entities;
        while let Some(e) = entities.next() {
            // A modification waiting to be announced may have taken the velocity away.
            if let Some(v) = data.components.velocity.get(&e) {
                let p = data.components.position.index_mut(&e);
                p.0 += v.0;
                p.1 += v.1;
            }
        }
    }
}

pub struct Systems {
    pub movers: EntitySystem<Mover>,
}

impl SystemManager for Systems {
    type Components = Comps;
    type Services = ();

    fn new() -> Self {
        Systems {
            movers: EntitySystem::new(
                Mover { activated: 0, deactivated: 0 },
                Aspect::for_all(vec![POSITION, VELOCITY]),
            ),
        }
    }

    fn activated(&mut self, entity: EntityData, c: &Comps) {
        self.movers.activated(&entity, c, &mut Inbox::new());
    }

    fn reactivated(&mut self, entity: EntityData, c: &Comps) {
        self.movers.reactivated(&entity, c, &mut Inbox::new());
    }

    fn deactivated(&mut self, entity: EntityData, c: &Comps) {
        self.movers.deactivated(&entity, c, &mut Inbox::new());
    }

    fn update(&mut self, data: &mut DataHelper<Comps, ()>) {
        if self.movers.is_active() {
            self.movers.process(data, &mut Ledger::new());
        }
    }
}

fn data_of(world: &World<Systems>, e: &ecs::Entity) -> EntityData {
    world.data.entity_data(e).unwrap()
}

#[test]
fn aspect_all_of_position_and_velocity() {
    let mut world = World::<Systems>::new();
    let full = world.data.create_entity(build(Some((0, 0)), Some((1, 1)), Some(10)));
    let only_position = world.data.create_entity(build(Some((0, 0)), None, None));
    let aspect = Aspect::for_all(vec![POSITION, VELOCITY]);
    assert!(aspect.check(&data_of(&world, &full), &world.data.components));
    assert!(!aspect.check(&data_of(&world, &only_position), &world.data.components));
}

#[test]
fn aspect_any_and_none() {
    let mut world = World::<Systems>::new();
    let a = world.data.create_entity(build(Some((0, 0)), None, Some(3)));
    let b = world.data.create_entity(build(None, Some((1, 0)), None));
    let c = world.data.create_entity(build(None, None, None));
    let comps = &world.data.components;
    let any = Aspect::for_any(vec![HEALTH, VELOCITY]);
    assert!(any.check(&data_of(&world, &a), comps));
    assert!(any.check(&data_of(&world, &b), comps));
    assert!(!any.check(&data_of(&world, &c), comps));
    let none = Aspect::for_none(vec![HEALTH]);
    assert!(!none.check(&data_of(&world, &a), comps));
    assert!(none.check(&data_of(&world, &b), comps));
    let mixed = Aspect::for_all(vec![POSITION]).with_none(vec![VELOCITY]).with_any(vec![HEALTH, FLAG]);
    assert!(mixed.check(&data_of(&world, &a), comps));
    assert!(!mixed.check(&data_of(&world, &b), comps));
    assert!(Aspect::all().check(&data_of(&world, &c), comps));
    assert!(!Aspect::none().check(&data_of(&world, &a), comps));
}

#[test]
fn interest_sets_follow_updates() {
    let mut world = World::<Systems>::new();
    let moving = world.data.create_entity(build(Some((0, 0)), Some((1, 2)), None));
    let still = world.data.create_entity(build(Some((5, 5)), None, None));
    world.update();
    let set = world.systems.movers.interest_set();
    assert_eq!(set.len(), 1);
    assert!(set.contains(&data_of(&world, &moving)));
    assert!(!set.contains(&data_of(&world, &still)));

    world.modify_entity(moving, DropVelocity).unwrap();
    world.update();
    assert_eq!(world.systems.movers.interest_set().len(), 0);

    world.data.remove_entity(still).unwrap();
    world.update();
    assert!(!world.data.is_valid(&still));
    assert_eq!(world.systems.movers.interest_set().len(), 0);
}

#[test]
fn systems_run_before_requests_apply() {
    let mut world = World::<Systems>::new();
    let e = world.data.create_entity(build(Some((0, 0)), Some((1, 0)), None));
    world.update();
    // The first pass ran before the entity was announced.
    assert_eq!(world.data.components.position.get(&data_of(&world, &e)), Some((0, 0)));
    world.update();
    assert_eq!(world.data.components.position.get(&data_of(&world, &e)), Some((1, 0)));
    world.update();
    assert_eq!(world.data.components.position.get(&data_of(&world, &e)), Some((2, 0)));
}

#[test]
fn storage_is_purged_before_slot_reuse() {
    let mut world = World::<Systems>::new();
    let a = world.data.create_entity(build(None, None, Some(5)));
    assert_eq!(world.data.components.health.get(&data_of(&world, &a)), Some(5));
    world.data.remove_entity(a).unwrap();
    world.update();
    let b = world.data.create_entity(build(None, None, None));
    assert_eq!(b.index(), a.index());
    assert_ne!(b.id(), a.id());
    let d = data_of(&world, &b);
    assert!(!world.data.components.health.has(&d));
    assert_eq!(world.data.components.health.get(&d), None);
}

#[test]
fn build_modify_remove_in_one_cycle() {
    let mut world = World::<Systems>::new();
    let e1 = world.data.create_entity(build(Some((0, 0)), Some((1, 1)), None));
    world.data.modify_entity(e1, SetFlag).unwrap();
    assert_eq!(world.data.components.flag.get(&data_of(&world, &e1)), Some(true));
    world.data.remove_entity(e1).unwrap();
    world.update();
    assert!(!world.data.is_valid(&e1));
    let reuse = world.data.create_entity(build(None, None, None));
    assert_eq!(reuse.index(), e1.index());
    let d = data_of(&world, &reuse);
    assert!(!world.data.components.flag.has(&d));
    assert!(!world.data.components.position.has(&d));
    assert_eq!(world.systems.movers.interest_set().len(), 0);
}

#[test]
fn leaving_the_aspect_deactivates_once() {
    let mut world = World::<Systems>::new();
    let e = world.data.create_entity(build(Some((0, 0)), Some((1, 1)), None));
    world.update();
    assert_eq!(world.systems.movers.inner.activated, 1);
    assert_eq!(world.systems.movers.inner.deactivated, 0);
    world.modify_entity(e, DropVelocity).unwrap();
    world.update();
    assert_eq!(world.systems.movers.inner.activated, 1);
    assert_eq!(world.systems.movers.inner.deactivated, 1);
}

#[test]
fn reactivation_by_default_leaves_and_rejoins() {
    let mut world = World::<Systems>::new();
    let e = world.data.create_entity(build(Some((0, 0)), Some((1, 1)), None));
    world.update();
    world.data.modify_entity(e, SetFlag).unwrap();
    world.update();
    assert_eq!(world.systems.movers.inner.activated, 2);
    assert_eq!(world.systems.movers.inner.deactivated, 1);
    assert_eq!(world.systems.movers.interest_set().len(), 1);
}

#[test]
fn round_trip_get_set() {
    let mut world = World::<Systems>::new();
    let e = world.data.create_entity(build(None, None, Some(7)));
    let d = data_of(&world, &e);
    assert_eq!(world.data.components.health.get(&d), Some(7));
    assert_eq!(world.data.components.health.set(&d, 9), Some(7));
    assert_eq!(world.data.components.health.get(&d), Some(9));
    assert_eq!(world.data.components.position.set(&d, (3, 4)), None);
    assert_eq!(world.data.components.position.get(&d), Some((3, 4)));
    assert_eq!(*world.data.components.position.index(&d), (3, 4));
    if let Some(p) = world.data.components.position.borrow(&d) {
        p.0 = 30;
    }
    assert_eq!(world.data.components.position.get(&d), Some((30, 4)));
}

#[test]
fn requests_on_removed_entity_are_refused() {
    let mut world = World::<Systems>::new();
    let e = world.data.create_entity(build(None, None, None));
    world.data.remove_entity(e).unwrap();
    world.update();
    assert_eq!(world.data.modify_entity(e, SetFlag), Err(EcsError::InvalidEntity(e)));
    assert_eq!(world.data.remove_entity(e), Err(EcsError::InvalidEntity(e)));
    assert!(world.data.entity_data(&e).is_none());
}

#[test]
fn entities_iterate_and_filter() {
    let mut world = World::<Systems>::new();
    let a = world.data.create_entity(build(Some((0, 0)), None, Some(1)));
    let b = world.data.create_entity(build(Some((0, 0)), None, None));
    let c = world.data.create_entity(build(None, None, Some(2)));
    let mut all = world.entities();
    let mut seen = Vec::new();
    while let Some(d) = all.next() {
        seen.push(d.entity().entity());
    }
    assert_eq!(seen, vec![a, b, c]);
    let mut healthy = world.entities().filter(Aspect::for_all(vec![HEALTH]), &world.data.components);
    let mut found = Vec::new();
    while let Some(d) = healthy.next() {
        found.push(d.entity().entity());
    }
    assert_eq!(found, vec![a, c]);
}

pub struct Pairs {
    pub last: std::rc::Rc<std::cell::Cell<(usize, usize)>>,
}

impl System for Pairs {
    type Components = Comps;
    type Services = ();
}

impl ecs::system::InteractProcess for Pairs {
    fn process(&mut self, first: EntityIter, second: EntityIter, _: &mut DataHelper<Comps, ()>, _: &mut Ledger) {
        let (mut first, mut second) = (first, second);
        let (mut a, mut b) = (0, 0);
        while first.next().is_some() {
            a += 1;
        }
        while second.next().is_some() {
            b += 1;
        }
        self.last.set((a, b));
    }
}

#[test]
fn interact_system_keeps_two_groups() {
    let mut world = World::<Systems>::new();
    let mover = world.data.create_entity(build(Some((0, 0)), Some((1, 1)), None));
    let target = world.data.create_entity(build(Some((0, 0)), None, Some(3)));
    let last = std::rc::Rc::new(std::cell::Cell::new((0, 0)));
    let mut sys = ecs::system::InteractSystem::new(
        Pairs { last: last.clone() },
        Aspect::for_all(vec![VELOCITY]),
        Aspect::for_all(vec![HEALTH]),
    );
    let dm = data_of(&world, &mover);
    let dt = data_of(&world, &target);
    sys.activated(&dm, &world.data.components, &mut Inbox::new());
    sys.activated(&dt, &world.data.components, &mut Inbox::new());
    sys.process(&mut world.data, &mut Ledger::new());
    assert_eq!(last.get(), (1, 1));
    sys.deactivated(&dm, &world.data.components, &mut Inbox::new());
    sys.process(&mut world.data, &mut Ledger::new());
    assert_eq!(last.get(), (0, 1));
}

/// Keeps, for each entity with health, the health it had when it joined, and sums them.
pub struct Tally {
    pub total: std::rc::Rc<std::cell::Cell<u32>>,
}

impl System for Tally {
    type Components = Comps;
    type Services = ();
}

impl ecs::system::DataProcess<u32> for Tally {
    fn init(&self, entity: &EntityData, c: &Comps) -> u32 {
        c.health.get(entity).unwrap_or(0)
    }

    fn process(&mut self, entries: &mut Vec<(EntityData, u32)>, _: &mut DataHelper<Comps, ()>, _: &mut Ledger) {
        self.total.set(entries.iter().map(|e| e.1).sum());
    }
}

#[test]
fn data_system_keeps_data_per_entity() {
    let mut world = World::<Systems>::new();
    let a = world.data.create_entity(build(None, None, Some(4)));
    let b = world.data.create_entity(build(None, None, Some(6)));
    let c = world.data.create_entity(build(Some((0, 0)), None, None));
    let total = std::rc::Rc::new(std::cell::Cell::new(0));
    let mut sys = ecs::system::DataSystem::new(Tally { total: total.clone() }, Aspect::for_all(vec![HEALTH]));
    for e in [a, b, c] {
        let d = data_of(&world, &e);
        sys.activated(&d, &world.data.components, &mut Inbox::new());
    }
    sys.process(&mut world.data, &mut Ledger::new());
    assert_eq!(total.get(), 10);
    let da = data_of(&world, &a);
    sys.deactivated(&da, &world.data.components, &mut Inbox::new());
    sys.process(&mut world.data, &mut Ledger::new());
    assert_eq!(total.get(), 6);
}

#[test]
fn system_list_tells_and_runs_every_system() {
    let mut world = World::<ecs::system::SystemList<EntitySystem<Mover>>>::new();
    world.systems = ecs::system::SystemList::with(vec![
        EntitySystem::new(Mover { activated: 0, deactivated: 0 }, Aspect::for_all(vec![POSITION, VELOCITY])),
        EntitySystem::new(Mover { activated: 0, deactivated: 0 }, Aspect::for_all(vec![HEALTH])),
    ]);
    let e = world.data.create_entity(build(Some((0, 0)), Some((2, 3)), None));
    world.update();
    world.update();
    let d = world.data.entity_data(&e).unwrap();
    assert_eq!(world.data.components.position.get(&d), Some((2, 3)));
    assert_eq!(world.systems.systems()[0].inner.activated, 1);
    assert_eq!(world.systems.systems()[1].inner.activated, 0);
    world.data.remove_entity(e).unwrap();
    world.update();
    assert_eq!(world.systems.systems()[0].inner.deactivated, 1);
    assert!(!world.data.is_valid(&e));
}
