use std::cell::Cell;
use std::rc::Rc;

use ecs::system::{IntervalSystem, LazySystem, Ledger, Process, System};
use ecs::world::DataHelper;

pub struct Counter(pub Rc<Cell<u32>>);

impl System for Counter {
    type Components = ();
    type Services = ();
}

impl Process for Counter {
    fn process(&mut self, _: &mut DataHelper<(), ()>, _: &mut Ledger) {
        self.0.set(self.0.get() + 1);
    }
}

fn counter() -> (Counter, Rc<Cell<u32>>) {
    let runs = Rc::new(Cell::new(0));
    (Counter(runs.clone()), runs)
}

pub struct Idle;

impl System for Idle {
    type Components = ();
    type Services = ();

    fn is_active(&self) -> bool {
        false
    }
}

impl Process for Idle {
    fn process(&mut self, _: &mut DataHelper<(), ()>, _: &mut Ledger) {}
}

#[test]
fn interval_system_runs_every_nth_update() {
    let mut data = DataHelper::<(), ()>::new();
    let (inner, runs) = counter();
    let mut sys = IntervalSystem::new(inner, 3);
    let mut seen = Vec::new();
    for _ in 0..7 {
        sys.process(&mut data, &mut Ledger::new());
        seen.push(runs.get());
    }
    assert_eq!(seen, vec![0, 0, 1, 1, 1, 2, 2]);
    assert!(sys.is_active());
}

#[test]
fn interval_zero_never_runs() {
    let mut data = DataHelper::<(), ()>::new();
    let (inner, runs) = counter();
    let mut sys = IntervalSystem::new(inner, 0);
    for _ in 0..300 {
        sys.process(&mut data, &mut Ledger::new());
    }
    assert_eq!(runs.get(), 0);
}

#[test]
fn lazy_system_initialises_once() {
    let mut sys: LazySystem<Counter> = LazySystem::new();
    let mut data = DataHelper::<(), ()>::new();
    sys.process(&mut data, &mut Ledger::new());
    assert!(!sys.is_initialised());
    assert!(!sys.is_active());
    let (first, first_runs) = counter();
    let (second, second_runs) = counter();
    let (third, third_runs) = counter();
    assert!(!sys.init(first));
    assert!(sys.is_initialised());
    assert!(sys.is_active());
    assert!(sys.init(second));
    sys.process(&mut data, &mut Ledger::new());
    assert_eq!(first_runs.get(), 1);
    assert_eq!(second_runs.get(), 0);
    assert!(sys.init_override(third));
    sys.process(&mut data, &mut Ledger::new());
    assert_eq!(first_runs.get(), 1);
    assert_eq!(third_runs.get(), 1);
}

#[test]
fn lazy_system_reports_inner_activity() {
    let mut sys: LazySystem<Idle> = LazySystem::new();
    assert!(!sys.init_override(Idle));
    assert!(!sys.is_active());
}

