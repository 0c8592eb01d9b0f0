use ecs::buffer::Buffer;
use ecs::entity::{Entity, EntityManager, IndexPool};

#[test]
fn index_reuse_after_remove() {
    let mut m = EntityManager::new();
    let first = m.create();
    m.remove(&first);
    let second = m.create();
    assert_eq!(second.index(), first.index());
    assert_ne!(second.id(), first.id());
    assert!(!m.is_valid(&first));
    assert!(m.is_valid(&second));
}

#[test]
fn ids_start_at_one_and_grow() {
    let mut m = EntityManager::new();
    let a = m.create();
    let b = m.create();
    assert_eq!(a.id(), 1);
    assert_eq!(b.id(), 2);
    assert_eq!(a.index(), 0);
    assert_eq!(b.index(), 1);
    assert_eq!(m.count(), 2);
    m.remove(&a);
    assert_eq!(m.count(), 1);
    m.remove(&a);
    assert_eq!(m.count(), 1);
}

#[test]
fn most_recently_released_slot_comes_first() {
    let mut m = EntityManager::new();
    let a = m.create();
    let b = m.create();
    let _c = m.create();
    m.remove(&a);
    m.remove(&b);
    assert_eq!(m.create().index(), b.index());
    assert_eq!(m.create().index(), a.index());
    assert_eq!(m.create().index(), 3);
}

#[test]
fn nil_entity_is_never_valid() {
    let mut m = EntityManager::new();
    let _ = m.create();
    let nil = Entity::nil();
    assert_eq!(nil.id(), 0);
    assert_eq!(Entity::default(), nil);
    assert!(!m.is_valid(&nil));
}

#[test]
fn index_pool_counts_slots_in_use() {
    let mut p = IndexPool::new();
    assert_eq!(p.get_index(), 0);
    assert_eq!(p.get_index(), 1);
    assert_eq!(p.count(), 2);
    p.return_id(0);
    assert_eq!(p.count(), 1);
    assert_eq!(p.get_index(), 0);
    assert_eq!(p.get_index(), 2);
    assert_eq!(p.count(), 3);
}

#[test]
fn buffer_counts_records() {
    let mut b = Buffer::new(4);
    assert_eq!(b.len(), 0);
    assert_eq!(b.bytes_len(), 0);
    assert_eq!(b.stride(), 4);
    assert!(b.as_bytes().is_empty());
    b.set(1, &[1, 2, 3, 4]);
    assert_eq!(b.len(), 2);
    assert_eq!(b.bytes_len(), 8);
    assert_eq!(b.get(0), vec![0, 0, 0, 0]);
    assert_eq!(b.get(1), vec![1, 2, 3, 4]);
    b.set(0, &[9, 9, 9, 9]);
    assert_eq!(b.as_bytes(), &vec![9, 9, 9, 9, 1, 2, 3, 4]);
    b.clear();
    assert_eq!(b.len(), 0);
    assert_eq!(b.stride(), 4);
}
