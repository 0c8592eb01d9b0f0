//! Named groups of entities.

use vstd::prelude::*;

use std::collections::HashMap;
use std::hash::Hash;

use crate::entity::Entity;
use crate::manager::Manager;
use crate::world::ComponentManager;
use crate::{EditData, EntityData};

verus! {

/// A key of a group manager.
pub trait GroupKey: Hash + Eq {}

impl<T: Hash + Eq> GroupKey for T {}

/// Groups of entities under keys; an entity leaves every group when it is removed.
pub struct GroupManager<Key> {
    index: HashMap<Key, usize>,
    lists: Vec<Vec<Entity>>,
}

/// `s` without `e`.
pub open spec fn without(s: Seq<Entity>, e: Entity) -> Seq<Entity> {
    s.filter(other_than(e))
}

/// Holds of every entity but `e`.
pub open spec fn other_than(e: Entity) -> spec_fn(Entity) -> bool {
    |x: Entity| x != e
}

impl<Key: GroupKey> GroupManager<Key> {
    /// The members of each group, in the order they were added.
    pub closed spec fn view(&self) -> Map<Key, Seq<Entity>> {
        Map::new(|k: Key| self.index@.contains_key(k), |k: Key| self.lists@[self.index@[k] as int]@)
    }

    /// Keys lead to distinct lists.
    pub closed spec fn wf(&self) -> bool {
        &&& forall|k: Key| #[trigger] self.index@.contains_key(k) ==> self.index@[k] < self.lists@.len()
        &&& forall|a: Key, b: Key| #[trigger] self.index@.contains_key(a) && #[trigger] self.index@.contains_key(b)
            && self.index@[a] == self.index@[b] ==> a == b
    }

    /// A manager with no group.
    pub fn new() -> (r: GroupManager<Key>)
        ensures
            r.wf(),
            r@ == Map::<Key, Seq<Entity>>::empty(),
    {
        let r = GroupManager { index: HashMap::new(), lists: Vec::new() };
        assert(r@ =~= Map::<Key, Seq<Entity>>::empty());
        r
    }

    /// Opens an empty group under `key`, unless one is there already. Holds for keys whose
    /// hashing and equality agree, as those of the integer types do.
    pub fn create(&mut self, key: Key)
        requires
            old(self).wf(),
        ensures
            vstd::std_specs::hash::obeys_key_model::<Key>() ==> {
                &&& final(self).wf()
                &&& final(self)@ == if old(self)@.contains_key(key) {
                    old(self)@
                } else {
                    old(self)@.insert(key, Seq::<Entity>::empty())
                }
            },
    {
        proof {
            broadcast use vstd::std_specs::hash::group_hash_axioms;
        }
        if !self.index.contains_key(&key) {
            let n = self.lists.len();
            self.index.insert(key, n);
            self.lists.push(Vec::new());
            proof {
                if vstd::std_specs::hash::obeys_key_model::<Key>() {
                    assert forall|k: Key| #[trigger] self.index@.contains_key(k) && k != key implies old(self).index@.contains_key(k) by {}
                    assert(self@ =~= old(self)@.insert(key, Seq::<Entity>::empty()));
                }
            }
        }
    }

    /// The members of the group under `key`, if there is one.
    pub fn get(&self, key: &Key) -> (r: Option<&Vec<Entity>>)
        requires
            self.wf(),
        ensures
            vstd::std_specs::hash::obeys_key_model::<Key>() ==> match r {
                Some(v) => self@.contains_key(*key) && v@ == self@[*key],
                None => !self@.contains_key(*key),
            },
    {
        proof {
            broadcast use vstd::std_specs::hash::group_hash_axioms;
        }
        match self.index.get(key) {
            Some(i) => {
                proof {
                    if vstd::std_specs::hash::obeys_key_model::<Key>() {
                        assert(self.index@.contains_key(*key));
                    }
                }
                if *i < self.lists.len() {
                    Some(&self.lists[*i])
                } else {
                    None
                }
            },
            None => None,
        }
    }

    /// The members of the group under `key`, to be changed in place.
    pub fn get_mut(&mut self, key: &Key) -> (r: Option<&mut Vec<Entity>>)
        requires
            old(self).wf(),
        ensures
            final(self).wf(),
            vstd::std_specs::hash::obeys_key_model::<Key>() ==> {
                &&& r is Some ==> {
                    &&& old(self)@.contains_key(*key)
                    &&& r.unwrap()@ == old(self)@[*key]
                    &&& final(self)@ == old(self)@.insert(*key, final(r.unwrap())@)
                }
                &&& r is None ==> !old(self)@.contains_key(*key) && final(self)@ == old(self)@
            },
    {
        proof {
            broadcast use vstd::std_specs::hash::group_hash_axioms;
        }
        match self.index.get(key) {
            Some(i) => {
                let i = *i;
                if i < self.lists.len() {
                    proof {
                        if vstd::std_specs::hash::obeys_key_model::<Key>() {
                            lemma_write_group(*self, *key);
                        }
                    }
                    Some(crate::component::vec_slot(&mut self.lists, i))
                } else {
                    None
                }
            },
            None => None,
        }
    }

    /// Closes the group under `key`, handing back its members.
    pub fn delete(&mut self, key: &Key) -> (r: Option<Vec<Entity>>)
        requires
            old(self).wf(),
        ensures
            vstd::std_specs::hash::obeys_key_model::<Key>() ==> {
                &&& final(self).wf()
                &&& final(self)@ == old(self)@.remove(*key)
                &&& match r {
                    Some(v) => old(self)@.contains_key(*key) && v@ == old(self)@[*key],
                    None => !old(self)@.contains_key(*key),
                }
            },
    {
        proof {
            broadcast use vstd::std_specs::hash::group_hash_axioms;
        }
        match self.index.remove(key) {
            Some(i) => {
                if i < self.lists.len() {
                    let mut members: Vec<Entity> = Vec::new();
                    std::mem::swap(&mut members, crate::component::vec_slot(&mut self.lists, i));
                    proof {
                        if vstd::std_specs::hash::obeys_key_model::<Key>() {
                            assert forall|k: Key| #[trigger] self.index@.contains_key(k) implies self.index@[k] != i by {
                                assert(old(self).index@.contains_key(k) && old(self).index@.contains_key(*key));
                            }
                            assert(self@ =~= old(self)@.remove(*key));
                        }
                    }
                    Some(members)
                } else {
                    proof {
                        if vstd::std_specs::hash::obeys_key_model::<Key>() {
                            assert(self@ =~= old(self)@.remove(*key));
                        }
                    }
                    None
                }
            },
            None => {
                proof {
                    if vstd::std_specs::hash::obeys_key_model::<Key>() {
                        assert(self@ =~= old(self)@.remove(*key));
                    }
                }
                None
            },
        }
    }

    /// Takes `entity` out of every group.
    fn forget(&mut self, entity: Entity)
        ensures
            old(self).wf() ==> final(self).wf(),
            final(self).index@ == old(self).index@,
            final(self).lists@.len() == old(self).lists@.len(),
            forall|i: int| 0 <= i < final(self).lists@.len() ==> #[trigger] final(self).lists@[i]@ == without(old(self).lists@[i]@, entity),
    {
        let mut k: usize = 0;
        while k < self.lists.len()
            invariant
                k <= self.lists@.len(),
                self.lists@.len() == old(self).lists@.len(),
                self.index@ == old(self).index@,
                forall|i: int| 0 <= i < k ==> #[trigger] self.lists@[i]@ == without(old(self).lists@[i]@, entity),
                forall|i: int| k <= i < self.lists@.len() ==> #[trigger] self.lists@[i] == old(self).lists@[i],
            decreases self.lists@.len() - k,
        {
            let mut kept: Vec<Entity> = Vec::new();
            let mut j: usize = 0;
            let ghost src = self.lists@[k as int]@;
            while j < self.lists[k].len()
                invariant
                    k < self.lists@.len(),
                    src == self.lists@[k as int]@,
                    j <= src.len(),
                    kept@ == without(src.subrange(0, j as int), entity),
                decreases src.len() - j,
            {
                let x = self.lists[k][j];
                proof {
                    assert(src.subrange(0, j + 1) =~= src.subrange(0, j as int).push(x));
                    src.subrange(0, j as int).lemma_filter_push(x, other_than(entity));
                }
                if x != entity {
                    kept.push(x);
                }
                j = j + 1;
            }
            proof {
                assert(src.subrange(0, src.len() as int) =~= src);
            }
            self.lists.set(k, kept);
            k = k + 1;
        }
    }
}

/// Writing the list of one key's group changes that group only.
proof fn lemma_write_group<Key: GroupKey>(g: GroupManager<Key>, key: Key)
    requires
        g.wf(),
        g.index@.contains_key(key),
    ensures
        forall|v: Vec<Entity>| #![trigger g.lists@.update(g.index@[key] as int, v)]
            Map::new(|k: Key| g.index@.contains_key(k), |k: Key| g.lists@.update(g.index@[key] as int, v)[g.index@[k] as int]@)
                == g@.insert(key, v@),
{
    assert forall|v: Vec<Entity>| #![trigger g.lists@.update(g.index@[key] as int, v)]
        Map::new(|k: Key| g.index@.contains_key(k), |k: Key| g.lists@.update(g.index@[key] as int, v)[g.index@[k] as int]@)
            == g@.insert(key, v@) by {
        assert(Map::new(|k: Key| g.index@.contains_key(k), |k: Key| g.lists@.update(g.index@[key] as int, v)[g.index@[k] as int]@)
            =~= g@.insert(key, v@));
    }
}

impl<C: ComponentManager, Key: GroupKey> Manager<C> for GroupManager<Key> {
    fn deactivated(&mut self, entity: &EntityData, components: &C)
        ensures
            old(self).wf() ==> final(self).wf() && final(self)@ == old(self)@.map_values(
                |s: Seq<Entity>| without(s, entity.target().spec_entity()),
            ),
    {
        self.forget(entity.entity().entity());
        proof {
            if old(self).wf() {
                assert(self@ =~= old(self)@.map_values(|s: Seq<Entity>| without(s, entity.target().spec_entity())));
            }
        }
    }
}

} // verus!
