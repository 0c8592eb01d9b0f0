//! Aspects: which component types an entity must have, may have, and must lack.

use vstd::prelude::*;

use crate::world::{lemma_signature, signature, ComponentId, ComponentManager};
use crate::EntityData;

verus! {

broadcast use lemma_signature;

/// Matches an entity that has every type of `all`, none of `none`, and, unless `any` is empty,
/// at least one of `any`.
pub struct Aspect {
    all: Vec<ComponentId>,
    any: Vec<ComponentId>,
    none: Vec<ComponentId>,
}

/// Whether a signature (the set of component types an entity has) meets the three requirements.
pub open spec fn meets(all: Set<ComponentId>, any: Set<ComponentId>, none: Set<ComponentId>, sig: Set<ComponentId>) -> bool {
    &&& all.subset_of(sig)
    &&& none.disjoint(sig)
    &&& (any == Set::<ComponentId>::empty() || exists|t: ComponentId| any.contains(t) && sig.contains(t))
}

impl Aspect {
    pub closed spec fn all_of(&self) -> Set<ComponentId> {
        self.all@.to_set()
    }

    pub closed spec fn any_of(&self) -> Set<ComponentId> {
        self.any@.to_set()
    }

    pub closed spec fn none_of(&self) -> Set<ComponentId> {
        self.none@.to_set()
    }

    pub open spec fn matches(&self, sig: Set<ComponentId>) -> bool {
        meets(self.all_of(), self.any_of(), self.none_of(), sig)
    }

    /// The aspect with no requirement, which matches every entity.
    pub fn all() -> (r: Aspect)
        ensures
            r.all_of() == Set::<ComponentId>::empty(),
            r.any_of() == Set::<ComponentId>::empty(),
            r.none_of() == Set::<ComponentId>::empty(),
            forall|sig: Set<ComponentId>| r.matches(sig),
    {
        let r = Aspect { all: Vec::new(), any: Vec::new(), none: Vec::new() };
        proof {
            assert(r.all@.to_set() =~= Set::<ComponentId>::empty());
            assert(r.any@.to_set() =~= Set::<ComponentId>::empty());
            assert(r.none@.to_set() =~= Set::<ComponentId>::empty());
        }
        r
    }

    /// An aspect that matches no entity: it asks for a type and for its absence.
    pub fn none() -> (r: Aspect)
        ensures
            forall|sig: Set<ComponentId>| !r.matches(sig),
    {
        let r = Aspect { all: vec![0], any: Vec::new(), none: vec![0] };
        proof {
            assert(r.all@.to_set().contains(0));
            assert(r.none@.to_set().contains(0));
        }
        r
    }

    /// The aspect with the three requirement sets given.
    pub fn new(all: Vec<ComponentId>, any: Vec<ComponentId>, none: Vec<ComponentId>) -> (r: Aspect)
        ensures
            r.all_of() == all@.to_set(),
            r.any_of() == any@.to_set(),
            r.none_of() == none@.to_set(),
    {
        Aspect { all, any, none }
    }

    /// The aspect that asks for every type of `types`.
    pub fn for_all(types: Vec<ComponentId>) -> (r: Aspect)
        ensures
            r.all_of() == types@.to_set(),
            r.any_of() == Set::<ComponentId>::empty(),
            r.none_of() == Set::<ComponentId>::empty(),
    {
        Aspect::all().with_all(types)
    }

    /// The aspect that asks for at least one type of `types`.
    pub fn for_any(types: Vec<ComponentId>) -> (r: Aspect)
        ensures
            r.all_of() == Set::<ComponentId>::empty(),
            r.any_of() == types@.to_set(),
            r.none_of() == Set::<ComponentId>::empty(),
    {
        Aspect::all().with_any(types)
    }

    /// The aspect that asks for the absence of every type of `types`.
    pub fn for_none(types: Vec<ComponentId>) -> (r: Aspect)
        ensures
            r.all_of() == Set::<ComponentId>::empty(),
            r.any_of() == Set::<ComponentId>::empty(),
            r.none_of() == types@.to_set(),
    {
        Aspect::all().with_none(types)
    }

    /// This aspect, asking also for every type of `types`.
    pub fn with_all(self, types: Vec<ComponentId>) -> (r: Aspect)
        ensures
            r.all_of() == self.all_of().union(types@.to_set()),
            r.any_of() == self.any_of(),
            r.none_of() == self.none_of(),
    {
        let Aspect { mut all, any, none } = self;
        let ghost before = all@;
        let mut more = types;
        all.append(&mut more);
        proof {
            vstd::seq_lib::seq_to_set_distributes_over_add(before, types@);
        }
        Aspect { all, any, none }
    }

    /// This aspect, with the types of `types` added to those of which it asks for one.
    pub fn with_any(self, types: Vec<ComponentId>) -> (r: Aspect)
        ensures
            r.all_of() == self.all_of(),
            r.any_of() == self.any_of().union(types@.to_set()),
            r.none_of() == self.none_of(),
    {
        let Aspect { all, mut any, none } = self;
        let ghost before = any@;
        let mut more = types;
        any.append(&mut more);
        proof {
            vstd::seq_lib::seq_to_set_distributes_over_add(before, types@);
        }
        Aspect { all, any, none }
    }

    /// This aspect, asking also for the absence of every type of `types`.
    pub fn with_none(self, types: Vec<ComponentId>) -> (r: Aspect)
        ensures
            r.all_of() == self.all_of(),
            r.any_of() == self.any_of(),
            r.none_of() == self.none_of().union(types@.to_set()),
    {
        let Aspect { all, any, mut none } = self;
        let ghost before = none@;
        let mut more = types;
        none.append(&mut more);
        proof {
            vstd::seq_lib::seq_to_set_distributes_over_add(before, types@);
        }
        Aspect { all, any, none }
    }

    /// Whether `sig` holds every type of `types`.
    fn holds_all<C: ComponentManager>(types: &Vec<ComponentId>, entity: &EntityData, components: &C) -> (r: bool)
        ensures
            r == types@.to_set().subset_of(signature(components, entity.target().slot())),
    {
        let ghost sig = signature(components, entity.target().slot());
        let mut k: usize = 0;
        while k < types.len()
            invariant
                k <= types@.len(),
                sig == signature(components, entity.target().slot()),
                forall|j: int| 0 <= j < k ==> sig.contains(#[trigger] types@[j]),
            decreases types@.len() - k,
        {
            if !components.has(types[k], entity) {
                proof {
                    assert(types@.to_set().contains(types@[k as int]));
                }
                return false;
            }
            k = k + 1;
        }
        proof {
            assert forall|t: ComponentId| types@.to_set().contains(t) implies sig.contains(t) by {
                let j = choose|j: int| 0 <= j < types@.len() && types@[j] == t;
            }
        }
        true
    }

    /// Whether `sig` holds some type of `types`.
    fn holds_any<C: ComponentManager>(types: &Vec<ComponentId>, entity: &EntityData, components: &C) -> (r: bool)
        ensures
            r == exists|t: ComponentId| types@.to_set().contains(t) && signature(components, entity.target().slot()).contains(t),
    {
        let ghost sig = signature(components, entity.target().slot());
        let mut k: usize = 0;
        while k < types.len()
            invariant
                k <= types@.len(),
                sig == signature(components, entity.target().slot()),
                forall|j: int| 0 <= j < k ==> !sig.contains(#[trigger] types@[j]),
            decreases types@.len() - k,
        {
            if components.has(types[k], entity) {
                proof {
                    assert(types@.to_set().contains(types@[k as int]));
                }
                return true;
            }
            k = k + 1;
        }
        proof {
            assert forall|t: ComponentId| types@.to_set().contains(t) implies !sig.contains(t) by {
                let j = choose|j: int| 0 <= j < types@.len() && types@[j] == t;
            }
        }
        false
    }

    /// Whether the entity's components meet the aspect.
    pub fn check<C: ComponentManager>(&self, entity: &EntityData, components: &C) -> (r: bool)
        ensures
            r == self.matches(signature(components, entity.target().slot())),
    {
        let ghost sig = signature(components, entity.target().slot());
        if !Self::holds_all(&self.all, entity, components) {
            return false;
        }
        if Self::holds_any(&self.none, entity, components) {
            proof {
                let t = choose|t: ComponentId| self.none_of().contains(t) && sig.contains(t);
                assert(!self.none_of().disjoint(sig));
            }
            return false;
        }
        if self.any.len() == 0 {
            proof {
                assert(self.any_of() =~= Set::<ComponentId>::empty());
            }
            return true;
        }
        proof {
            assert(self.any_of().contains(self.any@[0]));
        }
        Self::holds_any(&self.any, entity, components)
    }
}

/// What `check` decides, in the terms of set algebra: every required type is present (or none is
/// required), no excluded type is present, and some optional type is present (or none is listed).
pub proof fn lemma_aspect_algebra(aspect: Aspect, sig: Set<ComponentId>)
    ensures
        aspect.matches(sig) <==> {
            &&& (aspect.all_of().subset_of(sig) || aspect.all_of() == Set::<ComponentId>::empty())
            &&& aspect.none_of().intersect(sig) == Set::<ComponentId>::empty()
            &&& (aspect.any_of().intersect(sig) != Set::<ComponentId>::empty() || aspect.any_of() == Set::<ComponentId>::empty())
        },
{
    let e = Set::<ComponentId>::empty();
    if aspect.all_of() == e {
        assert(aspect.all_of().subset_of(sig));
    }
    if aspect.none_of().intersect(sig) != e {
        assert(!(aspect.none_of().intersect(sig) =~= e));
        let t = choose|t: ComponentId| aspect.none_of().intersect(sig).contains(t);
        assert(aspect.none_of().contains(t) && sig.contains(t));
    }
    if aspect.none_of().intersect(sig) == e {
        assert forall|t: ComponentId| !(aspect.none_of().contains(t) && sig.contains(t)) by {
            if aspect.none_of().contains(t) && sig.contains(t) {
                assert(aspect.none_of().intersect(sig).contains(t));
            }
        }
    }
    if aspect.none_of().disjoint(sig) {
        assert(aspect.none_of().intersect(sig) =~= e);
    }
    if exists|t: ComponentId| aspect.any_of().contains(t) && sig.contains(t) {
        let t = choose|t: ComponentId| aspect.any_of().contains(t) && sig.contains(t);
        assert(aspect.any_of().intersect(sig).contains(t));
    }
    if aspect.any_of().intersect(sig) != e {
        assert(!(aspect.any_of().intersect(sig) =~= e));
        let t = choose|t: ComponentId| aspect.any_of().intersect(sig).contains(t);
        assert(aspect.any_of().contains(t) && sig.contains(t));
    }
}

} // verus!
