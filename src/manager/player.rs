//! Which entity each player controls.

use vstd::prelude::*;

use crate::aspect::Aspect;
use crate::entity::Entity;
use crate::manager::Manager;
use crate::world::{signature, ComponentManager};
use crate::{EditData, EntityData};

verus! {

/// Maps player numbers to entities; forgets a player's entity when it is removed, or when it
/// stops matching the aspect.
pub struct PlayerManager {
    players: Vec<Option<Entity>>,
    aspect: Aspect,
}

spec fn seat_view(v: Seq<Option<Entity>>) -> Map<usize, Entity> {
    Map::new(|i: usize| i < v.len() && v[i as int] is Some, |i: usize| v[i as int]->Some_0)
}

/// `after` is `before` without the players whose entity is `e`.
pub open spec fn without_entity(before: Map<usize, Entity>, after: Map<usize, Entity>, e: Entity) -> bool {
    &&& forall|i: usize| #[trigger] after.contains_key(i) == (before.contains_key(i) && before[i] != e)
    &&& forall|i: usize| #[trigger] after.contains_key(i) ==> after[i] == before[i]
}

impl PlayerManager {
    /// The entity of each player.
    pub closed spec fn view(&self) -> Map<usize, Entity> {
        seat_view(self.players@)
    }

    pub closed spec fn spec_aspect(&self) -> Aspect {
        self.aspect
    }

    /// A manager with no player, which keeps an entity whatever its components.
    pub fn new() -> (r: PlayerManager)
        ensures
            r@ == Map::<usize, Entity>::empty(),
            forall|sig| r.spec_aspect().matches(sig),
    {
        PlayerManager::with_aspect(Aspect::all())
    }

    /// A manager with no player, which forgets an entity that stops matching `aspect`.
    pub fn with_aspect(aspect: Aspect) -> (r: PlayerManager)
        ensures
            r@ == Map::<usize, Entity>::empty(),
            r.spec_aspect() == aspect,
    {
        let r = PlayerManager { players: Vec::new(), aspect };
        assert(r@ =~= Map::<usize, Entity>::empty());
        r
    }

    /// Gives `entity` to `player`, handing back the one the player had.
    pub fn add(&mut self, player: usize, entity: Entity) -> (r: Option<Entity>)
        ensures
            final(self)@ == old(self)@.insert(player, entity),
            final(self).spec_aspect() == old(self).spec_aspect(),
            r == old(self)@.get(player),
    {
        let ghost v0 = self.players@;
        while self.players.len() <= player
            invariant
                self.players@.len() <= player + 1 || self.players@.len() == v0.len(),
                self.players@.len() >= v0.len(),
                forall|k: int| 0 <= k < v0.len() ==> self.players@[k] == v0[k],
                forall|k: int| v0.len() <= k < self.players@.len() ==> self.players@[k] is None,
                self.aspect == old(self).aspect,
            decreases player + 1 - self.players@.len(),
        {
            self.players.push(None);
        }
        let previous = self.players[player];
        self.players.set(player, Some(entity));
        assert(self@ =~= old(self)@.insert(player, entity));
        previous
    }

    /// The entity of `player`, if any.
    pub fn get(&self, player: usize) -> (r: Option<Entity>)
        ensures
            r == self@.get(player),
    {
        if player < self.players.len() {
            self.players[player]
        } else {
            None
        }
    }

    /// Takes `player`'s entity away, handing it back.
    pub fn remove(&mut self, player: usize) -> (r: Option<Entity>)
        ensures
            final(self)@ == old(self)@.remove(player),
            final(self).spec_aspect() == old(self).spec_aspect(),
            r == old(self)@.get(player),
    {
        if player < self.players.len() {
            let previous = self.players[player];
            self.players.set(player, None);
            assert(self@ =~= old(self)@.remove(player));
            previous
        } else {
            assert(self@ =~= old(self)@.remove(player));
            None
        }
    }

    /// Takes `entity` away from every player that has it.
    fn forget(&mut self, entity: Entity)
        ensures
            without_entity(old(self)@, final(self)@, entity),
            final(self).spec_aspect() == old(self).spec_aspect(),
    {
        let mut k: usize = 0;
        while k < self.players.len()
            invariant
                k <= self.players@.len(),
                self.players@.len() == old(self).players@.len(),
                self.aspect == old(self).aspect,
                forall|i: int| 0 <= i < k ==> self.players@[i] == (if old(self).players@[i] == Some(entity) { None } else { old(self).players@[i] }),
                forall|i: int| k <= i < self.players@.len() ==> self.players@[i] == old(self).players@[i],
            decreases self.players@.len() - k,
        {
            if self.players[k] == Some(entity) {
                self.players.set(k, None);
            }
            k = k + 1;
        }
    }
}

impl<C: ComponentManager> Manager<C> for PlayerManager {
    fn reactivated(&mut self, entity: &EntityData, components: &C)
        ensures
            old(self).spec_aspect().matches(signature(components, entity.target().slot())) ==> final(self)@ == old(self)@,
            !old(self).spec_aspect().matches(signature(components, entity.target().slot())) ==> without_entity(
                old(self)@, final(self)@, entity.target().spec_entity()),
    {
        if !self.aspect.check(entity, components) {
            self.forget(entity.entity().entity());
        }
    }

    fn deactivated(&mut self, entity: &EntityData, components: &C)
        ensures
            without_entity(old(self)@, final(self)@, entity.target().spec_entity()),
    {
        self.forget(entity.entity().entity());
    }
}

} // verus!
