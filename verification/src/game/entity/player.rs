use crate::game::entity::{blank_entity, Entity, EntityState, EntityStateView};
use vstd::prelude::*;

verus! {

/// The entity that stands for a player in the world.
#[derive(Debug, Clone, PartialEq, Eq)]
pub struct EntityPlayer {
    pub state: EntityState,
}

impl View for EntityPlayer {
    type V = EntityStateView;

    open spec fn view(&self) -> EntityStateView {
        self.state@
    }
}

impl EntityPlayer {
    pub fn new(state: EntityState) -> (entity: EntityPlayer)
        ensures
            entity.state == state,
    {
        EntityPlayer { state }
    }

}

impl Entity for EntityPlayer {
    open spec fn entity_state(&self) -> EntityState {
        self.state
    }

    fn state_mut(&mut self) -> (state: &mut EntityState) {
        &mut self.state
    }

    fn state(&self) -> (state: &EntityState) {
        &self.state
    }
}

impl Default for EntityPlayer {
    fn default() -> (entity: EntityPlayer)
        ensures
            entity@ == blank_entity(),
    {
        EntityPlayer { state: EntityState::default() }
    }
}

} // verus!
