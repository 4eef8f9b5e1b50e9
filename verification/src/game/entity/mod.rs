use crate::game::world::position::WorldPos;
use vstd::prelude::*;

pub mod player;

verus! {

/// What is known of an entity: the title shown for it and where it is.
#[derive(Debug, Clone, PartialEq, Eq)]
pub struct EntityState {
    pub title: Option<String>,
    pub position: WorldPos,
}

/// An entity's state as a mathematical value.
pub struct EntityStateView {
    pub title: Option<Seq<char>>,
    pub position: WorldPos,
}

impl View for EntityState {
    type V = EntityStateView;

    open spec fn view(&self) -> EntityStateView {
        EntityStateView {
            title: match self.title {
                Some(t) => Some(t@),
                None => None,
            },
            position: self.position,
        }
    }
}

/// The state of an entity without a title, at the origin.
pub open spec fn blank_entity() -> EntityStateView {
    EntityStateView { title: None, position: WorldPos { x: 0, y: 0, z: 0 } }
}

impl EntityState {
    /// A copy with the same title and position.
    pub fn duplicate(&self) -> (copy: EntityState)
        ensures
            copy@ == self@,
    {
        EntityState {
            title: match &self.title {
                Some(t) => Some(t.clone()),
                None => None,
            },
            position: self.position,
        }
    }
}

impl Default for EntityState {
    /// No title, at the origin.
    fn default() -> (state: EntityState)
        ensures
            state@ == blank_entity(),
    {
        EntityState { title: None, position: WorldPos { x: 0, y: 0, z: 0 } }
    }
}

/// Something in the world that has a state.
pub trait Entity {
    /// The state as a mathematical value.
    spec fn entity_state(&self) -> EntityState;

    /// The state, to be changed in place.
    fn state_mut(&mut self) -> (state: &mut EntityState)
        ensures
            *state == old(self).entity_state(),
            final(self).entity_state() == *final(state),
    ;

    /// The state.
    fn state(&self) -> (state: &EntityState)
        ensures
            *state == self.entity_state(),
    ;
}

} // verus!
