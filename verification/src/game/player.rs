use crate::game::entity::player::EntityPlayer;
use crate::game::entity::{blank_entity, EntityStateView};
use vstd::prelude::*;

verus! {

/// A player: an id, a display name and an entity in the world. A player who
/// has not joined yet has the id 0 and the empty name.
#[derive(Debug, Clone, PartialEq, Eq)]
pub struct Player {
    pub uuid: u128,
    pub name: String,
    pub entity: EntityPlayer,
}

/// A player as a mathematical value.
pub struct PlayerView {
    pub uuid: u128,
    pub name: Seq<char>,
    pub entity: EntityStateView,
}

impl View for Player {
    type V = PlayerView;

    open spec fn view(&self) -> PlayerView {
        PlayerView { uuid: self.uuid, name: self.name@, entity: self.entity@ }
    }
}

/// A player who has not joined: the id 0, the empty name, a blank entity.
pub open spec fn blank_player() -> PlayerView {
    PlayerView { uuid: 0, name: Seq::empty(), entity: blank_entity() }
}

impl Player {
    /// A copy with the same id, name and entity.
    pub fn duplicate(&self) -> (copy: Player)
        ensures
            copy@ == self@,
    {
        Player {
            uuid: self.uuid,
            name: self.name.clone(),
            entity: EntityPlayer::new(self.entity.state.duplicate()),
        }
    }
}

impl Default for Player {
    fn default() -> (player: Player)
        ensures
            player@ == blank_player(),
    {
        Player { name: String::new(), uuid: 0, entity: EntityPlayer::default() }
    }
}

} // verus!
