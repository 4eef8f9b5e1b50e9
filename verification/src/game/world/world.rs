use crate::game::player::{Player, PlayerView};
use crate::game::world::chunk_manager::ChunkManager;
use crate::game::world::position::ChunkKey;
use vstd::prelude::*;

verus! {

/// The world as a client knows it: the chunks it was sent, and the other
/// players.
pub struct World {
    pub chunk_manager: ChunkManager,
    pub players: Vec<Player>,
}

/// The players of a vector as mathematical values, in order.
pub open spec fn players_view(players: Seq<Player>) -> Seq<PlayerView> {
    Seq::new(players.len(), |i: int| players[i]@)
}

impl Default for World {
    /// A world without chunks or players.
    fn default() -> (world: World)
        ensures
            world.chunk_manager@.dom() == Set::<ChunkKey>::empty(),
            world.players@.len() == 0,
    {
        let world = World { chunk_manager: ChunkManager::default(), players: Vec::new() };
        assert(world.chunk_manager@.dom() =~= Set::<ChunkKey>::empty());
        world
    }
}

} // verus!
