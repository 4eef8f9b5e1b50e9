use crate::server::world::chunk_manager::{empty_store, ServerChunkManager};
use vstd::prelude::*;

verus! {

/// The world as the server holds it.
pub struct ServerWorld {
    pub chunk_manager: ServerChunkManager,
}

impl Default for ServerWorld {
    fn default() -> (world: ServerWorld)
        ensures
            world.chunk_manager@ == empty_store(),
    {
        ServerWorld { chunk_manager: ServerChunkManager::default() }
    }
}

} // verus!
