use crate::game::player::{blank_player, Player, PlayerView};
use crate::game::world::position::ChunkPos;
use vstd::prelude::*;

verus! {

/// The server's record of one connected peer: the player, and the chunk
/// coordinate around which chunks were last streamed to it, which is `None`
/// as long as none were.
#[derive(Debug, Clone, PartialEq, Eq)]
pub struct ServerPlayer {
    pub player: Player,
    pub last_chunk: Option<ChunkPos>,
}

/// A peer's record as a mathematical value.
pub struct PeerState {
    pub player: PlayerView,
    pub last_chunk: Option<ChunkPos>,
}

impl View for ServerPlayer {
    type V = PeerState;

    open spec fn view(&self) -> PeerState {
        PeerState { player: self.player@, last_chunk: self.last_chunk }
    }
}

/// The record of a peer that has connected and not joined: no id, no name,
/// at the origin, never streamed to.
pub open spec fn fresh_peer() -> PeerState {
    PeerState { player: blank_player(), last_chunk: None }
}

impl ServerPlayer {
    /// A copy of the record.
    pub fn duplicate(&self) -> (copy: ServerPlayer)
        ensures
            copy@ == self@,
    {
        ServerPlayer { player: self.player.duplicate(), last_chunk: self.last_chunk }
    }
}

impl Default for ServerPlayer {
    fn default() -> (peer: ServerPlayer)
        ensures
            peer@ == fresh_peer(),
    {
        ServerPlayer { player: Player::default(), last_chunk: None }
    }
}

} // verus!
