use crate::game::world::chunk::Chunk;
use crate::game::world::position::{ChunkPos, WorldPos};
use crate::game::world::BlockId;
use vstd::prelude::*;

verus! {

/// A request whose answer has a type of its own.
pub trait Respondable {
    type Response;
}

/// What the server sends to a client.
#[derive(Debug, Clone, PartialEq, Eq)]
pub enum ServerPacket {
    ErrorServerPacket(ErrorServerPacket),
    ClientJoinSuccessServerPacket(ClientJoinSuccessServerPacket),
    PlayerJoinServerPacket(PlayerJoinServerPacket),
    PlayerMoveServerPacket(PlayerMoveServerPacket),
    InitialChunkDataServerPacket(InitialChunkDataServerPacket),
}

/// Why the server turned a request down.
#[derive(Debug, Clone, Copy, PartialEq, Eq, Structural)]
pub enum ServerError {
    /// Another connected player already has the name.
    PlayerLoggedIn,
}

/// One entry of the roster that a joining player receives.
#[derive(Debug, Clone, PartialEq, Eq)]
pub struct InitialPlayerData {
    pub uuid: u128,
    pub name: String,
    pub position: WorldPos,
}

#[derive(Debug, Clone, PartialEq, Eq)]
pub struct ErrorServerPacket {
    pub error: ServerError,
}

#[derive(Debug, Clone, PartialEq, Eq)]
pub struct ClientJoinSuccessServerPacket {
    pub uuid: u128,
    pub position: WorldPos,
    pub players: Vec<InitialPlayerData>,
}

#[derive(Debug, Clone, PartialEq, Eq)]
pub struct PlayerJoinServerPacket {
    pub uuid: u128,
    pub name: String,
    pub position: WorldPos,
}

#[derive(Debug, Clone, PartialEq, Eq)]
pub struct PlayerMoveServerPacket {
    pub uuid: u128,
    pub position: WorldPos,
}

#[derive(Debug, Clone, PartialEq, Eq)]
pub struct InitialChunkDataServerPacket {
    pub chunk: Chunk,
    pub position: ChunkPos,
}

/// What a client sends to the server.
#[derive(Debug, Clone, PartialEq, Eq)]
pub enum ClientPacket {
    ClientJoinClientPacket(ClientJoinClientPacket),
    ClientMovePacket(ClientMovePacket),
}

#[derive(Debug, Clone, PartialEq, Eq)]
pub struct ClientJoinClientPacket {
    pub name: String,
}

#[derive(Debug, Clone, PartialEq, Eq)]
pub struct ClientMovePacket {
    pub position: WorldPos,
}

impl Respondable for ClientJoinClientPacket {
    type Response = ClientJoinSuccessServerPacket;
}

/// A roster entry as a mathematical value.
pub struct PlayerEntry {
    pub uuid: u128,
    pub name: Seq<char>,
    pub position: WorldPos,
}

/// A server packet as a mathematical value.
pub enum ServerMessage {
    Error { error: ServerError },
    JoinSuccess { uuid: u128, position: WorldPos, players: Seq<PlayerEntry> },
    PlayerJoin { uuid: u128, name: Seq<char>, position: WorldPos },
    PlayerMove { uuid: u128, position: WorldPos },
    ChunkData { blocks: Seq<BlockId>, coord: ChunkPos },
}

/// A client packet as a mathematical value.
pub enum ClientMessage {
    Join { name: Seq<char> },
    Move { position: WorldPos },
}

impl View for InitialPlayerData {
    type V = PlayerEntry;

    open spec fn view(&self) -> PlayerEntry {
        PlayerEntry { uuid: self.uuid, name: self.name@, position: self.position }
    }
}

/// The roster entries of a vector, in order.
pub open spec fn roster_view(players: Seq<InitialPlayerData>) -> Seq<PlayerEntry> {
    Seq::new(players.len(), |i: int| players[i]@)
}

impl View for ServerPacket {
    type V = ServerMessage;

    open spec fn view(&self) -> ServerMessage {
        match self {
            ServerPacket::ErrorServerPacket(p) => ServerMessage::Error { error: p.error },
            ServerPacket::ClientJoinSuccessServerPacket(p) => ServerMessage::JoinSuccess {
                uuid: p.uuid,
                position: p.position,
                players: roster_view(p.players@),
            },
            ServerPacket::PlayerJoinServerPacket(p) => ServerMessage::PlayerJoin {
                uuid: p.uuid,
                name: p.name@,
                position: p.position,
            },
            ServerPacket::PlayerMoveServerPacket(p) => ServerMessage::PlayerMove {
                uuid: p.uuid,
                position: p.position,
            },
            ServerPacket::InitialChunkDataServerPacket(p) => ServerMessage::ChunkData {
                blocks: p.chunk@,
                coord: p.position,
            },
        }
    }
}

impl View for ClientPacket {
    type V = ClientMessage;

    open spec fn view(&self) -> ClientMessage {
        match self {
            ClientPacket::ClientJoinClientPacket(p) => ClientMessage::Join { name: p.name@ },
            ClientPacket::ClientMovePacket(p) => ClientMessage::Move { position: p.position },
        }
    }
}

} // verus!
