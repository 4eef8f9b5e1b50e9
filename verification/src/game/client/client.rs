use crate::game::client::chunk_renderer::ChunkRenderer;
use crate::game::client::mesher::Vertex;
use crate::game::entity::player::EntityPlayer;
use crate::game::entity::{EntityState, EntityStateView};
use crate::game::network::packet::{
    ClientJoinClientPacket, ClientMessage, ClientMovePacket, ClientPacket, InitialPlayerData,
    PlayerEntry, ServerMessage, ServerPacket, roster_view,
};
use crate::game::player::{blank_player, Player, PlayerView};
use crate::game::world::chunk::Chunk;
use crate::game::world::position::{key_of, ChunkKey, ChunkPos, ChunkVec3Ext, WorldPos};
use crate::game::world::world::{players_view, World};
use crate::game::world::BlockId;
use crate::server::stream::{view_volume, volume_chunks};
use vstd::prelude::*;

verus! {

/// How far around the player a client meshes chunks, horizontally.
pub const HORIZONTAL_RENDER_DISTANCE: usize = 2;

/// How far around the player a client meshes chunks, vertically.
pub const VERTICAL_RENDER_DISTANCE: usize = 4;

/// A chunk handed to the mesher: where it is, and a copy of its blocks.
#[derive(Debug, Clone, PartialEq, Eq)]
pub struct MeshJob {
    pub position: ChunkPos,
    pub blocks: Vec<BlockId>,
}

/// A mesh job as a mathematical value.
pub struct MeshJobView {
    pub position: ChunkPos,
    pub blocks: Seq<BlockId>,
}

impl View for MeshJob {
    type V = MeshJobView;

    open spec fn view(&self) -> MeshJobView {
        MeshJobView { position: self.position, blocks: self.blocks@ }
    }
}

/// The jobs of a vector, in order.
pub open spec fn jobs_view(jobs: Seq<MeshJob>) -> Seq<MeshJobView> {
    Seq::new(jobs.len(), |i: int| jobs[i]@)
}

/// A client: the world as it knows it, its own player, and the meshes it
/// holds.
pub struct Client {
    pub world: World,
    pub player: Player,
    pub chunk_renderer: ChunkRenderer,
}

/// A client's state as a mathematical value.
pub struct ClientState {
    pub chunks: Map<ChunkKey, Seq<BlockId>>,
    pub meshes: Map<ChunkKey, Seq<Vertex>>,
    pub players: Seq<PlayerView>,
    pub player: PlayerView,
}

impl View for Client {
    type V = ClientState;

    open spec fn view(&self) -> ClientState {
        ClientState {
            chunks: self.world.chunk_manager@,
            meshes: self.chunk_renderer@,
            players: players_view(self.world.players@),
            player: self.player@,
        }
    }
}

/// The player that a roster entry tells of: the entry's id, name and
/// position, with the name as title.
pub open spec fn player_of(entry: PlayerEntry) -> PlayerView {
    PlayerView {
        uuid: entry.uuid,
        name: entry.name,
        entity: EntityStateView { title: Some(entry.name), position: entry.position },
    }
}

/// `player` at `position`.
pub open spec fn player_at(player: PlayerView, position: WorldPos) -> PlayerView {
    PlayerView {
        uuid: player.uuid,
        name: player.name,
        entity: EntityStateView { title: player.entity.title, position },
    }
}

/// Of the first `count` of `coords`, those that have a chunk in `chunks`
/// and no mesh in `meshes`, each with its blocks.
pub open spec fn jobs_upto(
    coords: Seq<ChunkPos>,
    chunks: Map<ChunkKey, Seq<BlockId>>,
    meshes: Map<ChunkKey, Seq<Vertex>>,
    count: int,
) -> Seq<MeshJobView>
    decreases count,
{
    if count <= 0 {
        Seq::empty()
    } else {
        let before = jobs_upto(coords, chunks, meshes, count - 1);
        let key = key_of(coords[count - 1]);
        if chunks.contains_key(key) && !meshes.contains_key(key) {
            before.push(MeshJobView { position: coords[count - 1], blocks: chunks[key] })
        } else {
            before
        }
    }
}

/// The chunks around the player that are stored and have no mesh, in the
/// order of the view volume.
pub open spec fn pending_jobs(state: ClientState) -> Seq<MeshJobView> {
    let volume = volume_chunks(
        state.player.entity.position.chunk_pos(),
        HORIZONTAL_RENDER_DISTANCE,
        VERTICAL_RENDER_DISTANCE,
    );
    jobs_upto(volume, state.chunks, state.meshes, volume.len() as int)
}

/// What a server packet does to a client, and the mesh jobs that it gives
/// rise to.
///
/// An acceptance gives the player its id and position and adds the roster
/// to the players of the world. A notice of a join adds one player, and a
/// notice of a move puts every player with the id at the new position. A
/// chunk is stored, and every stored chunk around the player that has no
/// mesh yet becomes a job. A rejection changes nothing.
pub open spec fn packet_result(before: ClientState, message: ServerMessage) -> (
    ClientState,
    Seq<MeshJobView>,
) {
    match message {
        ServerMessage::Error { .. } => (before, Seq::empty()),
        ServerMessage::JoinSuccess { uuid, position, players } => (
            ClientState {
                player: PlayerView { uuid, ..player_at(before.player, position) },
                players: before.players + Seq::new(players.len(), |i: int| player_of(players[i])),
                ..before
            },
            Seq::empty(),
        ),
        ServerMessage::PlayerJoin { uuid, name, position } => (
            ClientState {
                players: before.players.push(player_of(PlayerEntry { uuid, name, position })),
                ..before
            },
            Seq::empty(),
        ),
        ServerMessage::PlayerMove { uuid, position } => (
            ClientState {
                players: Seq::new(
                    before.players.len(),
                    |i: int|
                        if before.players[i].uuid == uuid {
                            player_at(before.players[i], position)
                        } else {
                            before.players[i]
                        },
                ),
                ..before
            },
            Seq::empty(),
        ),
        ServerMessage::ChunkData { blocks, coord } => {
            let after = ClientState { chunks: before.chunks.insert(key_of(coord), blocks), ..before };
            (after, pending_jobs(after))
        },
    }
}

/// A copy of an optional string.
fn copy_title(title: &Option<String>) -> (copy: Option<String>)
    ensures
        copy is Some == title is Some,
        copy matches Some(c) ==> c@ == title->0@,
{
    match title {
        Some(t) => Some(t.clone()),
        None => None,
    }
}

impl Client {
    /// A client that knows no chunk and no player, and has not joined.
    pub fn new() -> (client: Client)
        ensures
            client@.chunks.dom() == Set::<ChunkKey>::empty(),
            client@.meshes.dom() == Set::<ChunkKey>::empty(),
            client@.players.len() == 0,
            client@.player == blank_player(),
    {
        Client {
            world: World::default(),
            player: Player::default(),
            chunk_renderer: ChunkRenderer::new(),
        }
    }

    /// The packet that tells the server where the player is.
    pub fn update(&self) -> (packet: ClientPacket)
        ensures
            packet@ == (ClientMessage::Move { position: self@.player.entity.position }),
    {
        ClientPacket::ClientMovePacket(
            ClientMovePacket { position: self.player.entity.state.position },
        )
    }

    /// Keeps the mesh that the mesher made of the chunk at `position`.
    pub fn mesh_done(&mut self, position: ChunkPos, vertices: Vec<Vertex>)
        ensures
            final(self)@ == (ClientState {
                meshes: old(self)@.meshes.insert(key_of(position), vertices@),
                ..old(self)@
            }),
    {
        self.chunk_renderer.insert_mesh(position, vertices);
    }

    /// The stored chunks around the player that have no mesh yet.
    fn jobs(&self) -> (jobs: Vec<MeshJob>)
        ensures
            jobs_view(jobs@) == pending_jobs(self@),
    {
        let volume = view_volume(
            self.player.entity.state.position.to_chunk_pos(),
            HORIZONTAL_RENDER_DISTANCE,
            VERTICAL_RENDER_DISTANCE,
        );
        let mut jobs: Vec<MeshJob> = Vec::new();
        let mut n: usize = 0;
        assert(jobs_view(jobs@) =~= jobs_upto(volume@, self@.chunks, self@.meshes, 0));
        while n < volume.len()
            invariant
                n <= volume@.len(),
                jobs_view(jobs@) == jobs_upto(volume@, self@.chunks, self@.meshes, n as int),
            decreases volume@.len() - n,
        {
            let pos = volume[n];
            let ghost before = jobs_view(jobs@);
            match self.world.chunk_manager.get(pos) {
                Some(chunk) => {
                    if !self.chunk_renderer.has_mesh(pos) {
                        let job = MeshJob { position: pos, blocks: chunk.duplicate().blocks };
                        jobs.push(job);
                        assert(jobs_view(jobs@) =~= before.push(job@));
                    }
                },
                None => {},
            }
            n += 1;
        }
        jobs
    }

    /// Takes in one packet from the server, and says which chunks are to be
    /// meshed on account of it.
    pub fn packet(&mut self, packet: ServerPacket) -> (jobs: Vec<MeshJob>)
        ensures
            (final(self)@, jobs_view(jobs@)) == packet_result(old(self)@, packet@),
    {
        match packet {
            ServerPacket::ErrorServerPacket(_) => {
                let jobs: Vec<MeshJob> = Vec::new();
                assert(jobs_view(jobs@) =~= Seq::<MeshJobView>::empty());
                jobs
            },
            ServerPacket::ClientJoinSuccessServerPacket(accepted) => {
                self.player.uuid = accepted.uuid;
                self.player.entity.state.position = accepted.position;
                let ghost start = players_view(self.world.players@);
                let ghost roster = roster_view(accepted.players@);
                let mut n: usize = 0;
                while n < accepted.players.len()
                    invariant
                        n <= accepted.players@.len(),
                        roster == roster_view(accepted.players@),
                        self@.chunks == old(self)@.chunks,
                        self@.meshes == old(self)@.meshes,
                        self@.player == (PlayerView {
                            uuid: accepted.uuid,
                            ..player_at(old(self)@.player, accepted.position)
                        }),
                        start == old(self)@.players,
                        players_view(self.world.players@) == start + Seq::new(
                            n as nat,
                            |i: int| player_of(roster[i]),
                        ),
                    decreases accepted.players@.len() - n,
                {
                    let entry = &accepted.players[n];
                    let ghost before = players_view(self.world.players@);
                    let player = Player {
                        uuid: entry.uuid,
                        name: entry.name.clone(),
                        entity: EntityPlayer::new(
                            EntityState {
                                title: Some(entry.name.clone()),
                                position: entry.position,
                            },
                        ),
                    };
                    assert(player@ == player_of(roster[n as int]));
                    self.world.players.push(player);
                    assert(players_view(self.world.players@) =~= before.push(player@));
                    assert(players_view(self.world.players@) =~= start + Seq::new(
                        (n + 1) as nat,
                        |i: int| player_of(roster[i]),
                    ));
                    n += 1;
                }
                assert(players_view(self.world.players@) =~= start + Seq::new(
                    roster.len(),
                    |i: int| player_of(roster[i]),
                ));
                let jobs: Vec<MeshJob> = Vec::new();
                assert(jobs_view(jobs@) =~= Seq::<MeshJobView>::empty());
                jobs
            },
            ServerPacket::PlayerJoinServerPacket(joined) => {
                let ghost before = players_view(self.world.players@);
                let player = Player {
                    uuid: joined.uuid,
                    name: joined.name.clone(),
                    entity: EntityPlayer::new(
                        EntityState { title: Some(joined.name), position: joined.position },
                    ),
                };
                self.world.players.push(player);
                assert(players_view(self.world.players@) =~= before.push(player@));
                let jobs: Vec<MeshJob> = Vec::new();
                assert(jobs_view(jobs@) =~= Seq::<MeshJobView>::empty());
                jobs
            },
            ServerPacket::PlayerMoveServerPacket(moved) => {
                let ghost start = players_view(self.world.players@);
                let mut n: usize = 0;
                while n < self.world.players.len()
                    invariant
                        n <= self.world.players@.len(),
                        self@.chunks == old(self)@.chunks,
                        self@.meshes == old(self)@.meshes,
                        self@.player == old(self)@.player,
                        start == old(self)@.players,
                        self.world.players@.len() == start.len(),
                        forall|i: int|
                            0 <= i < start.len() ==> (#[trigger] self.world.players@[i])@ == if i < n
                                && start[i].uuid == moved.uuid {
                                player_at(start[i], moved.position)
                            } else {
                                start[i]
                            },
                    decreases self.world.players@.len() - n,
                {
                    if self.world.players[n].uuid == moved.uuid {
                        let player = Player {
                            uuid: moved.uuid,
                            name: self.world.players[n].name.clone(),
                            entity: EntityPlayer::new(
                                EntityState {
                                    title: copy_title(&self.world.players[n].entity.state.title),
                                    position: moved.position,
                                },
                            ),
                        };
                        assert(player@ == player_at(start[n as int], moved.position));
                        self.world.players.set(n, player);
                    }
                    n += 1;
                }
                assert(self@.players =~= packet_result(old(self)@, packet@).0.players);
                let jobs: Vec<MeshJob> = Vec::new();
                assert(jobs_view(jobs@) =~= Seq::<MeshJobView>::empty());
                jobs
            },
            ServerPacket::InitialChunkDataServerPacket(data) => {
                self.world.chunk_manager.insert(data.position, data.chunk);
                self.jobs()
            },
        }
    }
}

/// What reaches a client between two frames.
#[derive(Debug, Clone, PartialEq, Eq)]
pub enum UVxlEvent {
    /// The connection to the server stands.
    ConnectionReady,
    /// A packet from the server.
    IncomingPacket(ServerPacket),
    /// The mesher has finished the chunk at the position.
    MesherChunkDone(ChunkPos, Vec<Vertex>),
    /// The player chose a name.
    SetClientName(String),
}

/// An event as a mathematical value.
pub enum EventView {
    ConnectionReady,
    IncomingPacket { message: ServerMessage },
    MesherChunkDone { position: ChunkPos, vertices: Seq<Vertex> },
    SetClientName { name: Seq<char> },
}

impl View for UVxlEvent {
    type V = EventView;

    open spec fn view(&self) -> EventView {
        match self {
            UVxlEvent::ConnectionReady => EventView::ConnectionReady,
            UVxlEvent::IncomingPacket(packet) => EventView::IncomingPacket { message: packet@ },
            UVxlEvent::MesherChunkDone(position, vertices) => EventView::MesherChunkDone {
                position: *position,
                vertices: vertices@,
            },
            UVxlEvent::SetClientName(name) => EventView::SetClientName { name: name@ },
        }
    }
}

/// What a client asks for after an event: a packet to send to the server,
/// and chunks to hand to the mesher.
#[derive(Debug, Clone, PartialEq, Eq)]
pub struct Effects {
    pub send: Option<ClientPacket>,
    pub jobs: Vec<MeshJob>,
}

/// What an event does to a client, the packet that it sends, and the mesh
/// jobs that it gives rise to. Once the connection stands, the client asks
/// to join under the player's name.
pub open spec fn event_result(before: ClientState, event: EventView) -> (
    ClientState,
    Option<ClientMessage>,
    Seq<MeshJobView>,
) {
    match event {
        EventView::ConnectionReady => (
            before,
            Some(ClientMessage::Join { name: before.player.name }),
            Seq::empty(),
        ),
        EventView::IncomingPacket { message } => (
            packet_result(before, message).0,
            None,
            packet_result(before, message).1,
        ),
        EventView::MesherChunkDone { position, vertices } => (
            ClientState { meshes: before.meshes.insert(key_of(position), vertices), ..before },
            None,
            Seq::empty(),
        ),
        EventView::SetClientName { name } => (
            ClientState { player: PlayerView { name, ..before.player }, ..before },
            None,
            Seq::empty(),
        ),
    }
}

impl Client {
    /// Takes in one event.
    pub fn handle_event(&mut self, event: UVxlEvent) -> (effects: Effects)
        ensures
            (
                final(self)@,
                match effects.send {
                    Some(packet) => Some(packet@),
                    None => None,
                },
                jobs_view(effects.jobs@),
            ) == event_result(old(self)@, event@),
    {
        match event {
            UVxlEvent::ConnectionReady => {
                let jobs: Vec<MeshJob> = Vec::new();
                assert(jobs_view(jobs@) =~= Seq::<MeshJobView>::empty());
                Effects {
                    send: Some(
                        ClientPacket::ClientJoinClientPacket(
                            ClientJoinClientPacket { name: self.player.name.clone() },
                        ),
                    ),
                    jobs,
                }
            },
            UVxlEvent::IncomingPacket(packet) => {
                let jobs = self.packet(packet);
                Effects { send: None, jobs }
            },
            UVxlEvent::MesherChunkDone(position, vertices) => {
                self.mesh_done(position, vertices);
                let jobs: Vec<MeshJob> = Vec::new();
                assert(jobs_view(jobs@) =~= Seq::<MeshJobView>::empty());
                Effects { send: None, jobs }
            },
            UVxlEvent::SetClientName(name) => {
                self.player.name = name;
                let jobs: Vec<MeshJob> = Vec::new();
                assert(jobs_view(jobs@) =~= Seq::<MeshJobView>::empty());
                Effects { send: None, jobs }
            },
        }
    }
}

} // verus!
