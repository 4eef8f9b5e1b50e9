use uvxl::game::client::chunk_renderer::ChunkRenderer;
use uvxl::game::client::client::{Client, Effects, MeshJob, UVxlEvent};
use uvxl::game::client::mesher::culled;
use uvxl::game::network::packet::{
    ClientJoinClientPacket, ClientJoinSuccessServerPacket, ClientMovePacket, ClientPacket, ErrorServerPacket,
    InitialChunkDataServerPacket, InitialPlayerData, PlayerJoinServerPacket, PlayerMoveServerPacket,
    ServerError, ServerPacket,
};
use uvxl::game::world::chunk::Chunk;
use uvxl::game::world::chunk_manager::{pack, ChunkManager};
use uvxl::game::world::position::{ChunkPos, WorldPos};
use uvxl::game::world::worldgen::WorldGen;
use uvxl::game::world::BlockId;

fn pos(x: f32, y: f32, z: f32) -> WorldPos {
    WorldPos { x: x.to_bits(), y: y.to_bits(), z: z.to_bits() }
}

fn at(x: i32, y: i32, z: i32) -> ChunkPos {
    ChunkPos { x, y, z }
}

fn chunk_packet(position: ChunkPos) -> ServerPacket {
    ServerPacket::InitialChunkDataServerPacket(InitialChunkDataServerPacket {
        chunk: WorldGen {}.generate(position),
        position,
    })
}

#[test]
fn pack_keeps_coordinates_apart() {
    assert_eq!(pack(at(i32::MIN, i32::MIN, i32::MIN)), 0);
    assert_eq!(pack(at(0, 0, 0)), (1u128 << 95) + (1u128 << 63) + (1u128 << 31));
    assert_eq!(pack(at(i32::MAX, i32::MAX, i32::MAX)), (1u128 << 96) - 1);
    assert_ne!(pack(at(1, 0, 0)), pack(at(0, 1, 0)));
    assert_ne!(pack(at(0, 1, 0)), pack(at(0, 0, 1)));
    assert_ne!(pack(at(-1, 0, 0)), pack(at(0, -1, 0)));
    assert_eq!(pack(at(-1, 2, -3)), (0x7fff_ffffu128 << 64) + (0x8000_0002u128 << 32) + 0x7fff_fffd);
}

#[test]
fn chunk_manager_stores_by_coordinate() {
    let mut store = ChunkManager::default();
    assert!(!store.contains(at(0, 0, 0)));
    assert_eq!(store.get(at(0, 0, 0)), None);
    let ground = WorldGen {}.generate(at(0, 0, 0));
    store.insert(at(0, 0, 0), ground.clone());
    store.insert(at(0, 1, 0), Chunk::default());
    assert_eq!(store.get(at(0, 0, 0)), Some(&ground));
    assert_eq!(store.get(at(0, 1, 0)), Some(&Chunk::default()));
    assert!(store.contains(at(0, 1, 0)));
    assert!(!store.contains(at(1, 0, 0)));
    store.insert(at(0, 0, 0), Chunk::filled(BlockId::panel()));
    assert_eq!(store.get(at(0, 0, 0)), Some(&Chunk::filled(BlockId::panel())));
    assert_eq!(store.chunks.len(), 2);
}

#[test]
fn chunk_renderer_keeps_meshes() {
    let mut renderer = ChunkRenderer::new();
    assert!(!renderer.has_mesh(at(1, 2, 3)));
    let chunk = WorldGen {}.generate(at(1, 0, 3));
    renderer.add_chunk(at(1, 0, 3), &chunk);
    assert!(renderer.has_mesh(at(1, 0, 3)));
    assert_eq!(renderer.chunk_meshes.get(&pack(at(1, 0, 3))), Some(&culled::<32>(&chunk.blocks)));
    renderer.insert_mesh(at(0, 0, 0), Vec::new());
    assert!(renderer.has_mesh(at(0, 0, 0)));
    renderer.remove_chunk(at(1, 0, 3));
    assert!(!renderer.has_mesh(at(1, 0, 3)));
    renderer.remove_chunk(at(1, 0, 3));
    assert!(renderer.has_mesh(at(0, 0, 0)));
}

#[test]
fn update_tells_where_the_player_is() {
    let mut client = Client::new();
    assert_eq!(
        client.update(),
        ClientPacket::ClientMovePacket(ClientMovePacket { position: pos(0.0, 0.0, 0.0) })
    );
    client.player.entity.state.position = pos(1.0, 2.0, 3.0);
    assert_eq!(
        client.update(),
        ClientPacket::ClientMovePacket(ClientMovePacket { position: pos(1.0, 2.0, 3.0) })
    );
}

#[test]
fn acceptance_sets_the_player_and_the_roster() {
    let mut client = Client::new();
    client.player.name = String::from("carol");
    let jobs = client.packet(ServerPacket::ClientJoinSuccessServerPacket(ClientJoinSuccessServerPacket {
        uuid: 33,
        position: pos(16.0, 34.0, 16.0),
        players: vec![
            InitialPlayerData { uuid: 11, name: String::from("alice"), position: pos(1.0, 2.0, 3.0) },
            InitialPlayerData { uuid: 22, name: String::from("bob"), position: pos(4.0, 5.0, 6.0) },
        ],
    }));
    assert_eq!(jobs, Vec::new());
    assert_eq!(client.player.uuid, 33);
    assert_eq!(client.player.name, "carol");
    assert_eq!(client.player.entity.state.position, pos(16.0, 34.0, 16.0));
    assert_eq!(client.world.players.len(), 2);
    assert_eq!(client.world.players[0].uuid, 11);
    assert_eq!(client.world.players[0].name, "alice");
    assert_eq!(client.world.players[0].entity.state.title, Some(String::from("alice")));
    assert_eq!(client.world.players[0].entity.state.position, pos(1.0, 2.0, 3.0));
    assert_eq!(client.world.players[1].name, "bob");
    assert_eq!(client.world.players[1].entity.state.position, pos(4.0, 5.0, 6.0));
}

#[test]
fn notices_add_and_move_players() {
    let mut client = Client::new();
    for (uuid, name) in [(1u128, "alice"), (2u128, "bob")] {
        let jobs = client.packet(ServerPacket::PlayerJoinServerPacket(PlayerJoinServerPacket {
            uuid,
            name: String::from(name),
            position: pos(0.0, 0.0, 0.0),
        }));
        assert_eq!(jobs, Vec::new());
    }
    assert_eq!(client.world.players.len(), 2);
    assert_eq!(client.world.players[1].name, "bob");
    assert_eq!(client.world.players[1].entity.state.title, Some(String::from("bob")));
    let jobs = client.packet(ServerPacket::PlayerMoveServerPacket(PlayerMoveServerPacket {
        uuid: 2,
        position: pos(9.0, 8.0, 7.0),
    }));
    assert_eq!(jobs, Vec::new());
    assert_eq!(client.world.players[0].entity.state.position, pos(0.0, 0.0, 0.0));
    assert_eq!(client.world.players[1].entity.state.position, pos(9.0, 8.0, 7.0));
    assert_eq!(client.world.players[1].name, "bob");
    assert_eq!(client.world.players[1].entity.state.title, Some(String::from("bob")));
    client.packet(ServerPacket::PlayerMoveServerPacket(PlayerMoveServerPacket { uuid: 3, position: pos(1.0, 1.0, 1.0) }));
    assert_eq!(client.world.players[0].entity.state.position, pos(0.0, 0.0, 0.0));
    assert_eq!(client.world.players[1].entity.state.position, pos(9.0, 8.0, 7.0));
}

#[test]
fn a_rejection_changes_nothing() {
    let mut client = Client::new();
    let jobs = client.packet(ServerPacket::ErrorServerPacket(ErrorServerPacket { error: ServerError::PlayerLoggedIn }));
    assert_eq!(jobs, Vec::new());
    assert_eq!(client.world.players.len(), 0);
    assert_eq!(client.player.uuid, 0);
}

#[test]
fn a_chunk_in_view_becomes_a_job() {
    let mut client = Client::new();
    let jobs = client.packet(chunk_packet(at(0, 0, 0)));
    assert_eq!(
        jobs,
        vec![MeshJob { position: at(0, 0, 0), blocks: WorldGen {}.generate(at(0, 0, 0)).blocks }]
    );
    assert!(client.world.chunk_manager.contains(at(0, 0, 0)));
    // until the mesh arrives, the chunk is asked for again, in the order of the view volume
    let jobs = client.packet(chunk_packet(at(-1, 2, 0)));
    let positions: Vec<ChunkPos> = jobs.iter().map(|j| j.position).collect();
    assert_eq!(positions, vec![at(-1, 2, 0), at(0, 0, 0)]);
    client.mesh_done(at(0, 0, 0), culled::<32>(&jobs[1].blocks));
    let jobs = client.packet(chunk_packet(at(2, -4, 2)));
    let positions: Vec<ChunkPos> = jobs.iter().map(|j| j.position).collect();
    assert_eq!(positions, vec![at(-1, 2, 0), at(2, -4, 2)]);
}

#[test]
fn a_chunk_out_of_view_is_stored_and_not_meshed() {
    let mut client = Client::new();
    for far in [at(3, 0, 0), at(0, 5, 0), at(0, 0, -3), at(0, -5, 0)] {
        let jobs = client.packet(chunk_packet(far));
        assert_eq!(jobs, Vec::new());
        assert!(client.world.chunk_manager.contains(far));
    }
    // the view follows the player
    client.player.entity.state.position = pos(100.0, 0.0, 0.0);
    let jobs = client.packet(chunk_packet(at(0, 0, 0)));
    let positions: Vec<ChunkPos> = jobs.iter().map(|j| j.position).collect();
    assert_eq!(positions, vec![at(3, 0, 0)]);
}

#[test]
fn a_newer_chunk_replaces_the_stored_one() {
    let mut client = Client::new();
    client.packet(chunk_packet(at(0, 0, 0)));
    let jobs = client.packet(ServerPacket::InitialChunkDataServerPacket(InitialChunkDataServerPacket {
        chunk: Chunk::filled(BlockId::panel()),
        position: at(0, 0, 0),
    }));
    assert_eq!(jobs, vec![MeshJob { position: at(0, 0, 0), blocks: vec![BlockId::panel(); 32768] }]);
}

#[test]
fn events_drive_the_client() {
    let mut client = Client::new();
    assert_eq!(
        client.handle_event(UVxlEvent::SetClientName(String::from("dora"))),
        Effects { send: None, jobs: vec![] }
    );
    assert_eq!(client.player.name, "dora");
    assert_eq!(
        client.handle_event(UVxlEvent::ConnectionReady),
        Effects {
            send: Some(ClientPacket::ClientJoinClientPacket(ClientJoinClientPacket { name: String::from("dora") })),
            jobs: vec![],
        }
    );
    let effects = client.handle_event(UVxlEvent::IncomingPacket(chunk_packet(at(1, 1, 1))));
    assert_eq!(effects.send, None);
    assert_eq!(effects.jobs.len(), 1);
    assert_eq!(effects.jobs[0].position, at(1, 1, 1));
    let mesh = culled::<32>(&effects.jobs[0].blocks);
    assert_eq!(
        client.handle_event(UVxlEvent::MesherChunkDone(at(1, 1, 1), mesh.clone())),
        Effects { send: None, jobs: vec![] }
    );
    assert!(client.chunk_renderer.has_mesh(at(1, 1, 1)));
    assert_eq!(client.chunk_renderer.chunk_meshes.get(&pack(at(1, 1, 1))), Some(&mesh));
    let effects = client.handle_event(UVxlEvent::IncomingPacket(chunk_packet(at(1, 1, 2))));
    assert_eq!(effects.jobs.len(), 1);
    assert_eq!(effects.jobs[0].position, at(1, 1, 2));
}
