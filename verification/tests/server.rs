use uvxl::game::network::packet::{
    ClientJoinClientPacket, ClientJoinSuccessServerPacket, ClientMovePacket, ClientPacket,
    ErrorServerPacket, InitialChunkDataServerPacket, InitialPlayerData, PlayerJoinServerPacket,
    PlayerMoveServerPacket, ServerError, ServerPacket,
};
use uvxl::game::network::wire::encode_client_packet;
use uvxl::game::world::position::{ChunkPos, WorldPos};
use uvxl::game::world::worldgen::WorldGen;
use uvxl::server::peers::PeerAddr;
use uvxl::server::player::ServerPlayer;
use uvxl::server::server::{Outbound, Reply, Server, Status};
use uvxl::server::server_settings::ServerSettings;
use uvxl::server::stream::{view_delta, view_volume};

const A: PeerAddr = PeerAddr { ip: 0xffff_7f00_0001, port: 50001 };
const B: PeerAddr = PeerAddr { ip: 0xffff_7f00_0001, port: 50002 };
const C: PeerAddr = PeerAddr { ip: 0xffff_0a00_0007, port: 50001 };

fn pos(x: f32, y: f32, z: f32) -> WorldPos {
    WorldPos { x: x.to_bits(), y: y.to_bits(), z: z.to_bits() }
}

fn spawn() -> WorldPos {
    pos(16.0, 34.0, 16.0)
}

fn join(name: &str) -> Vec<u8> {
    encode_client_packet(&ClientPacket::ClientJoinClientPacket(ClientJoinClientPacket {
        name: String::from(name),
    }))
}

fn moved(position: WorldPos) -> Vec<u8> {
    encode_client_packet(&ClientPacket::ClientMovePacket(ClientMovePacket { position }))
}

fn chunk_packets(to: PeerAddr, coords: &[ChunkPos]) -> Vec<Outbound> {
    coords
        .iter()
        .map(|c| Outbound {
            to,
            packet: ServerPacket::InitialChunkDataServerPacket(InitialChunkDataServerPacket {
                chunk: WorldGen {}.generate(*c),
                position: *c,
            }),
        })
        .collect()
}

fn accepted_uuid(reply: &Reply, to: PeerAddr) -> u128 {
    for out in reply.outbound.iter() {
        if out.to == to {
            if let ServerPacket::ClientJoinSuccessServerPacket(p) = &out.packet {
                return p.uuid;
            }
        }
    }
    panic!("no acceptance");
}

#[test]
fn new_server_is_empty() {
    let server = Server::new();
    assert_eq!(server.peer_addrs(), Vec::new());
    assert_eq!(server.peer(A), None);
    assert_eq!(server.chunk(ChunkPos { x: 0, y: 0, z: 0 }), None);
}

#[test]
fn connect_registers_a_fresh_peer() {
    let mut server = Server::new();
    server.connect(A);
    assert_eq!(server.peer(A), Some(ServerPlayer::default()));
    assert_eq!(server.peer(B), None);
    let fresh = server.peer(A).unwrap();
    assert_eq!(fresh.player.uuid, 0);
    assert_eq!(fresh.player.name, "");
    assert_eq!(fresh.player.entity.state.title, None);
    assert_eq!(fresh.player.entity.state.position, pos(0.0, 0.0, 0.0));
    assert_eq!(fresh.last_chunk, None);
    server.connect(B);
    let mut addrs = server.peer_addrs();
    addrs.sort_by_key(|a| (a.ip, a.port));
    assert_eq!(addrs, vec![A, B]);
    server.disconnect(A);
    assert_eq!(server.peer(A), None);
    assert_eq!(server.peer_addrs(), vec![B]);
    server.disconnect(A);
    assert_eq!(server.peer_addrs(), vec![B]);
}

#[test]
fn first_join_gets_empty_roster_and_the_whole_volume() {
    let mut server = Server::new();
    server.connect(A);
    let reply = server.handle_packet(&join("alice"), A);
    assert_eq!(reply.status, Status::Done);
    let uuid = accepted_uuid(&reply, A);
    let volume = view_volume(ChunkPos { x: 0, y: 1, z: 0 }, 2, 3);
    assert_eq!(volume.len(), 175);
    let mut expected = vec![Outbound {
        to: A,
        packet: ServerPacket::ClientJoinSuccessServerPacket(ClientJoinSuccessServerPacket {
            uuid,
            position: spawn(),
            players: vec![],
        }),
    }];
    expected.extend(chunk_packets(A, &volume));
    assert_eq!(reply.outbound.len(), 1 + 5 * 7 * 5);
    assert!(reply.outbound == expected);
    let me = server.peer(A).unwrap();
    assert_eq!(me.player.uuid, uuid);
    assert_eq!(me.player.name, "alice");
    assert_eq!(me.player.entity.state.title, Some(String::from("alice")));
    assert_eq!(me.player.entity.state.position, spawn());
    assert_eq!(me.last_chunk, Some(ChunkPos { x: 0, y: 1, z: 0 }));
    for c in volume.iter() {
        assert_eq!(server.chunk(*c), Some(WorldGen {}.generate(*c)));
    }
    assert_eq!(server.chunk(ChunkPos { x: 3, y: 1, z: 0 }), None);
}

#[test]
fn drawn_ids_are_random_ids() {
    let mut server = Server::new();
    server.connect(A);
    server.connect(B);
    let a = accepted_uuid(&server.handle_packet(&join("alice"), A), A);
    let b = accepted_uuid(&server.handle_packet(&join("bob"), B), B);
    assert_ne!(a, b);
    for id in [a, b] {
        assert_ne!(id, 0);
        assert_eq!((id >> 76) & 0xf, 4);
        assert_eq!((id >> 62) & 0x3, 2);
    }
}

#[test]
fn two_peers_join_and_one_moves() {
    let mut server = Server::new();
    server.connect(A);
    let reply = server.handle_packet(&join("alice"), A);
    let alice = accepted_uuid(&reply, A);

    server.connect(B);
    let reply = server.handle_packet(&join("bob"), B);
    assert_eq!(reply.status, Status::Done);
    let bob = accepted_uuid(&reply, B);
    let volume = view_volume(ChunkPos { x: 0, y: 1, z: 0 }, 2, 3);
    let mut expected = vec![
        Outbound {
            to: A,
            packet: ServerPacket::PlayerJoinServerPacket(PlayerJoinServerPacket {
                uuid: bob,
                name: String::from("bob"),
                position: pos(0.0, 0.0, 0.0),
            }),
        },
        Outbound {
            to: B,
            packet: ServerPacket::ClientJoinSuccessServerPacket(ClientJoinSuccessServerPacket {
                uuid: bob,
                position: spawn(),
                players: vec![InitialPlayerData { uuid: alice, name: String::from("alice"), position: spawn() }],
            }),
        },
    ];
    expected.extend(chunk_packets(B, &volume));
    assert!(reply.outbound == expected);

    // alice walks one chunk along x
    let there = pos(48.0, 34.0, 16.0);
    let reply = server.handle_packet(&moved(there), A);
    assert_eq!(reply.status, Status::Done);
    let slab = view_delta(ChunkPos { x: 0, y: 1, z: 0 }, ChunkPos { x: 1, y: 1, z: 0 }, 2, 3);
    assert_eq!(slab.len(), 7 * 5);
    assert!(slab.iter().all(|c| c.x == 3 && -2 <= c.y && c.y <= 4 && -2 <= c.z && c.z <= 2));
    let mut expected = vec![Outbound {
        to: B,
        packet: ServerPacket::PlayerMoveServerPacket(PlayerMoveServerPacket { uuid: alice, position: there }),
    }];
    expected.extend(chunk_packets(A, &slab));
    assert!(reply.outbound == expected);
    assert!(reply.outbound.len() < 175);
    let me = server.peer(A).unwrap();
    assert_eq!(me.player.entity.state.position, there);
    assert_eq!(me.last_chunk, Some(ChunkPos { x: 1, y: 1, z: 0 }));
    assert_eq!(me.player.name, "alice");
    assert_eq!(me.player.entity.state.title, Some(String::from("alice")));

    // and one more: now only x changes
    let further = pos(80.0, 34.0, 16.0);
    let reply = server.handle_packet(&moved(further), A);
    let slab = view_delta(ChunkPos { x: 1, y: 1, z: 0 }, ChunkPos { x: 2, y: 1, z: 0 }, 2, 3);
    assert_eq!(slab.len(), 7 * 5);
    assert!(slab.iter().all(|c| c.x == 4));
    let mut expected = vec![Outbound {
        to: B,
        packet: ServerPacket::PlayerMoveServerPacket(PlayerMoveServerPacket { uuid: alice, position: further }),
    }];
    expected.extend(chunk_packets(A, &slab));
    assert!(reply.outbound == expected);
    assert_eq!(server.peer(B).unwrap().player.entity.state.position, spawn());
}

#[test]
fn a_move_inside_the_chunk_sends_no_chunk() {
    let mut server = Server::new();
    server.connect(A);
    server.connect(B);
    server.handle_packet(&join("alice"), A);
    let reply = server.handle_packet(&moved(pos(40.0, 40.0, 40.0)), A);
    assert_eq!(reply.outbound.len(), 1 + 7);
    let reply = server.handle_packet(&moved(pos(41.5, 63.0, 33.0)), A);
    assert_eq!(reply.status, Status::Done);
    assert_eq!(
        reply.outbound,
        vec![Outbound {
            to: B,
            packet: ServerPacket::PlayerMoveServerPacket(PlayerMoveServerPacket {
                uuid: server.peer(A).unwrap().player.uuid,
                position: pos(41.5, 63.0, 33.0),
            }),
        }]
    );
    assert_eq!(server.peer(A).unwrap().player.entity.state.position, pos(41.5, 63.0, 33.0));
    assert_eq!(server.peer(A).unwrap().last_chunk, Some(ChunkPos { x: 1, y: 1, z: 1 }));
}

#[test]
fn a_taken_name_is_rejected() {
    let mut server = Server::new();
    server.connect(A);
    server.connect(B);
    server.handle_packet(&join("alice"), A);
    let before_a = server.peer(A);
    let reply = server.handle_packet(&join("alice"), B);
    assert_eq!(reply.status, Status::NameTaken);
    assert_eq!(
        reply.outbound,
        vec![Outbound {
            to: B,
            packet: ServerPacket::ErrorServerPacket(ErrorServerPacket { error: ServerError::PlayerLoggedIn }),
        }]
    );
    assert_eq!(server.peer(B), Some(ServerPlayer::default()));
    assert_eq!(server.peer(A), before_a);
    // the connection stays, and another name goes through
    let reply = server.handle_packet(&join("bob"), B);
    assert_eq!(reply.status, Status::Done);
    assert_eq!(server.peer(B).unwrap().player.name, "bob");
}

#[test]
fn a_name_is_free_again_after_its_holder_left() {
    let mut server = Server::new();
    server.connect(A);
    server.connect(B);
    server.handle_packet(&join("alice"), A);
    assert_eq!(server.handle_packet(&join("alice"), B).status, Status::NameTaken);
    server.disconnect(A);
    let reply = server.handle_packet(&join("alice"), B);
    assert_eq!(reply.status, Status::Done);
    assert!(reply.outbound.iter().all(|o| o.to == B));
}

#[test]
fn a_peer_may_join_again_under_its_own_name() {
    let mut server = Server::new();
    server.connect(A);
    let first = accepted_uuid(&server.handle_packet(&join("alice"), A), A);
    let reply = server.handle_packet(&join("alice"), A);
    assert_eq!(reply.status, Status::Done);
    assert_eq!(reply.outbound.len(), 176);
    assert_ne!(accepted_uuid(&reply, A), first);
}

#[test]
fn the_empty_name_belongs_to_those_who_have_not_joined() {
    let mut server = Server::new();
    server.connect(A);
    server.connect(B);
    assert_eq!(server.handle_packet(&join(""), A).status, Status::NameTaken);
    server.disconnect(B);
    assert_eq!(server.handle_packet(&join(""), A).status, Status::Done);
}

#[test]
fn bytes_that_are_no_packet_are_dropped() {
    let mut server = Server::new();
    server.connect(A);
    for bytes in [vec![], vec![9, 9], vec![7, 0, 0, 0, 0, 0, 0, 0], vec![0, 0, 0, 0, 1, 0, 0, 0, 0, 0, 0, 0, 0xff]] {
        let reply = server.handle_packet(&bytes, A);
        assert_eq!(reply.status, Status::Malformed);
        assert_eq!(reply.outbound, Vec::new());
    }
    assert_eq!(server.peer(A), Some(ServerPlayer::default()));
    assert_eq!(server.handle_packet(&join("alice"), A).status, Status::Done);
}

#[test]
fn packets_from_an_unknown_address_do_nothing() {
    let mut server = Server::new();
    server.connect(A);
    let reply = server.handle_packet(&join("carol"), C);
    assert_eq!(reply.status, Status::UnknownPeer);
    assert_eq!(reply.outbound, Vec::new());
    let reply = server.handle_packet(&moved(pos(100.0, 0.0, 0.0)), C);
    assert_eq!(reply.status, Status::UnknownPeer);
    assert_eq!(reply.outbound, Vec::new());
    assert_eq!(server.peer(C), None);
    assert_eq!(server.peer_addrs(), vec![A]);
    assert_eq!(server.chunk(ChunkPos { x: 0, y: 0, z: 0 }), None);
}

#[test]
fn a_move_before_joining_is_streamed_too() {
    let mut server = Server::new();
    server.connect(A);
    server.connect(B);
    let reply = server.handle_packet(&moved(pos(-1.0, 0.0, 0.0)), A);
    assert_eq!(reply.status, Status::Done);
    let volume = view_volume(ChunkPos { x: -1, y: 0, z: 0 }, 2, 3);
    assert_eq!(volume.len(), 175);
    let mut expected = vec![Outbound {
        to: B,
        packet: ServerPacket::PlayerMoveServerPacket(PlayerMoveServerPacket { uuid: 0, position: pos(-1.0, 0.0, 0.0) }),
    }];
    expected.extend(chunk_packets(A, &volume));
    assert!(reply.outbound == expected);
    assert_eq!(server.peer(A).unwrap().last_chunk, Some(ChunkPos { x: -1, y: 0, z: 0 }));
}

#[test]
fn join_with_a_given_order_and_id() {
    let mut server = Server::new();
    server.connect(A);
    server.connect(B);
    server.connect(C);
    server.handle_join(A, String::from("alice"), 11, &vec![]);
    server.handle_join(B, String::from("bob"), 22, &vec![]);
    let order = vec![(B.ip, B.port), (9, 9), (C.ip, C.port), (A.ip, A.port)];
    let reply = server.handle_join(C, String::from("carol"), 33, &order);
    assert_eq!(reply.status, Status::Done);
    assert_eq!(reply.outbound.len(), 2 + 1 + 175);
    let notice = ServerPacket::PlayerJoinServerPacket(PlayerJoinServerPacket {
        uuid: 33,
        name: String::from("carol"),
        position: pos(0.0, 0.0, 0.0),
    });
    assert_eq!(reply.outbound[0], Outbound { to: B, packet: notice.clone() });
    assert_eq!(reply.outbound[1], Outbound { to: A, packet: notice });
    assert_eq!(
        reply.outbound[2],
        Outbound {
            to: C,
            packet: ServerPacket::ClientJoinSuccessServerPacket(ClientJoinSuccessServerPacket {
                uuid: 33,
                position: spawn(),
                players: vec![
                    InitialPlayerData { uuid: 22, name: String::from("bob"), position: spawn() },
                    InitialPlayerData { uuid: 11, name: String::from("alice"), position: spawn() },
                ],
            }),
        }
    );
    let reply = server.handle_join(C, String::from("bob"), 44, &order);
    assert_eq!(reply.status, Status::NameTaken);
    assert_eq!(server.peer(C).unwrap().player.uuid, 33);
    let reply = server.handle_move(B, pos(0.0, 0.0, 0.0), &vec![(A.ip, A.port), (B.ip, B.port)]);
    let slab = view_delta(ChunkPos { x: 0, y: 1, z: 0 }, ChunkPos { x: 0, y: 0, z: 0 }, 2, 3);
    assert_eq!(slab.len(), 5 * 5);
    assert!(slab.iter().all(|c| c.y == -3));
    let mut expected = vec![Outbound {
        to: A,
        packet: ServerPacket::PlayerMoveServerPacket(PlayerMoveServerPacket { uuid: 22, position: pos(0.0, 0.0, 0.0) }),
    }];
    expected.extend(chunk_packets(B, &slab));
    assert!(reply.outbound == expected);
}

#[test]
fn render_distances_come_from_the_settings() {
    let mut server = Server::with_settings(ServerSettings {
        vertical_render_distance: 0,
        horizontal_render_distance: 0,
    });
    server.connect(A);
    let reply = server.handle_packet(&join("alice"), A);
    assert_eq!(reply.outbound.len(), 2);
    assert_eq!(reply.outbound[1..], chunk_packets(A, &[ChunkPos { x: 0, y: 1, z: 0 }])[..]);
    let reply = server.handle_packet(&moved(pos(-100.0, 34.0, 16.0)), A);
    assert_eq!(reply.outbound, chunk_packets(A, &[ChunkPos { x: -4, y: 1, z: 0 }]));

    let mut server = Server::with_settings(ServerSettings {
        vertical_render_distance: 1,
        horizontal_render_distance: 3,
    });
    server.connect(A);
    let reply = server.handle_packet(&join("alice"), A);
    assert_eq!(reply.outbound.len(), 1 + 7 * 3 * 7);
}

#[test]
fn stored_chunks_are_handed_out_again() {
    let mut server = Server::new();
    server.connect(A);
    server.connect(B);
    let first = server.handle_packet(&join("alice"), A);
    let second = server.handle_packet(&join("bob"), B);
    let chunks_a: Vec<&ServerPacket> = first.outbound[2..].iter().map(|o| &o.packet).collect();
    let chunks_b: Vec<&ServerPacket> = second.outbound[2..].iter().map(|o| &o.packet).collect();
    assert_eq!(chunks_a.len(), 175);
    assert!(chunks_a == chunks_b);
}

#[test]
fn names_stay_unique() {
    let mut server = Server::new();
    for (addr, name) in [(A, "alice"), (B, "bob"), (C, "alice")] {
        server.connect(addr);
        server.handle_packet(&join(name), addr);
    }
    server.handle_packet(&join("bob"), A);
    server.handle_packet(&moved(pos(1.0, 2.0, 3.0)), C);
    let mut names: Vec<String> = server
        .peer_addrs()
        .iter()
        .map(|a| server.peer(*a).unwrap().player.name)
        .filter(|n| !n.is_empty())
        .collect();
    names.sort();
    assert_eq!(names, vec![String::from("alice"), String::from("bob")]);
    assert_eq!(server.peer(C).unwrap().player.name, "");
}

#[test]
fn a_step_from_the_origin_chunk_sends_one_layer() {
    let mut server = Server::new();
    server.connect(A);
    // the first move streams the whole view around the origin chunk
    let reply = server.handle_packet(&moved(pos(0.0, 0.0, 0.0)), A);
    assert!(reply.outbound == chunk_packets(A, &view_volume(ChunkPos { x: 0, y: 0, z: 0 }, 2, 3)));
    assert_eq!(server.peer(A).unwrap().last_chunk, Some(ChunkPos { x: 0, y: 0, z: 0 }));
    // one chunk along x: the layer x = 3 and nothing else
    let reply = server.handle_packet(&moved(pos(32.0, 0.0, 0.0)), A);
    assert_eq!(reply.status, Status::Done);
    assert_eq!(reply.outbound.len(), 35);
    let mut layer = Vec::new();
    for y in -3..=3 {
        for z in -2..=2 {
            layer.push(ChunkPos { x: 3, y, z });
        }
    }
    assert!(reply.outbound == chunk_packets(A, &layer));
    assert_eq!(server.peer(A).unwrap().last_chunk, Some(ChunkPos { x: 1, y: 0, z: 0 }));
}

#[test]
fn two_peers_asking_for_one_chunk_get_the_same() {
    let mut server = Server::with_settings(ServerSettings {
        vertical_render_distance: 0,
        horizontal_render_distance: 0,
    });
    server.connect(A);
    server.connect(B);
    let far = ChunkPos { x: 9, y: 0, z: 9 };
    assert_eq!(server.chunk(far), None);
    let first = server.handle_packet(&moved(pos(300.0, 0.0, 300.0)), A);
    let second = server.handle_packet(&moved(pos(310.0, 5.0, 290.0)), B);
    let generated = WorldGen {}.generate(far);
    assert_eq!(generated.blocks.len(), 32768);
    assert!(first.outbound[1..] == chunk_packets(A, &[far])[..]);
    assert!(second.outbound[1..] == chunk_packets(B, &[far])[..]);
    assert!(server.chunk(far) == Some(generated));
}
