use uvxl::game::client::window::server_join::ServerJoinWindow;
use uvxl::game::client::window::WindowId;
use uvxl::game::entity::player::EntityPlayer;
use uvxl::game::entity::{Entity, EntityState};
use uvxl::game::player::Player;
use uvxl::game::world::position::{ChunkPos, WorldPos};
use uvxl::server::player::ServerPlayer;

#[test]
fn default_player_has_not_joined() {
    let player = Player::default();
    assert_eq!(player.uuid, 0);
    assert_eq!(player.name, "");
    assert_eq!(player.entity, EntityPlayer::default());
    assert_eq!(player.entity.state().title, None);
    assert_eq!(player.entity.state().position, WorldPos { x: 0, y: 0, z: 0 });
}

#[test]
fn state_can_be_changed_in_place() {
    let mut entity = EntityPlayer::new(EntityState { title: None, position: WorldPos { x: 1, y: 2, z: 3 } });
    assert_eq!(entity.state().position, WorldPos { x: 1, y: 2, z: 3 });
    entity.state_mut().position = WorldPos { x: 4, y: 5, z: 6 };
    entity.state_mut().title = Some(String::from("alice"));
    assert_eq!(
        *entity.state(),
        EntityState { title: Some(String::from("alice")), position: WorldPos { x: 4, y: 5, z: 6 } }
    );
}

#[test]
fn copies_are_equal() {
    let peer = ServerPlayer {
        player: Player {
            uuid: 77,
            name: String::from("bob"),
            entity: EntityPlayer::new(EntityState {
                title: Some(String::from("bob")),
                position: WorldPos { x: 1, y: 2, z: 3 },
            }),
        },
        last_chunk: Some(ChunkPos { x: -1, y: 0, z: 9 }),
    };
    assert_eq!(peer.duplicate(), peer);
    assert_eq!(peer.player.duplicate(), peer.player);
    assert_eq!(peer.player.entity.state.duplicate(), peer.player.entity.state);
    assert_eq!(ServerPlayer::default().duplicate(), ServerPlayer::default());
}

#[test]
fn join_window_starts_with_the_local_server() {
    let window = ServerJoinWindow::default();
    assert_eq!(window.address, "127.0.0.1:2488");
    assert_eq!(window.name, "");
    assert_eq!(window.id(), WindowId::ServerJoin);
    assert_ne!(WindowId::ServerJoin, WindowId::PacketDebugger);
}

#[test]
fn a_fresh_peer_was_never_streamed_to() {
    let peer = ServerPlayer::default();
    assert_eq!(peer.last_chunk, None);
    assert_ne!(peer.last_chunk, Some(ChunkPos { x: 0, y: 0, z: 0 }));
    assert_eq!(peer.player, Player::default());
}
