use uvxl::game::world::chunk::Chunk;
use uvxl::game::world::position::ChunkPos;
use uvxl::game::world::worldgen::WorldGen;
use uvxl::game::world::BlockId;
use uvxl::server::world::chunk_manager::ServerChunkManager;
use uvxl::server::world::world::ServerWorld;

fn at(x: i32, y: i32, z: i32) -> ChunkPos {
    ChunkPos { x, y, z }
}

#[test]
fn a_new_store_is_empty() {
    let store = ServerChunkManager::default();
    assert_eq!(store.get(at(0, 0, 0)), None);
    assert_eq!(store.chunks.len(), 0);
    let world = ServerWorld::default();
    assert_eq!(world.chunk_manager.get(at(1, 2, 3)), None);
}

#[test]
fn insert_then_get() {
    let mut store = ServerChunkManager::default();
    store.insert(at(1, -2, 3), Chunk::filled(BlockId::panel()));
    assert_eq!(store.get(at(1, -2, 3)), Some(Chunk::filled(BlockId::panel())));
    assert_eq!(store.get(at(3, -2, 1)), None);
    assert_eq!(store.get(at(-2, 1, 3)), None);
    store.insert(at(1, -2, 3), Chunk::default());
    assert_eq!(store.get(at(1, -2, 3)), Some(Chunk::default()));
    assert_eq!(store.chunks.len(), 1);
}

#[test]
fn get_or_insert_makes_a_chunk_once() {
    let mut store = ServerChunkManager::default();
    let mut runs = 0;
    let first = store.get_or_insert(at(0, 0, 0), || {
        runs += 1;
        Chunk::filled(BlockId::test())
    });
    assert_eq!(first, Chunk::filled(BlockId::test()));
    let second = store.get_or_insert(at(0, 0, 0), || {
        runs += 1;
        Chunk::filled(BlockId::panel())
    });
    assert_eq!(second, first);
    assert_eq!(runs, 1);
    assert_eq!(store.chunks.len(), 1);
    assert_eq!(store.get(at(0, 0, 0)), Some(first));
}

#[test]
fn get_or_insert_keeps_a_stored_chunk() {
    let mut store = ServerChunkManager::default();
    store.insert(at(5, 0, 5), Chunk::filled(BlockId::panel()));
    let found = store.get_or_insert(at(5, 0, 5), || Chunk::default());
    assert_eq!(found, Chunk::filled(BlockId::panel()));
    let found = store.get_or_generate(at(5, 0, 5), &WorldGen {});
    assert_eq!(found, Chunk::filled(BlockId::panel()));
    assert_eq!(store.chunks.len(), 1);
}

#[test]
fn get_or_generate_stores_the_generated_chunk() {
    let mut store = ServerChunkManager::default();
    let found = store.get_or_generate(at(2, 0, -2), &WorldGen {});
    assert_eq!(found, WorldGen {}.generate(at(2, 0, -2)));
    assert_eq!(store.get(at(2, 0, -2)), Some(found.clone()));
    assert_eq!(store.get_or_generate(at(2, 0, -2), &WorldGen {}), found);
    assert_eq!(store.chunks.len(), 1);
    store.get_or_generate(at(2, 1, -2), &WorldGen {});
    assert_eq!(store.chunks.len(), 2);
}
