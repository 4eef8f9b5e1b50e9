use uvxl::game::world::chunk::{Chunk, CHUNK_SIZE, CHUNK_VOLUME};
use uvxl::game::world::BlockId;

#[test]
fn default_chunk_is_air() {
    let chunk = Chunk::default();
    assert_eq!(chunk.blocks.len(), CHUNK_SIZE * CHUNK_SIZE * CHUNK_SIZE);
    assert_eq!(chunk.blocks.len(), CHUNK_VOLUME);
    assert!(chunk.blocks.iter().all(|b| *b == BlockId::air()));
}

#[test]
fn block_ids_are_distinct() {
    assert_eq!(BlockId::air(), BlockId(0));
    assert_eq!(BlockId::test(), BlockId(1));
    assert_eq!(BlockId::panel(), BlockId(2));
    assert!(BlockId::air().is_air());
    assert!(!BlockId::test().is_air());
}

#[test]
fn set_then_get_block() {
    let mut chunk = Chunk::default();
    chunk.set_block(1, 2, 3, BlockId::test());
    assert_eq!(chunk.get_block(1, 2, 3), BlockId::test());
    assert_eq!(chunk.blocks[1 + 2 * 32 + 3 * 1024], BlockId::test());
    assert_eq!(chunk.get_block(3, 2, 1), BlockId::air());
    assert_eq!(chunk.blocks.len(), CHUNK_VOLUME);
}

#[test]
fn set_block_at_the_corners() {
    let mut chunk = Chunk::default();
    chunk.set_block(0, 0, 0, BlockId::panel());
    chunk.set_block(31, 31, 31, BlockId::test());
    assert_eq!(chunk.blocks[0], BlockId::panel());
    assert_eq!(chunk.blocks[CHUNK_VOLUME - 1], BlockId::test());
    assert_eq!(chunk.get_block(31, 31, 31), BlockId::test());
    assert_eq!(chunk.get_block(0, 0, 0), BlockId::panel());
}

#[test]
fn every_cell_has_its_own_index() {
    let mut chunk = Chunk::default();
    let mut n: u16 = 0;
    for z in 0..CHUNK_SIZE {
        for y in 0..CHUNK_SIZE {
            for x in 0..CHUNK_SIZE {
                chunk.set_block(x, y, z, BlockId(n));
                n = n.wrapping_add(1);
            }
        }
    }
    let mut n: u16 = 0;
    for z in 0..CHUNK_SIZE {
        for y in 0..CHUNK_SIZE {
            for x in 0..CHUNK_SIZE {
                assert_eq!(chunk.get_block(x, y, z), BlockId(n));
                assert_eq!(chunk.blocks[x + y * 32 + z * 1024], BlockId(n));
                n = n.wrapping_add(1);
            }
        }
    }
}

#[test]
fn filled_and_duplicate() {
    let mut chunk = Chunk::filled(BlockId::panel());
    assert!(chunk.blocks.iter().all(|b| *b == BlockId::panel()));
    chunk.set_block(4, 5, 6, BlockId::air());
    let copy = chunk.duplicate();
    assert_eq!(copy, chunk);
    assert_eq!(copy.get_block(4, 5, 6), BlockId::air());
}
