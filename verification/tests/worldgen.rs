use uvxl::game::world::chunk::{CHUNK_SIZE, CHUNK_VOLUME};
use uvxl::game::world::position::ChunkPos;
use uvxl::game::world::worldgen::WorldGen;
use uvxl::game::world::BlockId;

fn wave(n: i64) -> i64 {
    let t = n.rem_euclid(64);
    if t < 32 {
        t - 16
    } else {
        48 - t
    }
}

fn height(gx: i64, gz: i64) -> usize {
    ((wave(gx + 16) * wave(gz + 32) * 10 + 2688).div_euclid(256)) as usize
}

#[test]
fn generated_chunk_is_full_size() {
    let chunk = WorldGen {}.generate(ChunkPos { x: 0, y: 0, z: 0 });
    assert_eq!(chunk.blocks.len(), CHUNK_VOLUME);
}

#[test]
fn heights_at_known_columns() {
    let chunk = WorldGen {}.generate(ChunkPos { x: 0, y: 0, z: 0 });
    // column (0, 0): the x wave is 0, so the height is the middle, 10
    for y in 0..CHUNK_SIZE {
        let expected = if y < 10 { BlockId::test() } else { BlockId::air() };
        assert_eq!(chunk.get_block(0, y, 0), expected);
    }
    // column (16, 0): both waves at their top, height 20
    for y in 0..CHUNK_SIZE {
        let expected = if y < 20 { BlockId::test() } else { BlockId::air() };
        assert_eq!(chunk.get_block(16, y, 0), expected);
    }
    // column (16, 31): x wave 16, z wave -15, height 1
    assert_eq!(height(16, 31), 1);
    assert_eq!(chunk.get_block(16, 0, 31), BlockId::test());
    assert_eq!(chunk.get_block(16, 1, 31), BlockId::air());
}

#[test]
fn every_column_follows_the_height_field() {
    for pos in [ChunkPos { x: 0, y: 0, z: 0 }, ChunkPos { x: -3, y: 0, z: 7 }, ChunkPos { x: 1, y: 0, z: -1 }] {
        let chunk = WorldGen {}.generate(pos);
        for x in 0..CHUNK_SIZE {
            for z in 0..CHUNK_SIZE {
                let h = height(pos.x as i64 * 32 + x as i64, pos.z as i64 * 32 + z as i64);
                assert!(h <= 20);
                for y in 0..CHUNK_SIZE {
                    let expected = if y < h { BlockId::test() } else { BlockId::air() };
                    assert_eq!(chunk.get_block(x, y, z), expected, "{:?} {} {} {}", pos, x, y, z);
                }
            }
        }
    }
}

#[test]
fn chunks_off_the_ground_layer_are_air() {
    for y in [-2, -1, 1, 5] {
        let chunk = WorldGen {}.generate(ChunkPos { x: 4, y, z: -9 });
        assert_eq!(chunk.blocks.len(), CHUNK_VOLUME);
        assert!(chunk.blocks.iter().all(|b| *b == BlockId::air()));
    }
}

#[test]
fn generation_is_deterministic() {
    let pos = ChunkPos { x: 12, y: 0, z: -5 };
    assert_eq!(WorldGen {}.generate(pos), WorldGen {}.generate(pos));
}

#[test]
fn generation_at_the_edge_of_the_world() {
    let chunk = WorldGen {}.generate(ChunkPos { x: i32::MAX, y: 0, z: i32::MIN });
    assert_eq!(chunk.blocks.len(), CHUNK_VOLUME);
    let h = height(i32::MAX as i64 * 32 + 31, i32::MIN as i64 * 32);
    assert_eq!(chunk.get_block(31, 0, 0), if h > 0 { BlockId::test() } else { BlockId::air() });
}

#[test]
fn terrain_repeats_every_two_chunks() {
    let a = WorldGen {}.generate(ChunkPos { x: 0, y: 0, z: 0 });
    let b = WorldGen {}.generate(ChunkPos { x: 2, y: 0, z: -2 });
    assert_eq!(a, b);
}

#[test]
fn terrain_is_never_higher_than_twenty() {
    for gx in -200..200 {
        for gz in -200..200 {
            assert!(height(gx, gz) <= 20);
        }
    }
    assert_eq!(height(0, 0), 10);
    assert_eq!(height(16, 0), 20);
    assert_eq!(height(16, 32), 0);
    assert_eq!(height(-16, 0), 0);
    let chunk = WorldGen {}.generate(ChunkPos { x: 0, y: 0, z: 0 });
    for x in 0..CHUNK_SIZE {
        for z in 0..CHUNK_SIZE {
            for y in 20..CHUNK_SIZE {
                assert_eq!(chunk.get_block(x, y, z), BlockId::air());
            }
        }
    }
}
