use uvxl::game::client::mesher::{block_face, culled, index, simple, Vertex};
use uvxl::game::world::chunk::CHUNK_VOLUME;
use uvxl::game::world::position::ChunkPos;
use uvxl::game::world::worldgen::WorldGen;
use uvxl::game::world::BlockId;
use uvxl::util::side::Side;

fn v(x: isize, y: isize, z: isize, u_far: bool, v_far: bool, block: BlockId) -> Vertex {
    Vertex { x, y, z, u_far, v_far, block }
}

#[test]
fn index_inside_and_outside() {
    assert_eq!(index::<32>(0, 0, 0), 0);
    assert_eq!(index::<32>(1, 0, 0), 1);
    assert_eq!(index::<32>(0, 1, 0), 32);
    assert_eq!(index::<32>(0, 0, 1), 1024);
    assert_eq!(index::<32>(31, 31, 31), 32767);
    assert_eq!(index::<32>(5, 6, 7), 7 * 1024 + 6 * 32 + 5);
    assert_eq!(index::<32>(-1, 0, 0), 32768);
    assert_eq!(index::<32>(0, 32, 0), 32768);
    assert_eq!(index::<32>(0, 0, -5), 32768);
    assert_eq!(index::<32>(32, 31, 31), 32768);
    assert_eq!(index::<2>(1, 1, 1), 7);
    assert_eq!(index::<2>(2, 0, 0), 8);
    assert_eq!(index::<0>(0, 0, 0), 0);
}

#[test]
fn index_is_one_to_one() {
    let mut seen = vec![false; 4 * 4 * 4];
    for x in 0..4 {
        for y in 0..4 {
            for z in 0..4 {
                let i = index::<4>(x, y, z);
                assert!(i < 64);
                assert!(!seen[i]);
                seen[i] = true;
                assert_eq!((i % 4, (i / 4) % 4, i / 16), (x as usize, y as usize, z as usize));
            }
        }
    }
    assert!(seen.iter().all(|s| *s));
}

#[test]
fn faces_of_a_block() {
    let b = BlockId::test();
    assert_eq!(
        block_face(Side::Top, 3, 4, 5, b),
        [
            v(3, 5, 5, false, false, b),
            v(3, 5, 6, true, false, b),
            v(4, 5, 6, true, true, b),
            v(4, 5, 6, true, true, b),
            v(4, 5, 5, false, true, b),
            v(3, 5, 5, false, false, b),
        ]
    );
    assert_eq!(
        block_face(Side::Bottom, 0, 0, 0, b),
        [
            v(0, 0, 0, false, false, b),
            v(1, 0, 0, false, true, b),
            v(1, 0, 1, true, true, b),
            v(1, 0, 1, true, true, b),
            v(0, 0, 1, true, false, b),
            v(0, 0, 0, false, false, b),
        ]
    );
    assert_eq!(
        block_face(Side::Right, 0, 0, 0, b),
        [
            v(0, 0, 1, false, false, b),
            v(1, 0, 1, true, false, b),
            v(1, 1, 1, true, true, b),
            v(1, 1, 1, true, true, b),
            v(0, 1, 1, false, true, b),
            v(0, 0, 1, false, false, b),
        ]
    );
    assert_eq!(
        block_face(Side::Left, 0, 0, 0, b),
        [
            v(0, 0, 0, true, false, b),
            v(0, 1, 0, true, true, b),
            v(1, 1, 0, false, true, b),
            v(1, 1, 0, false, true, b),
            v(1, 0, 0, false, false, b),
            v(0, 0, 0, true, false, b),
        ]
    );
    assert_eq!(
        block_face(Side::Front, 0, 0, 0, b),
        [
            v(1, 0, 0, true, false, b),
            v(1, 1, 0, true, true, b),
            v(1, 1, 1, false, true, b),
            v(1, 1, 1, false, true, b),
            v(1, 0, 1, false, false, b),
            v(1, 0, 0, true, false, b),
        ]
    );
    assert_eq!(
        block_face(Side::Back, -2, 0, 7, b),
        [
            v(-2, 0, 7, false, false, b),
            v(-2, 0, 8, true, false, b),
            v(-2, 1, 8, true, true, b),
            v(-2, 1, 8, true, true, b),
            v(-2, 1, 7, false, true, b),
            v(-2, 0, 7, false, false, b),
        ]
    );
}

#[test]
fn every_face_lies_in_its_plane() {
    let b = BlockId::panel();
    for (side, axis, at) in [
        (Side::Top, 1, 11),
        (Side::Bottom, 1, 10),
        (Side::Right, 2, 21),
        (Side::Left, 2, 20),
        (Side::Front, 0, 6),
        (Side::Back, 0, 5),
    ] {
        let face = block_face(side, 5, 10, 20, b);
        for vertex in face.iter() {
            let coords = [vertex.x, vertex.y, vertex.z];
            assert_eq!(coords[axis], at);
            assert_eq!(vertex.block, b);
        }
        assert_eq!(face[0], face[5]);
        assert_eq!(face[2], face[3]);
    }
}

#[test]
fn air_has_no_mesh() {
    let data = vec![BlockId::air(); CHUNK_VOLUME];
    assert_eq!(culled::<32>(&data).len(), 0);
    assert_eq!(simple::<32>(&data).len(), 0);
    let none: Vec<BlockId> = Vec::new();
    assert_eq!(culled::<0>(&none).len(), 0);
}

#[test]
fn a_lone_block_keeps_all_faces() {
    let mut data = vec![BlockId::air(); 8];
    data[0] = BlockId::test();
    let all = simple::<2>(&data);
    let seen = culled::<2>(&data);
    assert_eq!(all.len(), 36);
    assert_eq!(seen, all);
    let b = BlockId::test();
    let mut expected = Vec::new();
    for side in [Side::Top, Side::Bottom, Side::Right, Side::Left, Side::Front, Side::Back] {
        expected.extend(block_face(side, 0, 0, 0, b));
    }
    assert_eq!(all, expected);
}

#[test]
fn a_single_cell_cube() {
    let data = vec![BlockId::panel()];
    assert_eq!(culled::<1>(&data).len(), 36);
    assert_eq!(simple::<1>(&data).len(), 36);
}

#[test]
fn touching_faces_are_culled() {
    let mut data = vec![BlockId::air(); 8];
    data[index::<2>(0, 0, 0)] = BlockId::test();
    data[index::<2>(1, 0, 0)] = BlockId::panel();
    let all = simple::<2>(&data);
    let seen = culled::<2>(&data);
    assert_eq!(all.len(), 72);
    assert_eq!(seen.len(), 60);
    let mut expected = Vec::new();
    for side in [Side::Top, Side::Bottom, Side::Right, Side::Left, Side::Back] {
        expected.extend(block_face(side, 0, 0, 0, BlockId::test()));
    }
    for side in [Side::Top, Side::Bottom, Side::Right, Side::Left, Side::Front] {
        expected.extend(block_face(side, 1, 0, 0, BlockId::panel()));
    }
    assert_eq!(seen, expected);
}

#[test]
fn cells_come_with_x_outermost() {
    let mut data = vec![BlockId::air(); 27];
    data[index::<3>(2, 0, 0)] = BlockId::test();
    data[index::<3>(0, 0, 2)] = BlockId::panel();
    data[index::<3>(0, 2, 0)] = BlockId(9);
    let all = simple::<3>(&data);
    assert_eq!(all.len(), 3 * 36);
    assert_eq!(all[0].block, BlockId::panel());
    assert_eq!(all[36].block, BlockId(9));
    assert_eq!(all[72].block, BlockId::test());
}

#[test]
fn a_solid_cube_shows_its_shell() {
    let data = vec![BlockId::test(); 8];
    assert_eq!(simple::<2>(&data).len(), 8 * 36);
    assert_eq!(culled::<2>(&data).len(), 24 * 6);
    let data = vec![BlockId::test(); 27];
    assert_eq!(simple::<3>(&data).len(), 27 * 36);
    assert_eq!(culled::<3>(&data).len(), 6 * 9 * 6);
}

#[test]
fn culled_is_never_longer_than_simple() {
    for pos in [ChunkPos { x: 0, y: 0, z: 0 }, ChunkPos { x: 5, y: 0, z: -3 }, ChunkPos { x: 0, y: 1, z: 0 }] {
        let chunk = WorldGen {}.generate(pos);
        let all = simple::<32>(&chunk.blocks);
        let seen = culled::<32>(&chunk.blocks);
        assert!(seen.len() <= all.len());
        let solid = chunk.blocks.iter().filter(|b| **b != BlockId::air()).count();
        assert_eq!(all.len(), solid * 36);
        assert_eq!(seen.len() % 6, 0);
        if solid > 0 {
            assert!(seen.len() < all.len());
            assert!(seen.len() > 0);
        }
    }
}

#[test]
fn chunk_borders_are_always_drawn() {
    let data = vec![BlockId::test(); CHUNK_VOLUME];
    let seen = culled::<32>(&data);
    assert_eq!(seen.len(), 6 * 32 * 32 * 6);
}
