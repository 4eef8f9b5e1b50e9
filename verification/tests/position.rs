use uvxl::game::world::position::{chunk_coord, ChunkPos, ChunkVec3Ext, WorldPos};

fn by_floats(x: f32) -> i32 {
    (x / 32.0).floor() as i32
}

#[test]
fn chunk_coord_of_small_values() {
    assert_eq!(chunk_coord(0.0f32.to_bits()), 0);
    assert_eq!(chunk_coord(31.0f32.to_bits()), 0);
    assert_eq!(chunk_coord(31.999f32.to_bits()), 0);
    assert_eq!(chunk_coord(32.0f32.to_bits()), 1);
    assert_eq!(chunk_coord(63.5f32.to_bits()), 1);
    assert_eq!(chunk_coord(64.0f32.to_bits()), 2);
    assert_eq!(chunk_coord(1000.0f32.to_bits()), 31);
}

#[test]
fn chunk_coord_rounds_down_below_zero() {
    assert_eq!(chunk_coord((-0.5f32).to_bits()), -1);
    assert_eq!(chunk_coord((-1.0f32).to_bits()), -1);
    assert_eq!(chunk_coord((-31.0f32).to_bits()), -1);
    assert_eq!(chunk_coord((-32.0f32).to_bits()), -1);
    assert_eq!(chunk_coord((-32.5f32).to_bits()), -2);
    assert_eq!(chunk_coord((-64.0f32).to_bits()), -2);
    assert_eq!(chunk_coord((-64.00001f32).to_bits()), -3);
    assert_eq!(chunk_coord((-0.0f32).to_bits()), 0);
}

#[test]
fn chunk_coord_of_what_is_no_number() {
    assert_eq!(chunk_coord(f32::NAN.to_bits()), 0);
    assert_eq!(chunk_coord(f32::INFINITY.to_bits()), i32::MAX);
    assert_eq!(chunk_coord(f32::NEG_INFINITY.to_bits()), i32::MIN);
    assert_eq!(chunk_coord(f32::MAX.to_bits()), i32::MAX);
    assert_eq!(chunk_coord(f32::MIN.to_bits()), i32::MIN);
}

#[test]
fn chunk_coord_at_the_edges_of_i32() {
    // 2^36 / 32 = 2^31, one above the greatest i32
    assert_eq!(chunk_coord(68719476736.0f32.to_bits()), i32::MAX);
    assert_eq!(chunk_coord((-68719476736.0f32).to_bits()), i32::MIN);
    // 2^35 / 32 = 2^30
    assert_eq!(chunk_coord(34359738368.0f32.to_bits()), 1 << 30);
    assert_eq!(chunk_coord((-34359738368.0f32).to_bits()), -(1 << 30));
}

#[test]
fn chunk_coord_of_tiny_values() {
    assert_eq!(chunk_coord(f32::MIN_POSITIVE.to_bits()), 0);
    assert_eq!(chunk_coord((-f32::MIN_POSITIVE).to_bits()), -1);
    // the smallest subnormal, and its negative, which still lies below zero
    assert_eq!(chunk_coord(1), 0);
    assert_eq!(chunk_coord(0x8000_0001), -1);
}

#[test]
fn chunk_coord_agrees_with_float_arithmetic() {
    let mut x = -5000.0f32;
    while x < 5000.0 {
        assert_eq!(chunk_coord(x.to_bits()), by_floats(x), "at {}", x);
        x += 0.37;
    }
    let mut bits: u32 = 0x0080_0000;
    while bits < 0x7f80_0000 {
        let up = f32::from_bits(bits);
        let down = f32::from_bits(bits | 0x8000_0000);
        // below 2^-100 a float quotient is not exact any more
        if up > 1.0e-30 {
            assert_eq!(chunk_coord(bits), by_floats(up), "at {}", up);
            assert_eq!(chunk_coord(bits | 0x8000_0000), by_floats(down), "at {}", down);
        }
        bits += 0x0001_2345;
    }
}

#[test]
fn to_chunk_pos_takes_each_axis() {
    let pos = WorldPos { x: 16.0f32.to_bits(), y: 34.0f32.to_bits(), z: (-16.0f32).to_bits() };
    assert_eq!(pos.to_chunk_pos(), ChunkPos { x: 0, y: 1, z: -1 });
    let pos = WorldPos { x: 100.0f32.to_bits(), y: (-100.0f32).to_bits(), z: 0.0f32.to_bits() };
    assert_eq!(pos.to_chunk_pos(), ChunkPos { x: 3, y: -4, z: 0 });
}
