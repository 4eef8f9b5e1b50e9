use vstd::arithmetic::div_mod::*;
use vstd::arithmetic::power2::*;
use vstd::bits::*;
use vstd::prelude::*;

verus! {

/// Integer coordinate of a chunk, in chunk-space.
#[derive(Clone, Copy, PartialEq, Eq, Structural, Hash, Debug)]
pub struct ChunkPos {
    pub x: i32,
    pub y: i32,
    pub z: i32,
}

/// A chunk coordinate as the key of a chunk store: x, y and z.
pub type ChunkKey = (i32, i32, i32);

/// The key of the chunk at `pos`.
pub open spec fn key_of(pos: ChunkPos) -> ChunkKey {
    (pos.x, pos.y, pos.z)
}

/// The chunk whose key is `key`.
pub open spec fn pos_of(key: ChunkKey) -> ChunkPos {
    ChunkPos { x: key.0, y: key.1, z: key.2 }
}

/// A position in block-space. Each axis holds the bit pattern of an IEEE-754
/// single-precision number, so that positions travel through the library
/// unchanged, bit for bit.
#[derive(Clone, Copy, PartialEq, Eq, Structural, Hash, Debug)]
pub struct WorldPos {
    pub x: u32,
    pub y: u32,
    pub z: u32,
}

/// Whether the sign bit of the number is set.
pub open spec fn f32_negative(bits: u32) -> bool {
    bits >= 0x8000_0000
}

/// The biased exponent of the number, 0 to 255.
pub open spec fn f32_exponent(bits: u32) -> int {
    (bits as int % 0x8000_0000) / 0x80_0000
}

/// The fraction field of the number, 23 bits.
pub open spec fn f32_fraction(bits: u32) -> int {
    bits as int % 0x80_0000
}

/// Whether the bits encode a number, as opposed to an infinity or a NaN.
pub open spec fn f32_finite(bits: u32) -> bool {
    f32_exponent(bits) != 255
}

/// The number's value times 2^149, which is an integer for every finite
/// number: subnormals count in units of 2^-149, and a normal number with
/// biased exponent `e` is its 24-bit significand times 2^(e - 150).
pub open spec fn f32_scaled(bits: u32) -> int {
    let e = f32_exponent(bits);
    let f = f32_fraction(bits);
    let magnitude = if e == 0 {
        f
    } else {
        (0x80_0000 + f) * pow2((e - 1) as nat)
    };
    if f32_negative(bits) {
        -magnitude
    } else {
        magnitude
    }
}

/// The greatest integer not above the number's value divided by 32.
pub open spec fn f32_floor_div_32(bits: u32) -> int {
    f32_scaled(bits) / (pow2(154) as int)
}

/// The nearest `i32` to `v`.
pub open spec fn clamp_i32(v: int) -> i32 {
    if v < i32::MIN {
        i32::MIN
    } else if v > i32::MAX {
        i32::MAX
    } else {
        v as i32
    }
}

/// The chunk coordinate of a block-space coordinate: its value divided by
/// the chunk size and rounded down, brought into the range of `i32`. A NaN
/// maps to 0.
pub open spec fn chunk_coord_of(bits: u32) -> i32 {
    if f32_finite(bits) {
        clamp_i32(f32_floor_div_32(bits))
    } else if f32_fraction(bits) != 0 {
        0
    } else if f32_negative(bits) {
        i32::MIN
    } else {
        i32::MAX
    }
}

/// Division of a scaled magnitude, of either sign, by a scaled power of two.
proof fn lemma_scaled_floor(m: int, k: nat, a: nat)
    requires
        0 <= m,
    ensures
        (m * pow2(a)) / ((pow2(a) * pow2(k)) as int) == m / (pow2(k) as int),
        (-(m * pow2(a))) / ((pow2(a) * pow2(k)) as int) == if m % (pow2(k) as int) == 0 {
            -(m / (pow2(k) as int))
        } else {
            -(m / (pow2(k) as int)) - 1
        },
{
    lemma_pow2_pos(a);
    lemma_pow2_pos(k);
    let pa = pow2(a) as int;
    let pk = pow2(k) as int;
    let q = m / pk;
    let r = m % pk;
    lemma_fundamental_div_mod(m, pk);
    let d = pa * pk;
    assert(d > 0) by (nonlinear_arith)
        requires
            pa > 0,
            pk > 0,
            d == pa * pk,
    ;
    assert(m * pa == d * q + r * pa) by (nonlinear_arith)
        requires
            m == pk * q + r,
            d == pa * pk,
    ;
    assert(0 <= r * pa < d) by (nonlinear_arith)
        requires
            0 <= r < pk,
            pa > 0,
            d == pa * pk,
    ;
    lemma_div_multiples_vanish_fancy(q, r * pa, d);
    if r == 0 {
        assert(-(m * pa) == d * (-q) + 0) by (nonlinear_arith)
            requires
                m * pa == d * q + r * pa,
                r == 0,
        ;
        lemma_div_multiples_vanish_fancy(-q, 0, d);
    } else {
        assert(-(m * pa) == d * (-q - 1) + (pk - r) * pa) by (nonlinear_arith)
            requires
                m * pa == d * q + r * pa,
                d == pa * pk,
        ;
        assert(0 <= (pk - r) * pa < d) by (nonlinear_arith)
            requires
                0 < r < pk,
                pa > 0,
                d == pa * pk,
        ;
        lemma_div_multiples_vanish_fancy(-q - 1, (pk - r) * pa, d);
    }
}

/// The chunk coordinate of one block-space coordinate.
pub fn chunk_coord(bits: u32) -> (c: i32)
    ensures
        c == chunk_coord_of(bits),
{
    let negative = bits >= 0x8000_0000;
    let e: u32 = (bits % 0x8000_0000) / 0x80_0000;
    let f: u32 = bits % 0x80_0000;
    if e == 255 {
        return if f != 0 {
            0
        } else if negative {
            i32::MIN
        } else {
            i32::MAX
        };
    }
    let m: u32 = if e == 0 {
        f
    } else {
        f + 0x80_0000
    };
    let a: u32 = if e == 0 {
        0
    } else {
        e - 1
    };
    proof {
        lemma2_to64();
        assert(f32_scaled(bits) == if negative {
            -(m * pow2(a as nat))
        } else {
            m * pow2(a as nat)
        });
    }
    if a >= 154 {
        let sh: u32 = a - 154;
        proof {
            lemma_pow2_adds(154, sh as nat);
            lemma_pow2_pos(154);
            lemma_pow2_pos(sh as nat);
            let p154 = pow2(154) as int;
            let ps = pow2(sh as nat) as int;
            assert(m * pow2(a as nat) == p154 * (m * ps)) by (nonlinear_arith)
                requires
                    pow2(a as nat) == p154 * ps,
            ;
            lemma_div_multiples_vanish_fancy(m * ps, 0, p154);
            assert(-(m * pow2(a as nat)) == p154 * (-(m * ps))) by (nonlinear_arith)
                requires
                    m * pow2(a as nat) == p154 * (m * ps),
            ;
            lemma_div_multiples_vanish_fancy(-(m * ps), 0, p154);
        }
        if sh >= 8 {
            proof {
                if sh > 8 {
                    lemma_pow2_strictly_increases(8, sh as nat);
                }
                let ps = pow2(sh as nat) as int;
                assert(m * ps >= 0x8000_0000) by (nonlinear_arith)
                    requires
                        m >= 0x80_0000,
                        ps >= 0x100,
                ;
            }
            if negative {
                i32::MIN
            } else {
                i32::MAX
            }
        } else {
            let p: u32 = 1u32 << sh;
            proof {
                assert(1 * pow2(sh as nat) <= u32::MAX) by {
                    if sh < 7 {
                        lemma_pow2_strictly_increases(sh as nat, 7);
                    }
                }
                lemma_u32_shl_is_mul(1, sh);
                assert(p == pow2(sh as nat));
                assert(p <= 0x80) by {
                    if sh < 7 {
                        lemma_pow2_strictly_increases(sh as nat, 7);
                    }
                }
                assert(m * p < 0x8000_0000) by (nonlinear_arith)
                    requires
                        m < 0x100_0000,
                        p <= 0x80,
                ;
            }
            let v: i64 = (m as i64) * (p as i64);
            if negative {
                (-v) as i32
            } else {
                v as i32
            }
        }
    } else {
        let k: u32 = 154 - a;
        proof {
            lemma_pow2_adds(a as nat, k as nat);
            lemma_scaled_floor(m as int, k as nat, a as nat);
            lemma_pow2_pos(k as nat);
        }
        if k >= 24 {
            proof {
                if k > 24 {
                    lemma_pow2_strictly_increases(24, k as nat);
                }
                lemma_basic_div(m as int, pow2(k as nat) as int);
                lemma_small_mod(m as nat, pow2(k as nat));
            }
            if negative && m != 0 {
                -1
            } else {
                0
            }
        } else {
            let p: u32 = 1u32 << k;
            proof {
                lemma_pow2_strictly_increases(k as nat, 24);
                lemma_u32_shl_is_mul(1, k);
                assert(p == pow2(k as nat));
            }
            let q: u32 = m / p;
            let r: u32 = m % p;
            if !negative {
                q as i32
            } else if r == 0 {
                -(q as i32)
            } else {
                -(q as i32) - 1
            }
        }
    }
}

/// Conversion of a block-space position to the chunk that holds it.
pub trait ChunkVec3Ext {
    /// The chunk coordinate, axis by axis.
    spec fn chunk_pos(&self) -> ChunkPos;

    fn to_chunk_pos(&self) -> (pos: ChunkPos)
        ensures
            pos == self.chunk_pos(),
    ;
}

impl ChunkVec3Ext for WorldPos {
    open spec fn chunk_pos(&self) -> ChunkPos {
        ChunkPos {
            x: chunk_coord_of(self.x),
            y: chunk_coord_of(self.y),
            z: chunk_coord_of(self.z),
        }
    }

    fn to_chunk_pos(&self) -> (pos: ChunkPos) {
        ChunkPos { x: chunk_coord(self.x), y: chunk_coord(self.y), z: chunk_coord(self.z) }
    }
}

/// The chunk coordinate is the floor of the value over the chunk size: it is
/// the one integer `q` with `32 q <= value < 32 (q + 1)`, here with both
/// sides scaled by 2^149.
pub proof fn lemma_chunk_coord_is_floor(bits: u32)
    requires
        f32_finite(bits),
    ensures
        ({
            let q = f32_floor_div_32(bits);
            &&& 32 * q * pow2(149) <= f32_scaled(bits) < 32 * (q + 1) * pow2(149)
            &&& chunk_coord_of(bits) == clamp_i32(q)
        }),
{
    lemma_pow2_adds(5, 149);
    lemma2_to64();
    lemma_pow2_pos(154);
    let d = pow2(154) as int;
    let x = f32_scaled(bits);
    lemma_fundamental_div_mod(x, d);
    lemma_mod_bound(x, d);
    let q = x / d;
    assert(32 * q * pow2(149) == d * q) by (nonlinear_arith)
        requires
            d == 32 * pow2(149),
    ;
    assert(32 * (q + 1) * pow2(149) == d * q + d) by (nonlinear_arith)
        requires
            d == 32 * pow2(149),
    ;
}

/// For a coordinate whose value is the integer `n`, the chunk coordinate is
/// `n` divided by 32 and rounded down, for negative `n` too.
pub proof fn lemma_chunk_coord_of_integer(bits: u32, n: int)
    requires
        f32_finite(bits),
        f32_scaled(bits) == n * pow2(149),
    ensures
        chunk_coord_of(bits) == clamp_i32(n / 32),
        n / 32 * 32 <= n < n / 32 * 32 + 32,
{
    lemma_pow2_adds(5, 149);
    lemma2_to64();
    lemma_pow2_pos(149);
    let p = pow2(149) as int;
    let d = pow2(154) as int;
    let q = n / 32;
    let r = n % 32;
    lemma_fundamental_div_mod(n, 32);
    assert(n * p == d * q + r * p) by (nonlinear_arith)
        requires
            n == 32 * q + r,
            d == 32 * p,
    ;
    assert(0 <= r * p < d) by (nonlinear_arith)
        requires
            0 <= r < 32,
            p > 0,
            d == 32 * p,
    ;
    lemma_div_multiples_vanish_fancy(q, r * p, d);
}

} // verus!
