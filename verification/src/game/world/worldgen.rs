use crate::game::world::chunk::{cell_of, index_of, Chunk, CHUNK_SIZE, CHUNK_VOLUME};
use crate::game::world::position::ChunkPos;
use crate::game::world::BlockId;
use vstd::prelude::*;

verus! {

/// A triangle wave over the integers: period 64, values from -16 to 16,
/// -16 at every multiple of 64.
pub open spec fn wave(n: int) -> int {
    let t = n % 64;
    if t < 32 {
        t - 16
    } else {
        48 - t
    }
}

/// Height of the terrain over the block column `(gx, gz)`, both in absolute
/// block coordinates: the product of a wave along x and a wave along z, a
/// quarter period apart, scaled to the range 0 to 20 and rounded.
pub open spec fn column_height(gx: int, gz: int) -> int {
    (wave(gx + 16) * wave(gz + 32) * 10 + 2688) / 256
}

/// The block that generation puts at the cell `(x, y, z)` of the chunk at
/// `pos`: terrain below the column's height in the chunks of layer 0, air
/// everywhere else.
pub open spec fn terrain_block(pos: ChunkPos, x: int, y: int, z: int) -> BlockId {
    if pos.y == 0 && y < column_height(pos.x * 32 + x, pos.z * 32 + z) {
        BlockId::test()
    } else {
        BlockId::air()
    }
}

/// The blocks of the generated chunk at `pos`.
pub open spec fn terrain(pos: ChunkPos) -> Seq<BlockId> {
    Seq::new(
        CHUNK_VOLUME as nat,
        |i: int|
            {
                let (x, y, z) = cell_of(i);
                terrain_block(pos, x, y, z)
            },
    )
}

/// The wave at `n`.
fn wave_at(n: i64) -> (w: i64)
    requires
        -0x40_0000_0000 <= n <= 0x40_0000_0000,
    ensures
        w == wave(n as int),
        -16 <= w <= 16,
{
    let t: i64 = (n + 0x40_0000_0000) % 64;
    if t < 32 {
        t - 16
    } else {
        48 - t
    }
}

/// The terrain height over one block column.
fn height_at(gx: i64, gz: i64) -> (h: usize)
    requires
        -0x20_0000_0000 <= gx <= 0x20_0000_0000,
        -0x20_0000_0000 <= gz <= 0x20_0000_0000,
    ensures
        h == column_height(gx as int, gz as int),
        h <= 20,
{
    let a = wave_at(gx + 16);
    let b = wave_at(gz + 32);
    assert(-256 <= a * b <= 256) by (nonlinear_arith)
        requires
            -16 <= a <= 16,
            -16 <= b <= 16,
    ;
    let scaled: i64 = a * b * 10 + 2688;
    (scaled / 256) as usize
}

/// The terrain generator. It has no state: a chunk depends on its
/// coordinate alone.
pub struct WorldGen {}

impl WorldGen {
    /// Generates the chunk at `chunk_pos`.
    pub fn generate(&self, chunk_pos: ChunkPos) -> (chunk: Chunk)
        ensures
            chunk.wf(),
            chunk@ == terrain(chunk_pos),
    {
        let mut chunk = Chunk::default();
        if chunk_pos.y != 0 {
            assert(chunk@ =~= terrain(chunk_pos));
            return chunk;
        }
        let mut x: usize = 0;
        while x < CHUNK_SIZE
            invariant
                x <= CHUNK_SIZE,
                chunk_pos.y == 0,
                chunk.wf(),
                forall|i: int|
                    0 <= i < CHUNK_VOLUME ==> #[trigger] chunk@[i] == if cell_of(i).0 < x {
                        terrain(chunk_pos)[i]
                    } else {
                        BlockId::air()
                    },
            decreases CHUNK_SIZE - x,
        {
            let mut z: usize = 0;
            while z < CHUNK_SIZE
                invariant
                    x < CHUNK_SIZE,
                    z <= CHUNK_SIZE,
                    chunk_pos.y == 0,
                    chunk.wf(),
                    forall|i: int|
                        0 <= i < CHUNK_VOLUME ==> #[trigger] chunk@[i] == if cell_of(i).0 < x || (
                        cell_of(i).0 == x && cell_of(i).2 < z) {
                            terrain(chunk_pos)[i]
                        } else {
                            BlockId::air()
                        },
                decreases CHUNK_SIZE - z,
            {
                let height = height_at(
                    chunk_pos.x as i64 * 32 + x as i64,
                    chunk_pos.z as i64 * 32 + z as i64,
                );
                let mut y: usize = 0;
                while y < height
                    invariant
                        x < CHUNK_SIZE,
                        z < CHUNK_SIZE,
                        y <= height <= 20,
                        chunk_pos.y == 0,
                        height == column_height(chunk_pos.x * 32 + x, chunk_pos.z * 32 + z),
                        chunk.wf(),
                        forall|i: int|
                            0 <= i < CHUNK_VOLUME ==> #[trigger] chunk@[i] == if cell_of(i).0 < x
                                || (cell_of(i).0 == x && cell_of(i).2 < z) {
                                terrain(chunk_pos)[i]
                            } else if cell_of(i).0 == x && cell_of(i).2 == z && cell_of(i).1 < y {
                                BlockId::test()
                            } else {
                                BlockId::air()
                            },
                    decreases height - y,
                {
                    chunk.set_block(x, y, z, BlockId::test());
                    assert(cell_of(index_of(x as int, y as int, z as int)) == (
                        x as int,
                        y as int,
                        z as int,
                    ));
                    y += 1;
                }
                z += 1;
            }
            x += 1;
        }
        assert(chunk@ =~= terrain(chunk_pos));
        chunk
    }
}

/// The terrain is never higher than 20 blocks, so the upper twelve rows of
/// every chunk are air.
pub proof fn lemma_height_in_range(gx: int, gz: int)
    ensures
        0 <= column_height(gx, gz) <= 20,
{
    let a = wave(gx + 16);
    let b = wave(gz + 32);
    assert(-256 <= a * b <= 256) by (nonlinear_arith)
        requires
            -16 <= a <= 16,
            -16 <= b <= 16,
    ;
}

/// Generation gives every chunk a full block array, whatever its coordinate.
pub proof fn lemma_terrain_is_full(pos: ChunkPos)
    ensures
        terrain(pos).len() == CHUNK_VOLUME,
{
}

/// Terrain depends on absolute block coordinates alone, so neighbouring
/// chunks tile without a seam: the block at a cell is the one that any other
/// chunk of the same layer gives the same absolute column.
pub proof fn lemma_terrain_tiles(a: ChunkPos, b: ChunkPos, xa: int, xb: int, y: int, za: int, zb: int)
    requires
        a.y == b.y,
        a.x * 32 + xa == b.x * 32 + xb,
        a.z * 32 + za == b.z * 32 + zb,
    ensures
        terrain_block(a, xa, y, za) == terrain_block(b, xb, y, zb),
{
}

} // verus!
