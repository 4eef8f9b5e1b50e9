use crate::game::world::BlockId;
use vstd::prelude::*;

verus! {

/// Edge length of a chunk, in blocks.
pub const CHUNK_SIZE: usize = 32;

/// Number of blocks in a chunk.
pub const CHUNK_VOLUME: usize = 32768;

/// Position of the cell `(x, y, z)` in a chunk's linear block array.
pub open spec fn index_of(x: int, y: int, z: int) -> int {
    x + y * 32 + z * 1024
}

/// The cell whose position in the linear block array is `i`.
pub open spec fn cell_of(i: int) -> (int, int, int) {
    (i % 32, (i / 32) % 32, i / 1024)
}

/// Whether `(x, y, z)` names a cell of a chunk.
pub open spec fn in_chunk(x: int, y: int, z: int) -> bool {
    0 <= x < 32 && 0 <= y < 32 && 0 <= z < 32
}

/// A cube of `CHUNK_SIZE`³ blocks, stored as one linear array.
#[derive(Debug, Clone, PartialEq, Eq)]
pub struct Chunk {
    pub blocks: Vec<BlockId>,
}

impl View for Chunk {
    type V = Seq<BlockId>;

    open spec fn view(&self) -> Seq<BlockId> {
        self.blocks@
    }
}

impl Chunk {
    /// The array holds exactly one block per cell.
    pub open spec fn wf(&self) -> bool {
        self.blocks@.len() == CHUNK_VOLUME
    }

    /// The block stored for the cell `(x, y, z)`.
    pub open spec fn block_at(&self, x: int, y: int, z: int) -> BlockId {
        self.blocks@[index_of(x, y, z)]
    }

    /// A chunk of `block` throughout.
    pub fn filled(block: BlockId) -> (chunk: Chunk)
        ensures
            chunk.wf(),
            forall|i: int| 0 <= i < CHUNK_VOLUME ==> chunk@[i] == block,
    {
        let mut blocks: Vec<BlockId> = Vec::with_capacity(CHUNK_VOLUME);
        let mut n: usize = 0;
        while n < CHUNK_VOLUME
            invariant
                n <= CHUNK_VOLUME,
                blocks@.len() == n,
                forall|i: int| 0 <= i < n ==> blocks@[i] == block,
            decreases CHUNK_VOLUME - n,
        {
            blocks.push(block);
            n += 1;
        }
        Chunk { blocks }
    }

    pub fn get_block(&self, x: usize, y: usize, z: usize) -> (block: BlockId)
        requires
            self.wf(),
            in_chunk(x as int, y as int, z as int),
        ensures
            block == self.block_at(x as int, y as int, z as int),
    {
        self.blocks[x + y * CHUNK_SIZE + z * CHUNK_SIZE * CHUNK_SIZE]
    }

    pub fn set_block(&mut self, x: usize, y: usize, z: usize, block: BlockId)
        requires
            old(self).wf(),
            in_chunk(x as int, y as int, z as int),
        ensures
            final(self)@ == old(self)@.update(index_of(x as int, y as int, z as int), block),
            final(self).wf(),
    {
        self.blocks.set(x + y * CHUNK_SIZE + z * CHUNK_SIZE * CHUNK_SIZE, block);
    }

    /// A copy with the same blocks.
    pub fn duplicate(&self) -> (copy: Chunk)
        ensures
            copy@ == self@,
    {
        let mut blocks: Vec<BlockId> = Vec::with_capacity(self.blocks.len());
        let mut n: usize = 0;
        while n < self.blocks.len()
            invariant
                n <= self.blocks@.len(),
                blocks@ == self.blocks@.take(n as int),
            decreases self.blocks@.len() - n,
        {
            blocks.push(self.blocks[n]);
            assert(self.blocks@.take(n as int + 1) == self.blocks@.take(n as int).push(
                self.blocks@[n as int],
            ));
            n += 1;
        }
        assert(self.blocks@.take(n as int) == self.blocks@);
        Chunk { blocks }
    }
}

impl Default for Chunk {
    /// A chunk of air.
    fn default() -> (chunk: Chunk)
        ensures
            chunk.wf(),
            forall|i: int| 0 <= i < CHUNK_VOLUME ==> chunk@[i] == BlockId::air(),
    {
        Chunk::filled(BlockId::air())
    }
}

/// Every cell of a chunk has a position inside the block array.
pub proof fn lemma_index_in_range(x: int, y: int, z: int)
    requires
        in_chunk(x, y, z),
    ensures
        0 <= index_of(x, y, z) < CHUNK_VOLUME,
{
}

/// The cell of a position is the cell the position was computed from.
pub proof fn lemma_cell_of_index(x: int, y: int, z: int)
    requires
        in_chunk(x, y, z),
    ensures
        cell_of(index_of(x, y, z)) == (x, y, z),
{
}

/// Every position inside the block array belongs to exactly the cell that
/// `cell_of` gives for it.
pub proof fn lemma_index_of_cell(i: int)
    requires
        0 <= i < CHUNK_VOLUME,
    ensures
        ({
            let (x, y, z) = cell_of(i);
            in_chunk(x, y, z) && index_of(x, y, z) == i
        }),
{
}

/// Two cells of a chunk that share a position are the same cell.
pub proof fn lemma_index_unique(x1: int, y1: int, z1: int, x2: int, y2: int, z2: int)
    requires
        in_chunk(x1, y1, z1),
        in_chunk(x2, y2, z2),
        index_of(x1, y1, z1) == index_of(x2, y2, z2),
    ensures
        x1 == x2 && y1 == y2 && z1 == z2,
{
    lemma_cell_of_index(x1, y1, z1);
    lemma_cell_of_index(x2, y2, z2);
}

} // verus!
