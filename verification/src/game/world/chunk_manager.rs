use crate::game::world::chunk::Chunk;
use crate::game::world::position::{key_of, ChunkKey, ChunkPos};
use crate::game::world::BlockId;
use std::collections::HashMap;
use vstd::prelude::*;

verus! {

broadcast use vstd::std_specs::hash::group_hash_axioms;

/// The number that stands for a chunk coordinate in a hash map: its three
/// axes, each moved into the range of 32 bits, side by side.
pub open spec fn packed(key: ChunkKey) -> u128 {
    ((key.0 + 0x8000_0000) * 0x1_0000_0000_0000_0000 + (key.1 + 0x8000_0000) * 0x1_0000_0000 + (key.2
        + 0x8000_0000)) as u128
}

/// Different coordinates have different numbers.
pub proof fn lemma_packed_is_one_to_one(a: ChunkKey, b: ChunkKey)
    requires
        packed(a) == packed(b),
    ensures
        a == b,
{
}

/// The number that stands for `pos`.
pub fn pack(pos: ChunkPos) -> (n: u128)
    ensures
        n == packed(key_of(pos)),
{
    let x: u128 = (pos.x as i64 + 0x8000_0000) as u128;
    let y: u128 = (pos.y as i64 + 0x8000_0000) as u128;
    let z: u128 = (pos.z as i64 + 0x8000_0000) as u128;
    x * 0x1_0000_0000_0000_0000 + y * 0x1_0000_0000 + z
}

/// The chunk store of a client: the chunks that the server has sent, by
/// coordinate.
pub struct ChunkManager {
    pub chunks: HashMap<u128, Chunk>,
}

impl View for ChunkManager {
    type V = Map<ChunkKey, Seq<BlockId>>;

    open spec fn view(&self) -> Map<ChunkKey, Seq<BlockId>> {
        Map::new(
            |key: ChunkKey| self.chunks@.contains_key(packed(key)),
            |key: ChunkKey| self.chunks@[packed(key)]@,
        )
    }
}

impl ChunkManager {
    /// Stores `chunk` at `pos`, in place of what was there.
    pub fn insert(&mut self, pos: ChunkPos, chunk: Chunk)
        ensures
            final(self)@ == old(self)@.insert(key_of(pos), chunk@),
    {
        self.chunks.insert(pack(pos), chunk);
        assert forall|key: ChunkKey| key != key_of(pos) implies #[trigger] packed(key) != packed(
            key_of(pos),
        ) by {
            if packed(key) == packed(key_of(pos)) {
                lemma_packed_is_one_to_one(key, key_of(pos));
            }
        }
        assert(self@ =~= old(self)@.insert(key_of(pos), chunk@));
    }

    /// The chunk stored at `pos`, if there is one.
    pub fn get(&self, pos: ChunkPos) -> (found: Option<&Chunk>)
        ensures
            found is Some <==> self@.contains_key(key_of(pos)),
            found matches Some(chunk) ==> chunk@ == self@[key_of(pos)],
    {
        let n = pack(pos);
        self.chunks.get(&n)
    }

    /// Whether a chunk is stored at `pos`.
    pub fn contains(&self, pos: ChunkPos) -> (found: bool)
        ensures
            found == self@.contains_key(key_of(pos)),
    {
        let n = pack(pos);
        self.chunks.contains_key(&n)
    }
}

impl Default for ChunkManager {
    fn default() -> (store: ChunkManager)
        ensures
            store@ == Map::<ChunkKey, Seq<BlockId>>::empty(),
    {
        let store = ChunkManager { chunks: HashMap::new() };
        assert(store@ =~= Map::<ChunkKey, Seq<BlockId>>::empty());
        store
    }
}

} // verus!
