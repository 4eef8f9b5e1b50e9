use crate::game::client::mesher::{culled, culled_mesh, Vertex};
use crate::game::world::chunk::Chunk;
use crate::game::world::chunk_manager::{lemma_packed_is_one_to_one, pack, packed};
use crate::game::world::position::{key_of, ChunkKey, ChunkPos};
use std::collections::HashMap;
use vstd::prelude::*;

verus! {

broadcast use vstd::std_specs::hash::group_hash_axioms;

/// The meshes that are ready to be drawn, by chunk coordinate.
pub struct ChunkRenderer {
    pub chunk_meshes: HashMap<u128, Vec<Vertex>>,
}

impl View for ChunkRenderer {
    type V = Map<ChunkKey, Seq<Vertex>>;

    open spec fn view(&self) -> Map<ChunkKey, Seq<Vertex>> {
        Map::new(
            |key: ChunkKey| self.chunk_meshes@.contains_key(packed(key)),
            |key: ChunkKey| self.chunk_meshes@[packed(key)]@,
        )
    }
}

proof fn lemma_other_keys_differ(pos: ChunkPos)
    ensures
        forall|key: ChunkKey| key != key_of(pos) ==> #[trigger] packed(key) != packed(key_of(pos)),
{
    assert forall|key: ChunkKey| key != key_of(pos) implies #[trigger] packed(key) != packed(
        key_of(pos),
    ) by {
        if packed(key) == packed(key_of(pos)) {
            lemma_packed_is_one_to_one(key, key_of(pos));
        }
    }
}

impl ChunkRenderer {
    /// A renderer without meshes.
    pub fn new() -> (renderer: ChunkRenderer)
        ensures
            renderer@ == Map::<ChunkKey, Seq<Vertex>>::empty(),
    {
        let renderer = ChunkRenderer { chunk_meshes: HashMap::new() };
        assert(renderer@ =~= Map::<ChunkKey, Seq<Vertex>>::empty());
        renderer
    }

    /// Keeps `vertices` as the mesh of the chunk at `chunk_pos`, in place of
    /// an earlier one.
    pub fn insert_mesh(&mut self, chunk_pos: ChunkPos, vertices: Vec<Vertex>)
        ensures
            final(self)@ == old(self)@.insert(key_of(chunk_pos), vertices@),
    {
        self.chunk_meshes.insert(pack(chunk_pos), vertices);
        proof {
            lemma_other_keys_differ(chunk_pos);
        }
        assert(self@ =~= old(self)@.insert(key_of(chunk_pos), vertices@));
    }

    /// Meshes `chunk` with culled faces and keeps the mesh for `chunk_pos`.
    pub fn add_chunk(&mut self, chunk_pos: ChunkPos, chunk: &Chunk)
        requires
            chunk.wf(),
        ensures
            final(self)@ == old(self)@.insert(key_of(chunk_pos), culled_mesh(chunk@, 32)),
    {
        let vertices = culled::<32>(chunk.blocks.as_slice());
        self.insert_mesh(chunk_pos, vertices);
    }

    /// Drops the mesh of the chunk at `chunk_pos`, if there is one.
    pub fn remove_chunk(&mut self, chunk_pos: ChunkPos)
        ensures
            final(self)@ == old(self)@.remove(key_of(chunk_pos)),
    {
        let n = pack(chunk_pos);
        self.chunk_meshes.remove(&n);
        proof {
            lemma_other_keys_differ(chunk_pos);
        }
        assert(self@ =~= old(self)@.remove(key_of(chunk_pos)));
    }

    /// Whether the chunk at `chunk_pos` has a mesh.
    pub fn has_mesh(&self, chunk_pos: ChunkPos) -> (found: bool)
        ensures
            found == self@.contains_key(key_of(chunk_pos)),
    {
        let n = pack(chunk_pos);
        self.chunk_meshes.contains_key(&n)
    }
}

} // verus!
