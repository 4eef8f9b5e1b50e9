use crate::game::world::chunk::Chunk;
use crate::game::world::position::{key_of, ChunkKey, ChunkPos};
use crate::game::world::worldgen::{terrain, WorldGen};
use crate::game::world::BlockId;
use dashmap::DashMap;
use vstd::prelude::*;

verus! {

/// `DashMap` of the dashmap crate: a hash map that several threads can
/// use at once. What it holds is known through the contracts of the
/// functions below, and through them alone.
#[verifier::external_type_specification]
#[verifier::external_body]
#[verifier::reject_recursive_types(K)]
#[verifier::reject_recursive_types(V)]
#[verifier::reject_recursive_types(S)]
pub struct ExDashMap<K, V, S>(DashMap<K, V, S>);

/// The entries of a chunk map: the blocks stored under each coordinate.
pub uninterp spec fn chunk_entries(table: DashMap<(i32, i32, i32), Chunk>) -> Map<
    (i32, i32, i32),
    Seq<BlockId>,
>;

/// The store without chunks.
pub open spec fn empty_store() -> Map<ChunkKey, Seq<BlockId>> {
    Map::empty()
}

/// `DashMap::new`: a map without entries.
#[verifier::external_body]
fn chunk_map_new() -> (table: DashMap<ChunkKey, Chunk>)
    ensures
        chunk_entries(table) == empty_store(),
{
    DashMap::new()
}

/// `DashMap::get`, followed by a copy of what it found: the chunk stored
/// under `key`, if the map has that key.
#[verifier::external_body]
fn chunk_map_get(table: &DashMap<ChunkKey, Chunk>, key: ChunkKey) -> (found: Option<Chunk>)
    ensures
        found is Some <==> chunk_entries(*table).contains_key(key),
        found matches Some(chunk) ==> chunk@ == chunk_entries(*table)[key],
{
    table.get(&key).map(|entry| entry.value().duplicate())
}

/// `DashMap::insert`: afterwards the map holds `chunk` under `key` and is
/// otherwise unchanged.
#[verifier::external_body]
fn chunk_map_insert(table: &mut DashMap<ChunkKey, Chunk>, key: ChunkKey, chunk: Chunk)
    ensures
        chunk_entries(*final(table)) == chunk_entries(*old(table)).insert(key, chunk@),
{
    table.insert(key, chunk);
}

/// The chunk store of the server: every chunk that was generated or handed
/// in so far, by coordinate.
pub struct ServerChunkManager {
    pub chunks: DashMap<ChunkKey, Chunk>,
}

impl View for ServerChunkManager {
    type V = Map<ChunkKey, Seq<BlockId>>;

    open spec fn view(&self) -> Map<ChunkKey, Seq<BlockId>> {
        chunk_entries(self.chunks)
    }
}

/// The store after a chunk was asked for at `pos`: as before where it held
/// one, else with the generated chunk added.
pub open spec fn with_generated(store: Map<ChunkKey, Seq<BlockId>>, pos: ChunkPos) -> Map<
    (i32, i32, i32),
    Seq<BlockId>,
> {
    if store.contains_key(key_of(pos)) {
        store
    } else {
        store.insert(key_of(pos), terrain(pos))
    }
}

/// The chunk that the store hands out for `pos`: the one it holds, or the
/// generated one.
pub open spec fn chunk_for(store: Map<ChunkKey, Seq<BlockId>>, pos: ChunkPos) -> Seq<BlockId> {
    if store.contains_key(key_of(pos)) {
        store[key_of(pos)]
    } else {
        terrain(pos)
    }
}

impl ServerChunkManager {
    /// The chunk stored at `pos`, if there is one.
    pub fn get(&self, pos: ChunkPos) -> (found: Option<Chunk>)
        ensures
            found is Some <==> self@.contains_key(key_of(pos)),
            found matches Some(chunk) ==> chunk@ == self@[key_of(pos)],
    {
        chunk_map_get(&self.chunks, (pos.x, pos.y, pos.z))
    }

    /// Stores `chunk` at `pos`, in place of what was there.
    pub fn insert(&mut self, pos: ChunkPos, chunk: Chunk)
        ensures
            final(self)@ == old(self)@.insert(key_of(pos), chunk@),
    {
        chunk_map_insert(&mut self.chunks, (pos.x, pos.y, pos.z), chunk);
    }

    /// The chunk stored at `pos`; where there is none, the chunk that `make`
    /// makes, which is then stored.
    pub fn get_or_insert<F: FnOnce() -> Chunk>(&mut self, pos: ChunkPos, make: F) -> (chunk: Chunk)
        requires
            make.requires(()),
        ensures
            old(self)@.contains_key(key_of(pos)) ==> chunk@ == old(self)@[key_of(pos)] && final(self)@
                == old(self)@,
            !old(self)@.contains_key(key_of(pos)) ==> make.ensures((), chunk) && final(self)@ == old(
                self,
            )@.insert(key_of(pos), chunk@),
    {
        match self.get(pos) {
            Some(chunk) => chunk,
            None => {
                let chunk = make();
                self.insert(pos, chunk.duplicate());
                chunk
            },
        }
    }

    /// The chunk stored at `pos`; where there is none, the chunk that
    /// `worldgen` generates for `pos`, which is then stored.
    pub fn get_or_generate(&mut self, pos: ChunkPos, worldgen: &WorldGen) -> (chunk: Chunk)
        ensures
            chunk@ == chunk_for(old(self)@, pos),
            final(self)@ == with_generated(old(self)@, pos),
    {
        let make = || -> (made: Chunk)
            ensures
                made@ == terrain(pos),
            { worldgen.generate(pos) };
        self.get_or_insert(pos, make)
    }
}

impl Default for ServerChunkManager {
    fn default() -> (store: ServerChunkManager)
        ensures
            store@ == empty_store(),
    {
        ServerChunkManager { chunks: chunk_map_new() }
    }
}

/// Asking for the same coordinate twice leaves the store as asking once
/// does, with exactly one entry for it, and hands out the same chunk both
/// times.
pub proof fn lemma_get_or_insert_idempotent(store: Map<ChunkKey, Seq<BlockId>>, pos: ChunkPos)
    ensures
        with_generated(with_generated(store, pos), pos) == with_generated(store, pos),
        chunk_for(with_generated(store, pos), pos) == chunk_for(store, pos),
        with_generated(store, pos).contains_key(key_of(pos)),
        with_generated(store, pos).dom() == store.dom().insert(key_of(pos)),
{
    assert(with_generated(store, pos).dom() =~= store.dom().insert(key_of(pos)));
}

} // verus!
