use crate::game::entity::player::EntityPlayer;
use crate::game::entity::{EntityState, EntityStateView};
use crate::game::network::packet::{
    ClientJoinSuccessServerPacket, ClientMessage, ClientPacket, ErrorServerPacket,
    InitialChunkDataServerPacket, InitialPlayerData, PlayerEntry, PlayerJoinServerPacket,
    PlayerMoveServerPacket, ServerError, ServerMessage, ServerPacket, roster_view,
};
use crate::game::network::wire::{decode_client_packet, parse_client, server_message_fits};
use crate::game::player::{Player, PlayerView};
use crate::game::world::chunk::{Chunk, CHUNK_VOLUME};
use crate::game::world::position::{
    f32_scaled, key_of, lemma_chunk_coord_of_integer, pos_of, ChunkKey, ChunkPos, ChunkVec3Ext,
    WorldPos,
};
use crate::game::world::worldgen::{terrain, WorldGen};
use crate::game::world::BlockId;
use crate::server::peers::{
    lists_keys, no_peers, peer_entries, peer_map_get, peer_map_insert, peer_map_keys,
    peer_map_new, peer_map_remove, PeerAddr, PeerKey,
};
use crate::server::player::{fresh_peer, PeerState, ServerPlayer};
use crate::server::server_settings::ServerSettings;
use crate::server::stream::{
    lemma_step_along_x, lemma_volume_len, radius_of, update_chunks, view_update, view_volume,
    volume_chunks,
};
use crate::server::world::chunk_manager::{
    chunk_for, empty_store, with_generated, ServerChunkManager,
};
use crate::server::world::world::ServerWorld;
use dashmap::DashMap;
use vstd::arithmetic::power2::*;
use vstd::prelude::*;

verus! {

/// A packet on its way to one peer.
#[derive(Debug, Clone, PartialEq, Eq)]
pub struct Outbound {
    pub to: PeerAddr,
    pub packet: ServerPacket,
}

/// A packet on its way to one peer, as a mathematical value.
pub struct Delivery {
    pub to: PeerKey,
    pub message: ServerMessage,
}

impl View for Outbound {
    type V = Delivery;

    open spec fn view(&self) -> Delivery {
        Delivery { to: self.to.key(), message: self.packet@ }
    }
}

/// The deliveries of a vector of outbound packets, in order.
pub open spec fn deliveries(outbound: Seq<Outbound>) -> Seq<Delivery> {
    Seq::new(outbound.len(), |i: int| outbound[i]@)
}

/// How the handling of a packet ended.
#[derive(Debug, Clone, Copy, PartialEq, Eq, Structural)]
pub enum Status {
    /// The packet was handled.
    Done,
    /// The bytes were no packet. Nothing was changed or sent.
    Malformed,
    /// A join asked for a name that another connected peer has. The
    /// rejection went to the peer that asked, and nothing was changed.
    NameTaken,
    /// The address is not that of a connected peer. Nothing was changed or
    /// sent.
    UnknownPeer,
}

/// What the handling of a packet asks to be sent, and how it ended. The
/// packets for one peer stand in the order in which that peer is to get
/// them.
#[derive(Debug, Clone, PartialEq, Eq)]
pub struct Reply {
    pub outbound: Vec<Outbound>,
    pub status: Status,
}

/// The server's state as a mathematical value.
pub struct ServerState {
    pub peers: Map<PeerKey, PeerState>,
    pub chunks: Map<ChunkKey, Seq<BlockId>>,
    pub settings: ServerSettings,
}

/// Where a player stands after joining: `(16, 34, 16)`.
pub open spec fn spawn() -> WorldPos {
    WorldPos { x: 0x4180_0000, y: 0x4208_0000, z: 0x4180_0000 }
}

/// The origin, `(0, 0, 0)`.
pub open spec fn origin() -> WorldPos {
    WorldPos { x: 0, y: 0, z: 0 }
}

/// Whether every chunk of the store is the one that generation gives its
/// coordinate.
pub open spec fn all_generated(chunks: Map<ChunkKey, Seq<BlockId>>) -> bool {
    forall|key: ChunkKey| chunks.contains_key(key) ==> #[trigger] chunks[key] == terrain(pos_of(key))
}

/// The store after each of `coords` was asked for in turn.
pub open spec fn generated_all(chunks: Map<ChunkKey, Seq<BlockId>>, coords: Seq<ChunkPos>) -> Map<
    ChunkKey,
    Seq<BlockId>,
>
    decreases coords.len(),
{
    if coords.len() == 0 {
        chunks
    } else {
        with_generated(generated_all(chunks, coords.drop_last()), coords.last())
    }
}

/// Of the first `count` keys of `order`, those of connected peers other
/// than `me`, in order.
pub open spec fn others_upto(
    order: Seq<PeerKey>,
    peers: Map<PeerKey, PeerState>,
    me: PeerKey,
    count: int,
) -> Seq<PeerKey>
    decreases count,
{
    if count <= 0 {
        Seq::empty()
    } else {
        let before = others_upto(order, peers, me, count - 1);
        let key = order[count - 1];
        if key != me && peers.contains_key(key) {
            before.push(key)
        } else {
            before
        }
    }
}

/// The keys of `order` that belong to connected peers other than `me`.
pub open spec fn others_of(order: Seq<PeerKey>, peers: Map<PeerKey, PeerState>, me: PeerKey) -> Seq<
    PeerKey,
> {
    others_upto(order, peers, me, order.len() as int)
}

/// What a roster says of a peer.
pub open spec fn entry_of(peer: PeerState) -> PlayerEntry {
    PlayerEntry {
        uuid: peer.player.uuid,
        name: peer.player.name,
        position: peer.player.entity.position,
    }
}

/// The roster of the peers `others`.
pub open spec fn roster_of(others: Seq<PeerKey>, peers: Map<PeerKey, PeerState>) -> Seq<PlayerEntry> {
    Seq::new(others.len(), |i: int| entry_of(peers[others[i]]))
}

/// Whether one of the peers `others` has the name `name`.
pub open spec fn name_taken(
    others: Seq<PeerKey>,
    peers: Map<PeerKey, PeerState>,
    name: Seq<char>,
) -> bool {
    exists|i: int| 0 <= i < others.len() && (#[trigger] peers[others[i]]).player.name == name
}

/// The same message for each of `others`.
pub open spec fn notices(others: Seq<PeerKey>, message: ServerMessage) -> Seq<Delivery> {
    Seq::new(others.len(), |i: int| Delivery { to: others[i], message })
}

/// The chunk of each of `coords`, for `to`: the one that the store
/// `chunks` holds, or the generated one where it holds none.
pub open spec fn chunk_deliveries(
    to: PeerKey,
    chunks: Map<ChunkKey, Seq<BlockId>>,
    coords: Seq<ChunkPos>,
) -> Seq<Delivery> {
    Seq::new(
        coords.len(),
        |i: int|
            Delivery {
                to,
                message: ServerMessage::ChunkData {
                    blocks: chunk_for(chunks, coords[i]),
                    coord: coords[i],
                },
            },
    )
}

/// The record of a peer that joined as `name` with the id `uuid`: it stands
/// at the spawn position, and the view volume around that position is what
/// was last streamed to it.
pub open spec fn joined_peer(name: Seq<char>, uuid: u128) -> PeerState {
    PeerState {
        player: PlayerView {
            uuid,
            name,
            entity: EntityStateView { title: Some(name), position: spawn() },
        },
        last_chunk: Some(spawn().chunk_pos()),
    }
}

/// The record of a peer that moved to `position`.
pub open spec fn moved_peer(before: PeerState, position: WorldPos) -> PeerState {
    PeerState {
        player: PlayerView {
            uuid: before.player.uuid,
            name: before.player.name,
            entity: EntityStateView { title: before.player.entity.title, position },
        },
        last_chunk: Some(position.chunk_pos()),
    }
}

/// What handling a join does: the state afterwards, the deliveries, and how
/// it ended. `order` is the order in which the peer map hands out its keys,
/// and `uuid` the id drawn for the player.
///
/// A join from an address that is not connected does nothing. A join under
/// a name that another connected peer has sends the rejection to the peer
/// that asked and changes nothing. Any other join tells every other peer of
/// the new player, records the player's id, name, title and spawn position,
/// sends the acceptance with the roster of the other peers, and then every
/// chunk of the view volume around the spawn position.
pub open spec fn join_result(
    before: ServerState,
    me: PeerKey,
    name: Seq<char>,
    uuid: u128,
    order: Seq<PeerKey>,
) -> (ServerState, Seq<Delivery>, Status) {
    let others = others_of(order, before.peers, me);
    if !before.peers.contains_key(me) {
        (before, Seq::empty(), Status::UnknownPeer)
    } else if name_taken(others, before.peers, name) {
        (
            before,
            seq![
                Delivery {
                    to: me,
                    message: ServerMessage::Error { error: ServerError::PlayerLoggedIn },
                },
            ],
            Status::NameTaken,
        )
    } else {
        let volume = volume_chunks(
            spawn().chunk_pos(),
            before.settings.horizontal_render_distance,
            before.settings.vertical_render_distance,
        );
        (
            ServerState {
                peers: before.peers.insert(me, joined_peer(name, uuid)),
                chunks: generated_all(before.chunks, volume),
                settings: before.settings,
            },
            notices(others, ServerMessage::PlayerJoin { uuid, name, position: origin() }) + seq![
                Delivery {
                    to: me,
                    message: ServerMessage::JoinSuccess {
                        uuid,
                        position: spawn(),
                        players: roster_of(others, before.peers),
                    },
                },
            ] + chunk_deliveries(me, before.chunks, volume),
            Status::Done,
        )
    }
}

/// What handling a move does. A move from an address that is not connected
/// does nothing. Any other move tells every other peer of the new position,
/// records it, and sends chunks to the peer that moved: the whole view
/// volume where nothing was streamed to it yet, and else the chunks that
/// newly enter its view, which are none while it stays in the chunk around
/// which it was last streamed.
pub open spec fn move_result(
    before: ServerState,
    me: PeerKey,
    position: WorldPos,
    order: Seq<PeerKey>,
) -> (ServerState, Seq<Delivery>, Status) {
    if !before.peers.contains_key(me) {
        (before, Seq::empty(), Status::UnknownPeer)
    } else {
        let peer = before.peers[me];
        let slab = update_chunks(
            peer.last_chunk,
            position.chunk_pos(),
            before.settings.horizontal_render_distance,
            before.settings.vertical_render_distance,
        );
        (
            ServerState {
                peers: before.peers.insert(me, moved_peer(peer, position)),
                chunks: generated_all(before.chunks, slab),
                settings: before.settings,
            },
            notices(
                others_of(order, before.peers, me),
                ServerMessage::PlayerMove { uuid: peer.player.uuid, position },
            ) + chunk_deliveries(me, before.chunks, slab),
            Status::Done,
        )
    }
}

/// Whether every chunk among the deliveries is the generated one of its
/// coordinate.
pub open spec fn carries_generated_chunks(sent: Seq<Delivery>) -> bool {
    forall|i: int|
        0 <= i < sent.len() ==> match (#[trigger] sent[i]).message {
            ServerMessage::ChunkData { blocks, coord } => blocks == terrain(coord),
            _ => true,
        }
}

/// Whether `uuid` has the version and variant marks of a random id.
pub open spec fn random_uuid(uuid: u128) -> bool {
    (uuid / 0x1000_0000_0000_0000_0000) % 16 == 4 && (uuid / 0x4000_0000_0000_0000) % 4 == 2
}

/// `Uuid::new_v4` of the uuid crate, read as a number with
/// `Uuid::as_u128`: a random id, which carries version 4 and the RFC variant
/// whatever the random bits are.
#[verifier::external_body]
fn fresh_uuid() -> (uuid: u128)
    ensures
        random_uuid(uuid),
{
    uuid::Uuid::new_v4().as_u128()
}

/// The server: who is connected, the chunks generated so far, and how far
/// each player sees.
pub struct Server {
    peers: DashMap<PeerKey, ServerPlayer>,
    world: ServerWorld,
    settings: ServerSettings,
    worldgen: WorldGen,
}

impl View for Server {
    type V = ServerState;

    closed spec fn view(&self) -> ServerState {
        ServerState {
            peers: peer_entries(self.peers),
            chunks: self.world.chunk_manager@,
            settings: self.settings,
        }
    }
}

/// Asking for chunks never changes which chunk the store hands out for a
/// coordinate.
proof fn lemma_chunk_for_stays(chunks: Map<ChunkKey, Seq<BlockId>>, coords: Seq<ChunkPos>, pos: ChunkPos)
    ensures
        chunk_for(generated_all(chunks, coords), pos) == chunk_for(chunks, pos),
    decreases coords.len(),
{
    if coords.len() > 0 {
        lemma_chunk_for_stays(chunks, coords.drop_last(), pos);
        if key_of(coords.last()) == key_of(pos) {
            assert(coords.last() == pos);
        }
    }
}

impl Server {
    /// The invariant of a server: every chunk in its store is the generated
    /// one of its coordinate. The constructors establish it and every
    /// operation keeps it.
    pub open spec fn wf(&self) -> bool {
        all_generated(self@.chunks)
    }

    /// A server without peers or chunks that streams 2 chunks far
    /// horizontally and 3 vertically.
    pub fn new() -> (server: Server)
        ensures
            server.wf(),
            server@.peers == no_peers(),
            server@.chunks == empty_store(),
            server@.settings == (ServerSettings {
                vertical_render_distance: 3,
                horizontal_render_distance: 2,
            }),
    {
        Server::with_settings(
            ServerSettings { vertical_render_distance: 3, horizontal_render_distance: 2 },
        )
    }

    /// A server without peers or chunks that streams as far as `settings`
    /// say.
    pub fn with_settings(settings: ServerSettings) -> (server: Server)
        ensures
            server.wf(),
            server@.peers == no_peers(),
            server@.chunks == empty_store(),
            server@.settings == settings,
    {
        Server {
            peers: peer_map_new(),
            world: ServerWorld::default(),
            settings,
            worldgen: WorldGen {  },
        }
    }

    /// Registers a peer that has just connected, with a fresh record.
    pub fn connect(&mut self, peer_addr: PeerAddr)
        ensures
            final(self)@ == (ServerState {
                peers: old(self)@.peers.insert(peer_addr.key(), fresh_peer()),
                ..old(self)@
            }),
            old(self).wf() ==> final(self).wf(),
    {
        peer_map_insert(&mut self.peers, (peer_addr.ip, peer_addr.port), ServerPlayer::default());
    }

    /// Forgets a peer whose connection has ended.
    pub fn disconnect(&mut self, peer_addr: PeerAddr)
        ensures
            final(self)@ == (ServerState {
                peers: old(self)@.peers.remove(peer_addr.key()),
                ..old(self)@
            }),
            old(self).wf() ==> final(self).wf(),
    {
        peer_map_remove(&mut self.peers, (peer_addr.ip, peer_addr.port));
    }

    /// The record of a connected peer.
    pub fn peer(&self, peer_addr: PeerAddr) -> (found: Option<ServerPlayer>)
        ensures
            found is Some <==> self@.peers.contains_key(peer_addr.key()),
            found matches Some(peer) ==> peer@ == self@.peers[peer_addr.key()],
    {
        peer_map_get(&self.peers, (peer_addr.ip, peer_addr.port))
    }

    /// The addresses of the connected peers, each once.
    pub fn peer_addrs(&self) -> (addrs: Vec<PeerAddr>)
        ensures
            lists_keys(Seq::new(addrs@.len(), |i: int| addrs@[i].key()), self@.peers),
    {
        let keys = peer_map_keys(&self.peers);
        let mut addrs: Vec<PeerAddr> = Vec::new();
        let mut n: usize = 0;
        while n < keys.len()
            invariant
                n <= keys@.len(),
                addrs@.len() == n,
                forall|i: int| 0 <= i < n ==> (#[trigger] addrs@[i]).key() == keys@[i],
            decreases keys@.len() - n,
        {
            addrs.push(PeerAddr::of_key(keys[n]));
            n += 1;
        }
        assert(Seq::new(addrs@.len(), |i: int| addrs@[i].key()) =~= keys@);
        addrs
    }

    /// The stored chunk at `pos`, if it was generated already.
    pub fn chunk(&self, pos: ChunkPos) -> (found: Option<Chunk>)
        ensures
            found is Some <==> self@.chunks.contains_key(key_of(pos)),
            found matches Some(chunk) ==> chunk@ == self@.chunks[key_of(pos)],
            self.wf() ==> (found matches Some(chunk) ==> chunk@ == terrain(pos)),
    {
        assert(pos_of(key_of(pos)) == pos);
        self.world.chunk_manager.get(pos)
    }
}

/// Whether handling a join of `name` from `me` can have led from `before`
/// to `after`, the deliveries `sent` and the status `status`: it did so for
/// some random id and some order in which the peer map handed out its keys.
pub open spec fn join_handled(
    before: ServerState,
    after: ServerState,
    sent: Seq<Delivery>,
    status: Status,
    me: PeerKey,
    name: Seq<char>,
) -> bool {
    exists|uuid: u128, order: Seq<PeerKey>|
        random_uuid(uuid) && lists_keys(order, before.peers) && #[trigger] join_result(
            before,
            me,
            name,
            uuid,
            order,
        ) == (after, sent, status)
}

/// Whether handling a move of `me` to `position` can have led from `before`
/// to `after`, the deliveries `sent` and the status `status`: it did so for
/// some order in which the peer map handed out its keys.
pub open spec fn move_handled(
    before: ServerState,
    after: ServerState,
    sent: Seq<Delivery>,
    status: Status,
    me: PeerKey,
    position: WorldPos,
) -> bool {
    exists|order: Seq<PeerKey>|
        lists_keys(order, before.peers) && #[trigger] move_result(before, me, position, order) == (
            after,
            sent,
            status,
        )
}

impl Server {
    /// The keys of `order` that belong to connected peers other than `me`.
    fn others(&self, order: &Vec<PeerKey>, me: PeerKey) -> (others: Vec<PeerKey>)
        ensures
            others@ == others_of(order@, self@.peers, me),
            forall|i: int| 0 <= i < others@.len() ==> self@.peers.contains_key(#[trigger] others@[i]),
    {
        let mut others: Vec<PeerKey> = Vec::new();
        let mut n: usize = 0;
        while n < order.len()
            invariant
                n <= order@.len(),
                others@ == others_upto(order@, self@.peers, me, n as int),
                forall|i: int|
                    0 <= i < others@.len() ==> self@.peers.contains_key(#[trigger] others@[i]),
            decreases order@.len() - n,
        {
            let key = order[n];
            if (key.0 != me.0 || key.1 != me.1) && peer_map_get(&self.peers, key).is_some() {
                others.push(key);
            }
            n += 1;
        }
        others
    }

    /// The roster of `others`, and whether one of them has the name `name`.
    fn roster(&self, others: &Vec<PeerKey>, name: &String) -> (found: (Vec<InitialPlayerData>, bool))
        requires
            forall|i: int| 0 <= i < others@.len() ==> self@.peers.contains_key(#[trigger] others@[i]),
        ensures
            roster_view(found.0@) == roster_of(others@, self@.peers),
            found.1 == name_taken(others@, self@.peers, name@),
    {
        let mut roster: Vec<InitialPlayerData> = Vec::new();
        let mut taken = false;
        let mut n: usize = 0;
        while n < others.len()
            invariant
                n <= others@.len(),
                forall|i: int|
                    0 <= i < others@.len() ==> self@.peers.contains_key(#[trigger] others@[i]),
                roster@.len() == n,
                forall|i: int|
                    0 <= i < n ==> (#[trigger] roster@[i])@ == entry_of(self@.peers[others@[i]]),
                taken == name_taken(others@.take(n as int), self@.peers, name@),
            decreases others@.len() - n,
        {
            let ghost before = others@.take(n as int);
            let ghost after = others@.take(n as int + 1);
            match peer_map_get(&self.peers, others[n]) {
                Some(peer) => {
                    let same = peer.player.name == *name;
                    proof {
                        let peers = self@.peers;
                        if same {
                            assert(peers[after[n as int]].player.name == name@);
                        } else if name_taken(after, peers, name@) {
                            let i = choose|i: int|
                                0 <= i < after.len() && (#[trigger] peers[after[i]]).player.name
                                    == name@;
                            assert(peers[before[i]].player.name == name@);
                        }
                        if taken {
                            let i = choose|i: int|
                                0 <= i < before.len() && (#[trigger] peers[before[i]]).player.name
                                    == name@;
                            assert(peers[after[i]].player.name == name@);
                        }
                    }
                    if same {
                        taken = true;
                    }
                    roster.push(
                        InitialPlayerData {
                            uuid: peer.player.uuid,
                            name: peer.player.name,
                            position: peer.player.entity.state.position,
                        },
                    );
                },
                None => {},
            }
            n += 1;
        }
        assert(others@.take(n as int) =~= others@);
        assert(roster_view(roster@) =~= roster_of(others@, self@.peers));
        (roster, taken)
    }

    /// Sends the chunk of each of `coords` to `to`, generating those that
    /// the store does not hold yet.
    fn stream(&mut self, outbound: &mut Vec<Outbound>, to: PeerAddr, coords: &Vec<ChunkPos>)
        ensures
            final(self)@.peers == old(self)@.peers,
            final(self)@.settings == old(self)@.settings,
            final(self)@.chunks == generated_all(old(self)@.chunks, coords@),
            deliveries(final(outbound)@) == deliveries(old(outbound)@) + chunk_deliveries(
                to.key(),
                old(self)@.chunks,
                coords@,
            ),
            old(self).wf() ==> final(self).wf(),
            old(self).wf() && carries_generated_chunks(deliveries(old(outbound)@))
                ==> carries_generated_chunks(deliveries(final(outbound)@)),
    {
        let ghost start = self@.chunks;
        proof {
            if old(self).wf() {
                lemma_store_stays_generated(start, coords@);
            }
        }
        let mut n: usize = 0;
        assert(coords@.take(0) =~= Seq::<ChunkPos>::empty());
        assert(deliveries(outbound@) =~= deliveries(old(outbound)@) + chunk_deliveries(
            to.key(),
            start,
            coords@.take(0),
        ));
        while n < coords.len()
            invariant
                n <= coords@.len(),
                self@.peers == old(self)@.peers,
                self@.settings == old(self)@.settings,
                start == old(self)@.chunks,
                self@.chunks == generated_all(start, coords@.take(n as int)),
                deliveries(outbound@) == deliveries(old(outbound)@) + chunk_deliveries(
                    to.key(),
                    start,
                    coords@.take(n as int),
                ),
            decreases coords@.len() - n,
        {
            let pos = coords[n];
            proof {
                lemma_chunk_for_stays(start, coords@.take(n as int), pos);
                assert(coords@.take(n as int + 1).drop_last() =~= coords@.take(n as int));
            }
            let chunk = self.world.chunk_manager.get_or_generate(pos, &self.worldgen);
            let ghost sent = deliveries(outbound@);
            let packet = Outbound {
                to,
                packet: ServerPacket::InitialChunkDataServerPacket(
                    InitialChunkDataServerPacket { chunk, position: pos },
                ),
            };
            outbound.push(packet);
            assert(deliveries(outbound@) =~= sent.push(packet@));
            assert(deliveries(outbound@) =~= deliveries(old(outbound)@) + chunk_deliveries(
                to.key(),
                start,
                coords@.take(n as int + 1),
            ));
            n += 1;
        }
        assert(coords@.take(n as int) =~= coords@);
    }

    /// Handles a join of `name` from `peer_addr`, with `uuid` as the new
    /// player's id and `order` as the order in which the other peers are
    /// told and listed.
    pub fn handle_join(
        &mut self,
        peer_addr: PeerAddr,
        name: String,
        uuid: u128,
        order: &Vec<PeerKey>,
    ) -> (reply: Reply)
        ensures
            (final(self)@, deliveries(reply.outbound@), reply.status) == join_result(
                old(self)@,
                peer_addr.key(),
                name@,
                uuid,
                order@,
            ),
            old(self).wf() ==> final(self).wf() && carries_generated_chunks(
                deliveries(reply.outbound@),
            ),
    {
        let me: PeerKey = (peer_addr.ip, peer_addr.port);
        let mut outbound: Vec<Outbound> = Vec::new();
        if peer_map_get(&self.peers, me).is_none() {
            assert(deliveries(outbound@) =~= Seq::<Delivery>::empty());
            return Reply { outbound, status: Status::UnknownPeer };
        }
        let others = self.others(order, me);
        let (roster, taken) = self.roster(&others, &name);
        if taken {
            outbound.push(
                Outbound {
                    to: peer_addr,
                    packet: ServerPacket::ErrorServerPacket(
                        ErrorServerPacket { error: ServerError::PlayerLoggedIn },
                    ),
                },
            );
            assert(deliveries(outbound@) =~= seq![
                Delivery {
                    to: me,
                    message: ServerMessage::Error { error: ServerError::PlayerLoggedIn },
                },
            ]);
            return Reply { outbound, status: Status::NameTaken };
        }
        let ghost notice = ServerMessage::PlayerJoin { uuid, name: name@, position: origin() };
        let mut n: usize = 0;
        while n < others.len()
            invariant
                n <= others@.len(),
                notice == (ServerMessage::PlayerJoin { uuid, name: name@, position: origin() }),
                deliveries(outbound@) == notices(others@.take(n as int), notice),
            decreases others@.len() - n,
        {
            let ghost sent = deliveries(outbound@);
            let packet = Outbound {
                to: PeerAddr::of_key(others[n]),
                packet: ServerPacket::PlayerJoinServerPacket(
                    PlayerJoinServerPacket {
                        uuid,
                        name: name.clone(),
                        position: WorldPos { x: 0, y: 0, z: 0 },
                    },
                ),
            };
            outbound.push(packet);
            assert(deliveries(outbound@) =~= sent.push(packet@));
            assert(deliveries(outbound@) =~= notices(others@.take(n as int + 1), notice));
            n += 1;
        }
        assert(others@.take(n as int) =~= others@);
        let position = WorldPos { x: 0x4180_0000, y: 0x4208_0000, z: 0x4180_0000 };
        let joined = ServerPlayer {
            player: Player {
                uuid,
                name: name.clone(),
                entity: EntityPlayer::new(EntityState { title: Some(name), position }),
            },
            last_chunk: Some(position.to_chunk_pos()),
        };
        assert(joined@ == joined_peer(name@, uuid));
        peer_map_insert(&mut self.peers, me, joined);
        let ghost sent = deliveries(outbound@);
        let accepted = Outbound {
            to: peer_addr,
            packet: ServerPacket::ClientJoinSuccessServerPacket(
                ClientJoinSuccessServerPacket { uuid, position, players: roster },
            ),
        };
        outbound.push(accepted);
        assert(deliveries(outbound@) =~= sent.push(accepted@));
        let volume = view_volume(
            position.to_chunk_pos(),
            self.settings.horizontal_render_distance,
            self.settings.vertical_render_distance,
        );
        self.stream(&mut outbound, peer_addr, &volume);
        Reply { outbound, status: Status::Done }
    }

    /// Handles a move of the peer at `peer_addr` to `position`, with `order`
    /// as the order in which the other peers are told.
    pub fn handle_move(
        &mut self,
        peer_addr: PeerAddr,
        position: WorldPos,
        order: &Vec<PeerKey>,
    ) -> (reply: Reply)
        ensures
            (final(self)@, deliveries(reply.outbound@), reply.status) == move_result(
                old(self)@,
                peer_addr.key(),
                position,
                order@,
            ),
            old(self).wf() ==> final(self).wf() && carries_generated_chunks(
                deliveries(reply.outbound@),
            ),
    {
        let me: PeerKey = (peer_addr.ip, peer_addr.port);
        let mut outbound: Vec<Outbound> = Vec::new();
        let record = match peer_map_get(&self.peers, me) {
            Some(record) => record,
            None => {
                assert(deliveries(outbound@) =~= Seq::<Delivery>::empty());
                return Reply { outbound, status: Status::UnknownPeer };
            },
        };
        let others = self.others(order, me);
        let uuid = record.player.uuid;
        let ghost notice = ServerMessage::PlayerMove { uuid, position };
        let mut n: usize = 0;
        while n < others.len()
            invariant
                n <= others@.len(),
                notice == (ServerMessage::PlayerMove { uuid, position }),
                deliveries(outbound@) == notices(others@.take(n as int), notice),
            decreases others@.len() - n,
        {
            let ghost sent = deliveries(outbound@);
            let packet = Outbound {
                to: PeerAddr::of_key(others[n]),
                packet: ServerPacket::PlayerMoveServerPacket(
                    PlayerMoveServerPacket { uuid, position },
                ),
            };
            outbound.push(packet);
            assert(deliveries(outbound@) =~= sent.push(packet@));
            assert(deliveries(outbound@) =~= notices(others@.take(n as int + 1), notice));
            n += 1;
        }
        assert(others@.take(n as int) =~= others@);
        let chunk_pos = position.to_chunk_pos();
        let slab = view_update(
            record.last_chunk,
            chunk_pos,
            self.settings.horizontal_render_distance,
            self.settings.vertical_render_distance,
        );
        let moved = ServerPlayer {
            player: Player {
                uuid,
                name: record.player.name,
                entity: EntityPlayer::new(
                    EntityState { title: record.player.entity.state.title, position },
                ),
            },
            last_chunk: Some(chunk_pos),
        };
        assert(moved@ == moved_peer(old(self)@.peers[me], position));
        peer_map_insert(&mut self.peers, me, moved);
        self.stream(&mut outbound, peer_addr, &slab);
        Reply { outbound, status: Status::Done }
    }

    /// Handles the bytes of one client packet from `peer_addr`. Bytes that
    /// are no packet are dropped: nothing is changed or sent, and the
    /// connection stays.
    pub fn handle_packet(&mut self, packet: &[u8], peer_addr: PeerAddr) -> (reply: Reply)
        ensures
            old(self).wf() ==> final(self).wf() && carries_generated_chunks(
                deliveries(reply.outbound@),
            ),
            match parse_client(packet@) {
                None => final(self)@ == old(self)@ && reply.outbound@.len() == 0 && reply.status
                    == Status::Malformed,
                Some(ClientMessage::Join { name }) => join_handled(
                    old(self)@,
                    final(self)@,
                    deliveries(reply.outbound@),
                    reply.status,
                    peer_addr.key(),
                    name,
                ),
                Some(ClientMessage::Move { position }) => move_handled(
                    old(self)@,
                    final(self)@,
                    deliveries(reply.outbound@),
                    reply.status,
                    peer_addr.key(),
                    position,
                ),
            },
    {
        match decode_client_packet(packet) {
            None => Reply { outbound: Vec::new(), status: Status::Malformed },
            Some(ClientPacket::ClientJoinClientPacket(join)) => {
                let order = peer_map_keys(&self.peers);
                let uuid = fresh_uuid();
                let ghost name = join.name@;
                let reply = self.handle_join(peer_addr, join.name, uuid, &order);
                assert(join_result(old(self)@, peer_addr.key(), name, uuid, order@) == (
                    self@,
                    deliveries(reply.outbound@),
                    reply.status,
                ));
                reply
            },
            Some(ClientPacket::ClientMovePacket(moved)) => {
                let order = peer_map_keys(&self.peers);
                let reply = self.handle_move(peer_addr, moved.position, &order);
                assert(move_result(old(self)@, peer_addr.key(), moved.position, order@) == (
                    self@,
                    deliveries(reply.outbound@),
                    reply.status,
                ));
                reply
            },
        }
    }
}

proof fn lemma_others_upto(order: Seq<PeerKey>, peers: Map<PeerKey, PeerState>, me: PeerKey, count: int)
    requires
        0 <= count <= order.len(),
    ensures
        forall|k: PeerKey| #[trigger]
            others_upto(order, peers, me, count).contains(k) <==> k != me && peers.contains_key(k)
                && order.take(count).contains(k),
        order.no_duplicates() ==> others_upto(order, peers, me, count).no_duplicates(),
    decreases count,
{
    let now = others_upto(order, peers, me, count);
    let upto = order.take(count);
    if count > 0 {
        lemma_others_upto(order, peers, me, count - 1);
        let before = others_upto(order, peers, me, count - 1);
        let front = order.take(count - 1);
        let key = order[count - 1];
        let kept = key != me && peers.contains_key(key);
        assert(upto =~= front.push(key));
        assert forall|k: PeerKey| #[trigger]
            now.contains(k) <==> k != me && peers.contains_key(k) && upto.contains(k) by {
            if now.contains(k) {
                let i = choose|i: int| 0 <= i < now.len() && now[i] == k;
                if kept && i == before.len() {
                    assert(upto[count - 1] == k);
                } else {
                    assert(before[i] == k);
                    assert(before.contains(k));
                    let j = choose|j: int| 0 <= j < front.len() && front[j] == k;
                    assert(upto[j] == k);
                }
            }
            if k != me && peers.contains_key(k) && upto.contains(k) {
                let j = choose|j: int| 0 <= j < upto.len() && upto[j] == k;
                if j == count - 1 {
                    assert(now[before.len() as int] == k);
                } else {
                    assert(front[j] == k);
                    assert(front.contains(k));
                    assert(before.contains(k));
                    let i = choose|i: int| 0 <= i < before.len() && before[i] == k;
                    assert(now[i] == k);
                }
            }
        }
        if order.no_duplicates() && kept {
            if before.contains(key) {
                let j = choose|j: int| 0 <= j < front.len() && front[j] == key;
                assert(order[j] == order[count - 1]);
            }
            assert forall|i: int, j: int|
                0 <= i < now.len() && 0 <= j < now.len() && i != j implies now[i] != now[j] by {
                if i == before.len() {
                    assert(before[j] == now[j]);
                    assert(before.contains(now[j]));
                } else if j == before.len() {
                    assert(before[i] == now[i]);
                    assert(before.contains(now[i]));
                } else {
                    assert(before[i] == now[i] && before[j] == now[j]);
                }
            }
        }
    } else {
        assert(upto =~= Seq::<PeerKey>::empty());
    }
}

/// The others of a peer are the connected peers but itself, each once: so
/// a notice goes to every other connected peer exactly once, and to nobody
/// else.
pub proof fn lemma_others_are_the_other_peers(
    order: Seq<PeerKey>,
    peers: Map<PeerKey, PeerState>,
    me: PeerKey,
)
    requires
        lists_keys(order, peers),
    ensures
        others_of(order, peers, me).no_duplicates(),
        forall|k: PeerKey| #[trigger]
            others_of(order, peers, me).contains(k) <==> k != me && peers.contains_key(k),
{
    lemma_others_upto(order, peers, me, order.len() as int);
    assert(order.take(order.len() as int) =~= order);
}

/// A join under a name that another connected peer has is turned down: the
/// rejection goes to the peer that asked, nothing goes to anyone else, and
/// the state stays as it was.
pub proof fn lemma_taken_name_is_rejected(
    before: ServerState,
    me: PeerKey,
    name: Seq<char>,
    uuid: u128,
    order: Seq<PeerKey>,
    holder: PeerKey,
)
    requires
        lists_keys(order, before.peers),
        before.peers.contains_key(me),
        before.peers.contains_key(holder),
        holder != me,
        before.peers[holder].player.name == name,
    ensures
        join_result(before, me, name, uuid, order) == (
            before,
            seq![
                Delivery {
                    to: me,
                    message: ServerMessage::Error { error: ServerError::PlayerLoggedIn },
                },
            ],
            Status::NameTaken,
        ),
{
    lemma_others_are_the_other_peers(order, before.peers, me);
    let others = others_of(order, before.peers, me);
    assert(others.contains(holder));
    let i = choose|i: int| 0 <= i < others.len() && others[i] == holder;
    assert(before.peers[others[i]].player.name == name);
}

/// A join under a name that no other connected peer has is accepted: the
/// peer that asked gets the acceptance and then one chunk for every
/// coordinate of its view volume, `(2H + 1)(2V + 1)(2H + 1)` of them, and
/// every other connected peer gets one notice.
pub proof fn lemma_free_name_is_accepted(
    before: ServerState,
    me: PeerKey,
    name: Seq<char>,
    uuid: u128,
    order: Seq<PeerKey>,
)
    requires
        lists_keys(order, before.peers),
        before.peers.contains_key(me),
        forall|k: PeerKey|
            before.peers.contains_key(k) && k != me ==> (#[trigger] before.peers[k]).player.name
                != name,
    ensures
        ({
            let (after, sent, status) = join_result(before, me, name, uuid, order);
            let others = others_of(order, before.peers, me);
            let h = radius_of(before.settings.horizontal_render_distance);
            let v = radius_of(before.settings.vertical_render_distance);
            &&& status == Status::Done
            &&& after.peers[me].player.name == name
            &&& after.peers[me].player.uuid == uuid
            &&& after.peers.dom() == before.peers.dom()
            &&& sent.len() == others.len() + 1 + (2 * h + 1) * ((2 * v + 1) * (2 * h + 1))
            &&& forall|i: int|
                0 <= i < others.len() ==> #[trigger] sent[i] == (Delivery {
                    to: others[i],
                    message: ServerMessage::PlayerJoin { uuid, name, position: origin() },
                })
            &&& sent[others.len() as int] == (Delivery {
                to: me,
                message: ServerMessage::JoinSuccess {
                    uuid,
                    position: spawn(),
                    players: roster_of(others, before.peers),
                },
            })
            &&& forall|i: int| others.len() < i < sent.len() ==> (#[trigger] sent[i]).to == me
        }),
{
    lemma_others_are_the_other_peers(order, before.peers, me);
    let others = others_of(order, before.peers, me);
    if name_taken(others, before.peers, name) {
        let i = choose|i: int|
            0 <= i < others.len() && (#[trigger] before.peers[others[i]]).player.name == name;
        assert(others.contains(others[i]));
    }
    lemma_volume_len(
        spawn().chunk_pos(),
        before.settings.horizontal_render_distance,
        before.settings.vertical_render_distance,
    );
    let (after, sent, status) = join_result(before, me, name, uuid, order);
    assert(after.peers.dom() =~= before.peers.dom());
}

/// The first peer to join gets an empty roster, and nobody gets a notice.
pub proof fn lemma_lone_peer_gets_empty_roster(
    before: ServerState,
    me: PeerKey,
    name: Seq<char>,
    uuid: u128,
    order: Seq<PeerKey>,
)
    requires
        lists_keys(order, before.peers),
        forall|k: PeerKey| before.peers.contains_key(k) <==> k == me,
    ensures
        ({
            let (after, sent, status) = join_result(before, me, name, uuid, order);
            &&& status == Status::Done
            &&& sent[0] == (Delivery {
                to: me,
                message: ServerMessage::JoinSuccess {
                    uuid,
                    position: spawn(),
                    players: Seq::empty(),
                },
            })
            &&& forall|i: int| 0 <= i < sent.len() ==> (#[trigger] sent[i]).to == me
        }),
{
    lemma_others_are_the_other_peers(order, before.peers, me);
    let others = others_of(order, before.peers, me);
    if others.len() > 0 {
        assert(others.contains(others[0]));
    }
    assert(roster_of(others, before.peers) =~= Seq::<PlayerEntry>::empty());
}

/// A move inside the chunk from which the peer was last streamed sends no
/// chunk: the other peers are told, and that is all.
pub proof fn lemma_move_within_chunk_sends_no_chunk(
    before: ServerState,
    me: PeerKey,
    position: WorldPos,
    order: Seq<PeerKey>,
)
    requires
        before.peers.contains_key(me),
        before.peers[me].last_chunk == Some(position.chunk_pos()),
    ensures
        ({
            let (after, sent, status) = move_result(before, me, position, order);
            &&& after.chunks == before.chunks
            &&& sent == notices(
                others_of(order, before.peers, me),
                ServerMessage::PlayerMove { uuid: before.peers[me].player.uuid, position },
            )
        }),
{
    let (after, sent, status) = move_result(before, me, position, order);
    assert(sent =~= notices(
        others_of(order, before.peers, me),
        ServerMessage::PlayerMove { uuid: before.peers[me].player.uuid, position },
    ));
}

/// A join that goes through was for a name that no other connected peer
/// had.
pub proof fn lemma_accepted_name_was_free(
    before: ServerState,
    me: PeerKey,
    name: Seq<char>,
    uuid: u128,
    order: Seq<PeerKey>,
    other: PeerKey,
)
    requires
        lists_keys(order, before.peers),
        join_result(before, me, name, uuid, order).2 == Status::Done,
        before.peers.contains_key(other),
        other != me,
    ensures
        before.peers[other].player.name != name,
{
    if before.peers[other].player.name == name {
        lemma_taken_name_is_rejected(before, me, name, uuid, order, other);
    }
}

/// Whether no two connected peers share a name, but for the empty name that
/// every peer has until it joins.
pub open spec fn names_are_unique(peers: Map<PeerKey, PeerState>) -> bool {
    forall|a: PeerKey, b: PeerKey|
        peers.contains_key(a) && peers.contains_key(b) && a != b && (#[trigger] peers[a]).player.name
            == (#[trigger] peers[b]).player.name ==> peers[a].player.name.len() == 0
}

/// Display names stay unique among the connected peers: whatever connects,
/// leaves, joins or moves, no two peers come to share a name other than the
/// empty one.
pub proof fn lemma_names_stay_unique(
    before: ServerState,
    me: PeerKey,
    name: Seq<char>,
    uuid: u128,
    position: WorldPos,
    order: Seq<PeerKey>,
)
    requires
        names_are_unique(before.peers),
        lists_keys(order, before.peers),
    ensures
        names_are_unique(before.peers.insert(me, fresh_peer())),
        names_are_unique(before.peers.remove(me)),
        names_are_unique(join_result(before, me, name, uuid, order).0.peers),
        names_are_unique(move_result(before, me, position, order).0.peers),
{
    let connected = before.peers.insert(me, fresh_peer());
    assert forall|a: PeerKey, b: PeerKey|
        connected.contains_key(a) && connected.contains_key(b) && a != b && (
        #[trigger] connected[a]).player.name == (#[trigger] connected[b]).player.name implies connected[a].player.name.len()
        == 0 by {
        if a != me && b != me {
            assert(before.peers[a].player.name == before.peers[b].player.name);
        }
    }
    let left = before.peers.remove(me);
    assert forall|a: PeerKey, b: PeerKey|
        left.contains_key(a) && left.contains_key(b) && a != b && (#[trigger] left[a]).player.name == (
        #[trigger] left[b]).player.name implies left[a].player.name.len() == 0 by {
        assert(before.peers[a].player.name == before.peers[b].player.name);
    }
    let joined = join_result(before, me, name, uuid, order).0.peers;
    assert forall|a: PeerKey, b: PeerKey|
        joined.contains_key(a) && joined.contains_key(b) && a != b && (#[trigger] joined[a]).player.name
            == (#[trigger] joined[b]).player.name implies joined[a].player.name.len() == 0 by {
        if join_result(before, me, name, uuid, order).2 == Status::Done {
            if a == me {
                lemma_accepted_name_was_free(before, me, name, uuid, order, b);
            } else if b == me {
                lemma_accepted_name_was_free(before, me, name, uuid, order, a);
            } else {
                assert(before.peers[a].player.name == before.peers[b].player.name);
            }
        } else {
            assert(before.peers[a].player.name == before.peers[b].player.name);
        }
    }
    let moved = move_result(before, me, position, order).0.peers;
    assert forall|a: PeerKey, b: PeerKey|
        moved.contains_key(a) && moved.contains_key(b) && a != b && (#[trigger] moved[a]).player.name
            == (#[trigger] moved[b]).player.name implies moved[a].player.name.len() == 0 by {
        assert(before.peers[a].player.name == before.peers[b].player.name);
    }
}

/// A store of generated chunks hands out the generated chunk for every
/// coordinate, and stays a store of generated chunks when more are asked
/// for. So a server that started without chunks only ever sends generated
/// ones.
pub proof fn lemma_store_stays_generated(chunks: Map<ChunkKey, Seq<BlockId>>, coords: Seq<ChunkPos>)
    requires
        all_generated(chunks),
    ensures
        all_generated(generated_all(chunks, coords)),
        forall|pos: ChunkPos| #[trigger] chunk_for(chunks, pos) == terrain(pos),
    decreases coords.len(),
{
    assert forall|pos: ChunkPos| #[trigger] chunk_for(chunks, pos) == terrain(pos) by {
        assert(pos_of(key_of(pos)) == pos);
    }
    if coords.len() > 0 {
        let front = generated_all(chunks, coords.drop_last());
        lemma_store_stays_generated(chunks, coords.drop_last());
        assert(pos_of(key_of(coords.last())) == coords.last());
    }
}

/// Handling never removes a chunk from the store or changes a stored one,
/// and afterwards the store holds a chunk for every coordinate that was
/// asked for.
pub proof fn lemma_store_only_grows(chunks: Map<ChunkKey, Seq<BlockId>>, coords: Seq<ChunkPos>)
    ensures
        forall|key: ChunkKey| #[trigger]
            chunks.contains_key(key) ==> generated_all(chunks, coords).contains_key(key)
                && generated_all(chunks, coords)[key] == chunks[key],
        forall|i: int|
            0 <= i < coords.len() ==> generated_all(chunks, coords).contains_key(
                key_of(#[trigger] coords[i]),
            ),
    decreases coords.len(),
{
    if coords.len() > 0 {
        let front = coords.drop_last();
        lemma_store_only_grows(chunks, front);
        assert forall|i: int| 0 <= i < coords.len() implies generated_all(
            chunks,
            coords,
        ).contains_key(key_of(#[trigger] coords[i])) by {
            if i < coords.len() - 1 {
                assert(front[i] == coords[i]);
            }
        }
    }
}

/// A coordinate that the store does not hold and that two streams ask for,
/// one after the other: both streams send the generated chunk of the
/// coordinate, with one block per cell; afterwards the store holds that
/// chunk under the coordinate, once, as a map holds every key once; and
/// every chunk that the store held before is still there, unchanged.
pub proof fn lemma_streaming_twice(
    chunks: Map<ChunkKey, Seq<BlockId>>,
    to_first: PeerKey,
    first: Seq<ChunkPos>,
    to_second: PeerKey,
    second: Seq<ChunkPos>,
    i: int,
    j: int,
)
    requires
        0 <= i < first.len(),
        0 <= j < second.len(),
        first[i] == second[j],
        !chunks.contains_key(key_of(first[i])),
    ensures
        ({
            let c = first[i];
            let between = generated_all(chunks, first);
            let after = generated_all(between, second);
            &&& chunk_deliveries(to_first, chunks, first)[i].message == (ServerMessage::ChunkData {
                blocks: terrain(c),
                coord: c,
            })
            &&& chunk_deliveries(to_second, between, second)[j].message == (
            ServerMessage::ChunkData { blocks: terrain(c), coord: c })
            &&& terrain(c).len() == CHUNK_VOLUME
            &&& between.contains_key(key_of(c)) && between[key_of(c)] == terrain(c)
            &&& after.contains_key(key_of(c)) && after[key_of(c)] == terrain(c)
            &&& forall|key: ChunkKey| #[trigger]
                chunks.contains_key(key) ==> after.contains_key(key) && after[key] == chunks[key]
        }),
{
    let c = first[i];
    let between = generated_all(chunks, first);
    let after = generated_all(between, second);
    lemma_store_only_grows(chunks, first);
    lemma_store_only_grows(between, second);
    lemma_chunk_for_stays(chunks, first, c);
    assert(between.contains_key(key_of(first[i])));
    assert(after.contains_key(key_of(c)) && after[key_of(c)] == between[key_of(c)]);
    assert forall|key: ChunkKey| #[trigger] chunks.contains_key(key) implies after.contains_key(key)
        && after[key] == chunks[key] by {
        assert(between.contains_key(key) && between[key] == chunks[key]);
    }
}

/// The first move of a peer to which nothing was streamed yet sends it the
/// whole view volume around its new position.
pub proof fn lemma_first_move_sends_the_whole_view(
    before: ServerState,
    me: PeerKey,
    position: WorldPos,
    order: Seq<PeerKey>,
)
    requires
        before.peers.contains_key(me),
        before.peers[me].last_chunk is None,
    ensures
        ({
            let (after, sent, status) = move_result(before, me, position, order);
            let volume = volume_chunks(
                position.chunk_pos(),
                before.settings.horizontal_render_distance,
                before.settings.vertical_render_distance,
            );
            &&& status == Status::Done
            &&& after.peers[me].last_chunk == Some(position.chunk_pos())
            &&& sent == notices(
                others_of(order, before.peers, me),
                ServerMessage::PlayerMove { uuid: before.peers[me].player.uuid, position },
            ) + chunk_deliveries(me, before.chunks, volume)
            &&& volume.len() == (2 * radius_of(before.settings.horizontal_render_distance) + 1) * ((
            2 * radius_of(before.settings.vertical_render_distance) + 1) * (2 * radius_of(
                before.settings.horizontal_render_distance,
            ) + 1))
        }),
{
    lemma_volume_len(
        position.chunk_pos(),
        before.settings.horizontal_render_distance,
        before.settings.vertical_render_distance,
    );
}

/// After a join, a step of `distance` chunks along x alone, no further than
/// the horizontal radius, sends the peer the `distance` layers that the step
/// brought into view and nothing else: `distance (2V + 1)(2H + 1)` chunks.
pub proof fn lemma_step_after_join(
    before: ServerState,
    me: PeerKey,
    position: WorldPos,
    order: Seq<PeerKey>,
    distance: int,
)
    requires
        before.peers.contains_key(me),
        before.peers[me] == joined_peer(before.peers[me].player.name, before.peers[me].player.uuid),
        position.chunk_pos().y == spawn().chunk_pos().y,
        position.chunk_pos().z == spawn().chunk_pos().z,
        0 < distance <= radius_of(before.settings.horizontal_render_distance),
        position.chunk_pos().x - spawn().chunk_pos().x == distance || spawn().chunk_pos().x
            - position.chunk_pos().x == distance,
    ensures
        ({
            let (after, sent, status) = move_result(before, me, position, order);
            let others = others_of(order, before.peers, me);
            &&& sent.len() == others.len() + distance * ((2 * radius_of(
                before.settings.vertical_render_distance,
            ) + 1) * (2 * radius_of(before.settings.horizontal_render_distance) + 1))
            &&& after.peers[me].last_chunk == Some(position.chunk_pos())
            &&& forall|n: int| others.len() <= n < sent.len() ==> (#[trigger] sent[n]).to == me
            &&& forall|n: int| 0 <= n < others.len() ==> (#[trigger] sent[n]).to == others[n]
        }),
{
    lemma_step_along_x(
        spawn().chunk_pos(),
        position.chunk_pos(),
        before.settings.horizontal_render_distance,
        before.settings.vertical_render_distance,
        distance,
    );
}

/// Chunks that are the generated ones of their coordinates have one block
/// per cell, so packets that carry them can go on the wire and come back.
pub proof fn lemma_generated_chunks_fit(sent: Seq<Delivery>, i: int)
    requires
        carries_generated_chunks(sent),
        0 <= i < sent.len(),
        sent[i].message is ChunkData,
    ensures
        server_message_fits(sent[i].message),
{
}

/// The spawn position lies in the chunk `(0, 1, 0)`.
pub proof fn lemma_spawn_chunk()
    ensures
        spawn().chunk_pos() == (ChunkPos { x: 0, y: 1, z: 0 }),
{
    lemma2_to64();
    lemma_pow2_adds(4, 149);
    lemma_pow2_adds(23, 130);
    lemma_pow2_adds(19, 131);
    lemma_pow2_adds(1, 149);
    let p = pow2(149) as int;
    assert(f32_scaled(0x4180_0000) == 16 * p);
    assert(0x88_0000 * pow2(131) == 17 * (0x8_0000 * pow2(131))) by (nonlinear_arith);
    assert(f32_scaled(0x4208_0000) == 34 * p);
    lemma_chunk_coord_of_integer(0x4180_0000, 16);
    lemma_chunk_coord_of_integer(0x4208_0000, 34);
}

} // verus!
