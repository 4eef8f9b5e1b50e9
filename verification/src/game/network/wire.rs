use crate::game::network::packet::{
    ClientJoinClientPacket, ClientMessage, ClientMovePacket, ClientPacket,
    ClientJoinSuccessServerPacket, ErrorServerPacket, InitialChunkDataServerPacket,
    InitialPlayerData, PlayerEntry, PlayerJoinServerPacket, PlayerMoveServerPacket, ServerError,
    ServerMessage, ServerPacket, roster_view,
};
use crate::game::world::chunk::{Chunk, CHUNK_VOLUME};
use crate::game::world::position::{ChunkPos, WorldPos};
use crate::game::world::BlockId;
use vstd::bytes::*;
use vstd::prelude::*;
use vstd::slice::*;
use vstd::utf8::*;

verus! {

/// The sixteen bytes of `v`, most significant first.
pub open spec fn be_u128(v: u128) -> Seq<u8> {
    spec_u128_to_le_bytes(v).reverse()
}

/// A length as it stands on the wire: eight bytes, least significant first.
pub open spec fn wire_len(n: nat) -> Seq<u8> {
    spec_u64_to_le_bytes(n as u64)
}

/// A player id on the wire: a byte string of length 16.
pub open spec fn wire_uuid(uuid: u128) -> Seq<u8> {
    wire_len(16) + be_u128(uuid)
}

/// A string on the wire: the length of its UTF-8 form, then that form.
pub open spec fn wire_string(s: Seq<char>) -> Seq<u8> {
    wire_len(encode_utf8(s).len()) + encode_utf8(s)
}

/// A block-space position on the wire: x, y, z, four bytes each.
pub open spec fn wire_world_pos(p: WorldPos) -> Seq<u8> {
    spec_u32_to_le_bytes(p.x) + spec_u32_to_le_bytes(p.y) + spec_u32_to_le_bytes(p.z)
}

/// A chunk coordinate on the wire: x, y, z, four bytes each, in two's
/// complement.
pub open spec fn wire_chunk_pos(p: ChunkPos) -> Seq<u8> {
    spec_u32_to_le_bytes(p.x as u32) + spec_u32_to_le_bytes(p.y as u32) + spec_u32_to_le_bytes(
        p.z as u32,
    )
}

/// A roster entry on the wire.
pub open spec fn wire_player(p: PlayerEntry) -> Seq<u8> {
    wire_uuid(p.uuid) + wire_string(p.name) + wire_world_pos(p.position)
}

/// Roster entries on the wire, one after the other.
pub open spec fn wire_players(ps: Seq<PlayerEntry>) -> Seq<u8>
    decreases ps.len(),
{
    if ps.len() == 0 {
        Seq::empty()
    } else {
        wire_players(ps.drop_last()) + wire_player(ps.last())
    }
}

/// Blocks on the wire, two bytes each.
pub open spec fn wire_blocks(bs: Seq<BlockId>) -> Seq<u8>
    decreases bs.len(),
{
    if bs.len() == 0 {
        Seq::empty()
    } else {
        wire_blocks(bs.drop_last()) + spec_u16_to_le_bytes(bs.last().0)
    }
}

/// The number that tells a server packet's kind.
pub open spec fn server_tag(m: ServerMessage) -> u32 {
    match m {
        ServerMessage::Error { .. } => 0,
        ServerMessage::JoinSuccess { .. } => 1,
        ServerMessage::PlayerJoin { .. } => 2,
        ServerMessage::PlayerMove { .. } => 3,
        ServerMessage::ChunkData { .. } => 4,
    }
}

/// What follows the tag of a server packet.
pub open spec fn server_body(m: ServerMessage) -> Seq<u8> {
    match m {
        ServerMessage::Error { error } => spec_u32_to_le_bytes(0),
        ServerMessage::JoinSuccess { uuid, position, players } => wire_uuid(uuid) + wire_world_pos(
            position,
        ) + wire_len(players.len()) + wire_players(players),
        ServerMessage::PlayerJoin { uuid, name, position } => wire_uuid(uuid) + wire_string(name)
            + wire_world_pos(position),
        ServerMessage::PlayerMove { uuid, position } => wire_uuid(uuid) + wire_world_pos(position),
        ServerMessage::ChunkData { blocks, coord } => wire_len(blocks.len()) + wire_blocks(blocks)
            + wire_chunk_pos(coord),
    }
}

/// A server packet on the wire: its tag in four bytes, then its fields in
/// the order of their declaration.
pub open spec fn wire_server(m: ServerMessage) -> Seq<u8> {
    spec_u32_to_le_bytes(server_tag(m)) + server_body(m)
}

/// A client packet on the wire.
pub open spec fn wire_client(m: ClientMessage) -> Seq<u8> {
    match m {
        ClientMessage::Join { name } => spec_u32_to_le_bytes(0) + wire_string(name),
        ClientMessage::Move { position } => spec_u32_to_le_bytes(1) + wire_world_pos(position),
    }
}

/// Whether a string's UTF-8 form has a length that the wire can carry.
pub open spec fn name_fits(name: Seq<char>) -> bool {
    encode_utf8(name).len() <= u64::MAX
}

/// Whether a server packet can go on the wire and come back: its lengths
/// fit the wire's length field, and a chunk has one block per cell.
pub open spec fn server_message_fits(m: ServerMessage) -> bool {
    match m {
        ServerMessage::Error { .. } => true,
        ServerMessage::JoinSuccess { players, .. } => players.len() <= u64::MAX && forall|i: int|
            0 <= i < players.len() ==> name_fits(#[trigger] players[i].name),
        ServerMessage::PlayerJoin { name, .. } => name_fits(name),
        ServerMessage::PlayerMove { .. } => true,
        ServerMessage::ChunkData { blocks, .. } => blocks.len() == CHUNK_VOLUME,
    }
}

/// Whether a client packet can go on the wire and come back.
pub open spec fn client_message_fits(m: ClientMessage) -> bool {
    match m {
        ClientMessage::Join { name } => name_fits(name),
        ClientMessage::Move { .. } => true,
    }
}

fn put_u16(out: &mut Vec<u8>, v: u16)
    ensures
        final(out)@ == old(out)@ + spec_u16_to_le_bytes(v),
{
    let mut bytes = u16_to_le_bytes(v);
    out.append(&mut bytes);
}

fn put_u32(out: &mut Vec<u8>, v: u32)
    ensures
        final(out)@ == old(out)@ + spec_u32_to_le_bytes(v),
{
    let mut bytes = u32_to_le_bytes(v);
    out.append(&mut bytes);
}

fn put_len(out: &mut Vec<u8>, n: usize)
    ensures
        final(out)@ == old(out)@ + wire_len(n as nat),
{
    let mut bytes = u64_to_le_bytes(n as u64);
    out.append(&mut bytes);
}

fn put_uuid(out: &mut Vec<u8>, uuid: u128)
    ensures
        final(out)@ == old(out)@ + wire_uuid(uuid),
{
    put_len(out, 16);
    let le = u128_to_le_bytes(uuid);
    proof {
        lemma_auto_spec_u128_to_from_le_bytes();
    }
    let ghost start = out@;
    let mut n: usize = 0;
    while n < 16
        invariant
            n <= 16,
            le@ == spec_u128_to_le_bytes(uuid),
            le@.len() == 16,
            out@ == start + be_u128(uuid).take(n as int),
        decreases 16 - n,
    {
        out.push(le[15 - n]);
        assert(out@ =~= start + be_u128(uuid).take(n as int + 1));
        n += 1;
    }
    assert(out@ =~= old(out)@ + wire_uuid(uuid));
}

fn put_string(out: &mut Vec<u8>, s: &String)
    ensures
        final(out)@ == old(out)@ + wire_string(s@),
        name_fits(s@),
{
    let bytes = s.as_str().as_bytes();
    put_len(out, bytes.len());
    let mut copy = slice_to_vec(bytes);
    out.append(&mut copy);
    assert(out@ =~= old(out)@ + wire_string(s@));
}

fn put_world_pos(out: &mut Vec<u8>, p: WorldPos)
    ensures
        final(out)@ == old(out)@ + wire_world_pos(p),
{
    put_u32(out, p.x);
    put_u32(out, p.y);
    put_u32(out, p.z);
    assert(out@ =~= old(out)@ + wire_world_pos(p));
}

fn put_chunk_pos(out: &mut Vec<u8>, p: ChunkPos)
    ensures
        final(out)@ == old(out)@ + wire_chunk_pos(p),
{
    put_u32(out, #[verifier::truncate] (p.x as u32));
    put_u32(out, #[verifier::truncate] (p.y as u32));
    put_u32(out, #[verifier::truncate] (p.z as u32));
    assert(out@ =~= old(out)@ + wire_chunk_pos(p));
}

fn put_player(out: &mut Vec<u8>, p: &InitialPlayerData)
    ensures
        final(out)@ == old(out)@ + wire_player(p@),
        name_fits(p@.name),
{
    put_uuid(out, p.uuid);
    put_string(out, &p.name);
    put_world_pos(out, p.position);
    assert(out@ =~= old(out)@ + wire_player(p@));
}

fn put_players(out: &mut Vec<u8>, players: &Vec<InitialPlayerData>)
    ensures
        final(out)@ == old(out)@ + wire_players(roster_view(players@)),
        forall|i: int| 0 <= i < players@.len() ==> name_fits(#[trigger] roster_view(players@)[i].name),
{
    let ghost all = roster_view(players@);
    let mut n: usize = 0;
    assert(out@ =~= old(out)@ + wire_players(all.take(0)));
    while n < players.len()
        invariant
            n <= players@.len(),
            all == roster_view(players@),
            out@ == old(out)@ + wire_players(all.take(n as int)),
            forall|i: int| 0 <= i < n ==> name_fits(#[trigger] all[i].name),
        decreases players@.len() - n,
    {
        put_player(out, &players[n]);
        assert(all.take(n as int + 1).drop_last() =~= all.take(n as int));
        assert(out@ =~= old(out)@ + wire_players(all.take(n as int + 1)));
        n += 1;
    }
    assert(all.take(n as int) =~= all);
}

fn put_blocks(out: &mut Vec<u8>, blocks: &Vec<BlockId>)
    ensures
        final(out)@ == old(out)@ + wire_blocks(blocks@),
{
    let mut n: usize = 0;
    assert(out@ =~= old(out)@ + wire_blocks(blocks@.take(0)));
    while n < blocks.len()
        invariant
            n <= blocks@.len(),
            out@ == old(out)@ + wire_blocks(blocks@.take(n as int)),
        decreases blocks@.len() - n,
    {
        put_u16(out, blocks[n].0);
        assert(blocks@.take(n as int + 1).drop_last() =~= blocks@.take(n as int));
        assert(out@ =~= old(out)@ + wire_blocks(blocks@.take(n as int + 1)));
        n += 1;
    }
    assert(blocks@.take(n as int) =~= blocks@);
}

/// The bytes of a server packet. They read back as the packet, provided
/// that a chunk in it has one block per cell.
pub fn encode_server_packet(packet: &ServerPacket) -> (bytes: Vec<u8>)
    ensures
        bytes@ == wire_server(packet@),
        server_message_fits(packet@) ==> parse_server(bytes@) == Some(packet@),
        !(packet@ is ChunkData) ==> server_message_fits(packet@),
{
    let mut out: Vec<u8> = Vec::new();
    match packet {
        ServerPacket::ErrorServerPacket(p) => {
            put_u32(&mut out, 0);
            match p.error {
                ServerError::PlayerLoggedIn => put_u32(&mut out, 0),
            }
        },
        ServerPacket::ClientJoinSuccessServerPacket(p) => {
            put_u32(&mut out, 1);
            put_uuid(&mut out, p.uuid);
            put_world_pos(&mut out, p.position);
            put_len(&mut out, p.players.len());
            put_players(&mut out, &p.players);
        },
        ServerPacket::PlayerJoinServerPacket(p) => {
            put_u32(&mut out, 2);
            put_uuid(&mut out, p.uuid);
            put_string(&mut out, &p.name);
            put_world_pos(&mut out, p.position);
        },
        ServerPacket::PlayerMoveServerPacket(p) => {
            put_u32(&mut out, 3);
            put_uuid(&mut out, p.uuid);
            put_world_pos(&mut out, p.position);
        },
        ServerPacket::InitialChunkDataServerPacket(p) => {
            put_u32(&mut out, 4);
            put_len(&mut out, p.chunk.blocks.len());
            put_blocks(&mut out, &p.chunk.blocks);
            put_chunk_pos(&mut out, p.position);
        },
    }
    assert(out@ =~= wire_server(packet@));
    proof {
        if server_message_fits(packet@) {
            lemma_server_round_trip(packet@, Seq::empty());
            assert(out@ + Seq::<u8>::empty() =~= out@);
        }
    }
    out
}

/// The bytes of a client packet, which read back as the packet.
pub fn encode_client_packet(packet: &ClientPacket) -> (bytes: Vec<u8>)
    ensures
        bytes@ == wire_client(packet@),
        parse_client(bytes@) == Some(packet@),
{
    let mut out: Vec<u8> = Vec::new();
    match packet {
        ClientPacket::ClientJoinClientPacket(p) => {
            put_u32(&mut out, 0);
            put_string(&mut out, &p.name);
        },
        ClientPacket::ClientMovePacket(p) => {
            put_u32(&mut out, 1);
            put_world_pos(&mut out, p.position);
        },
    }
    assert(out@ =~= wire_client(packet@));
    proof {
        lemma_client_round_trip(packet@, Seq::empty());
        assert(out@ + Seq::<u8>::empty() =~= out@);
    }
    out
}

/// The number that two bytes at `at` spell, and where reading goes on.
pub open spec fn read_u16(s: Seq<u8>, at: int) -> Option<(u16, int)> {
    if 0 <= at && at + 2 <= s.len() {
        Some((spec_u16_from_le_bytes(s.subrange(at, at + 2)), at + 2))
    } else {
        None
    }
}

/// The number that four bytes at `at` spell, and where reading goes on.
pub open spec fn read_u32(s: Seq<u8>, at: int) -> Option<(u32, int)> {
    if 0 <= at && at + 4 <= s.len() {
        Some((spec_u32_from_le_bytes(s.subrange(at, at + 4)), at + 4))
    } else {
        None
    }
}

/// The number that eight bytes at `at` spell, and where reading goes on.
pub open spec fn read_u64(s: Seq<u8>, at: int) -> Option<(u64, int)> {
    if 0 <= at && at + 8 <= s.len() {
        Some((spec_u64_from_le_bytes(s.subrange(at, at + 8)), at + 8))
    } else {
        None
    }
}

/// A player id at `at`: the length 16, then sixteen bytes.
pub open spec fn read_uuid(s: Seq<u8>, at: int) -> Option<(u128, int)> {
    match read_u64(s, at) {
        Some((n, p)) => if n == 16 && p + 16 <= s.len() {
            Some((spec_u128_from_le_bytes(s.subrange(p, p + 16).reverse()), p + 16))
        } else {
            None
        },
        None => None,
    }
}

/// A string at `at`: a length, then as many bytes, which must be UTF-8.
pub open spec fn read_string(s: Seq<u8>, at: int) -> Option<(Seq<char>, int)> {
    match read_u64(s, at) {
        Some((n, p)) => if p + n <= s.len() && valid_utf8(s.subrange(p, p + n)) {
            Some((decode_utf8(s.subrange(p, p + n)), p + n))
        } else {
            None
        },
        None => None,
    }
}

/// A block-space position at `at`.
pub open spec fn read_world_pos(s: Seq<u8>, at: int) -> Option<(WorldPos, int)> {
    match (read_u32(s, at), read_u32(s, at + 4), read_u32(s, at + 8)) {
        (Some((x, _)), Some((y, _)), Some((z, end))) => Some((WorldPos { x, y, z }, end)),
        _ => None,
    }
}

/// A chunk coordinate at `at`.
pub open spec fn read_chunk_pos(s: Seq<u8>, at: int) -> Option<(ChunkPos, int)> {
    match (read_u32(s, at), read_u32(s, at + 4), read_u32(s, at + 8)) {
        (Some((x, _)), Some((y, _)), Some((z, end))) => Some(
            (ChunkPos { x: x as i32, y: y as i32, z: z as i32 }, end),
        ),
        _ => None,
    }
}

/// A roster entry at `at`.
pub open spec fn read_player(s: Seq<u8>, at: int) -> Option<(PlayerEntry, int)> {
    match read_uuid(s, at) {
        Some((uuid, p)) => match read_string(s, p) {
            Some((name, q)) => match read_world_pos(s, q) {
                Some((position, end)) => Some((PlayerEntry { uuid, name, position }, end)),
                None => None,
            },
            None => None,
        },
        None => None,
    }
}

/// `count` roster entries from `at` on.
pub open spec fn read_players(s: Seq<u8>, at: int, count: nat) -> Option<(Seq<PlayerEntry>, int)>
    decreases count,
{
    if count == 0 {
        Some((Seq::empty(), at))
    } else {
        match read_players(s, at, (count - 1) as nat) {
            Some((ps, p)) => match read_player(s, p) {
                Some((entry, end)) => Some((ps.push(entry), end)),
                None => None,
            },
            None => None,
        }
    }
}

/// `count` blocks from `at` on.
pub open spec fn read_blocks(s: Seq<u8>, at: int, count: nat) -> Option<(Seq<BlockId>, int)> {
    if 0 <= at && at + 2 * count <= s.len() {
        Some(
            (
                Seq::new(
                    count,
                    |i: int| BlockId(spec_u16_from_le_bytes(s.subrange(at + 2 * i, at + 2 * i + 2))),
                ),
                at + 2 * count,
            ),
        )
    } else {
        None
    }
}

/// The server packet that the bytes begin with, if they begin with one.
/// Bytes after the packet are not looked at. A chunk must come with exactly
/// one block per cell.
pub open spec fn parse_server(s: Seq<u8>) -> Option<ServerMessage> {
    match read_u32(s, 0) {
        Some((tag, p)) => if tag == 0 {
            match read_u32(s, p) {
                Some((kind, _)) => if kind == 0 {
                    Some(ServerMessage::Error { error: ServerError::PlayerLoggedIn })
                } else {
                    None
                },
                None => None,
            }
        } else if tag == 1 {
            match read_uuid(s, p) {
                Some((uuid, q)) => match read_world_pos(s, q) {
                    Some((position, r)) => match read_u64(s, r) {
                        Some((count, t)) => match read_players(s, t, count as nat) {
                            Some((players, _)) => Some(
                                ServerMessage::JoinSuccess { uuid, position, players },
                            ),
                            None => None,
                        },
                        None => None,
                    },
                    None => None,
                },
                None => None,
            }
        } else if tag == 2 {
            match read_player(s, p) {
                Some((entry, _)) => Some(
                    ServerMessage::PlayerJoin {
                        uuid: entry.uuid,
                        name: entry.name,
                        position: entry.position,
                    },
                ),
                None => None,
            }
        } else if tag == 3 {
            match read_uuid(s, p) {
                Some((uuid, q)) => match read_world_pos(s, q) {
                    Some((position, _)) => Some(ServerMessage::PlayerMove { uuid, position }),
                    None => None,
                },
                None => None,
            }
        } else if tag == 4 {
            match read_u64(s, p) {
                Some((count, q)) => if count == CHUNK_VOLUME {
                    match read_blocks(s, q, count as nat) {
                        Some((blocks, r)) => match read_chunk_pos(s, r) {
                            Some((coord, _)) => Some(ServerMessage::ChunkData { blocks, coord }),
                            None => None,
                        },
                        None => None,
                    }
                } else {
                    None
                },
                None => None,
            }
        } else {
            None
        },
        None => None,
    }
}

/// The client packet that the bytes begin with, if they begin with one.
pub open spec fn parse_client(s: Seq<u8>) -> Option<ClientMessage> {
    match read_u32(s, 0) {
        Some((tag, p)) => if tag == 0 {
            match read_string(s, p) {
                Some((name, _)) => Some(ClientMessage::Join { name }),
                None => None,
            }
        } else if tag == 1 {
            match read_world_pos(s, p) {
                Some((position, _)) => Some(ClientMessage::Move { position }),
                None => None,
            }
        } else {
            None
        },
        None => None,
    }
}

/// `String::from_utf8` of the standard library: the string that the bytes
/// spell when they are well-formed UTF-8, and nothing when they are not.
#[verifier::external_body]
fn string_from_utf8(bytes: Vec<u8>) -> (s: Option<String>)
    ensures
        s is Some <==> valid_utf8(bytes@),
        s matches Some(t) ==> t@ == decode_utf8(bytes@),
{
    String::from_utf8(bytes).ok()
}

fn get_u16(buf: &[u8], at: usize) -> (r: Option<(u16, usize)>)
    requires
        at <= buf@.len(),
    ensures
        r matches Some((v, next)) ==> read_u16(buf@, at as int) == Some((v, next as int)),
        r is None ==> read_u16(buf@, at as int) is None,
{
    if buf.len() - at < 2 {
        return None;
    }
    Some((u16_from_le_bytes(slice_subrange(buf, at, at + 2)), at + 2))
}

fn get_u32(buf: &[u8], at: usize) -> (r: Option<(u32, usize)>)
    requires
        at <= buf@.len(),
    ensures
        r matches Some((v, next)) ==> read_u32(buf@, at as int) == Some((v, next as int)),
        r is None ==> read_u32(buf@, at as int) is None,
{
    if buf.len() - at < 4 {
        return None;
    }
    Some((u32_from_le_bytes(slice_subrange(buf, at, at + 4)), at + 4))
}

fn get_u64(buf: &[u8], at: usize) -> (r: Option<(u64, usize)>)
    requires
        at <= buf@.len(),
    ensures
        r matches Some((v, next)) ==> read_u64(buf@, at as int) == Some((v, next as int)),
        r is None ==> read_u64(buf@, at as int) is None,
{
    if buf.len() - at < 8 {
        return None;
    }
    Some((u64_from_le_bytes(slice_subrange(buf, at, at + 8)), at + 8))
}

fn get_uuid(buf: &[u8], at: usize) -> (r: Option<(u128, usize)>)
    requires
        at <= buf@.len(),
    ensures
        r matches Some((v, next)) ==> read_uuid(buf@, at as int) == Some((v, next as int)),
        r is None ==> read_uuid(buf@, at as int) is None,
{
    let (n, p) = match get_u64(buf, at) {
        Some(pair) => pair,
        None => { return None; },
    };
    if n != 16 || buf.len() - p < 16 {
        return None;
    }
    let mut le: Vec<u8> = Vec::new();
    let ghost be = buf@.subrange(p as int, p + 16);
    let mut k: usize = 0;
    while k < 16
        invariant
            k <= 16,
            p + 16 <= buf@.len() <= usize::MAX,
            be == buf@.subrange(p as int, p + 16),
            le@ == be.reverse().take(k as int),
        decreases 16 - k,
    {
        le.push(buf[p + 15 - k]);
        assert(le@ =~= be.reverse().take(k as int + 1));
        k += 1;
    }
    assert(le@ =~= be.reverse());
    Some((u128_from_le_bytes(le.as_slice()), p + 16))
}

fn get_string(buf: &[u8], at: usize) -> (r: Option<(String, usize)>)
    requires
        at <= buf@.len(),
    ensures
        r matches Some((v, next)) ==> read_string(buf@, at as int) == Some((v@, next as int)),
        r is None ==> read_string(buf@, at as int) is None,
{
    let (n, p) = match get_u64(buf, at) {
        Some(pair) => pair,
        None => { return None; },
    };
    if n > (buf.len() - p) as u64 {
        return None;
    }
    let end: usize = p + n as usize;
    let bytes = slice_to_vec(slice_subrange(buf, p, end));
    match string_from_utf8(bytes) {
        Some(name) => Some((name, end)),
        None => None,
    }
}

fn get_world_pos(buf: &[u8], at: usize) -> (r: Option<(WorldPos, usize)>)
    requires
        at <= buf@.len(),
    ensures
        r matches Some((v, next)) ==> read_world_pos(buf@, at as int) == Some((v, next as int)),
        r is None ==> read_world_pos(buf@, at as int) is None,
{
    if buf.len() - at < 12 {
        return None;
    }
    let (x, _) = match get_u32(buf, at) {
        Some(pair) => pair,
        None => { return None; },
    };
    let (y, _) = match get_u32(buf, at + 4) {
        Some(pair) => pair,
        None => { return None; },
    };
    let (z, end) = match get_u32(buf, at + 8) {
        Some(pair) => pair,
        None => { return None; },
    };
    Some((WorldPos { x, y, z }, end))
}

fn get_chunk_pos(buf: &[u8], at: usize) -> (r: Option<(ChunkPos, usize)>)
    requires
        at <= buf@.len(),
    ensures
        r matches Some((v, next)) ==> read_chunk_pos(buf@, at as int) == Some((v, next as int)),
        r is None ==> read_chunk_pos(buf@, at as int) is None,
{
    match get_world_pos(buf, at) {
        Some((p, end)) => Some(
            (
                ChunkPos {
                    x: #[verifier::truncate] (p.x as i32),
                    y: #[verifier::truncate] (p.y as i32),
                    z: #[verifier::truncate] (p.z as i32),
                },
                end,
            ),
        ),
        None => None,
    }
}

fn get_player(buf: &[u8], at: usize) -> (r: Option<(InitialPlayerData, usize)>)
    requires
        at <= buf@.len(),
    ensures
        r matches Some((v, next)) ==> read_player(buf@, at as int) == Some((v@, next as int))
            && next <= buf@.len(),
        r is None ==> read_player(buf@, at as int) is None,
{
    let (uuid, p) = match get_uuid(buf, at) {
        Some(pair) => pair,
        None => { return None; },
    };
    let (name, q) = match get_string(buf, p) {
        Some(pair) => pair,
        None => { return None; },
    };
    let (position, end) = match get_world_pos(buf, q) {
        Some(pair) => pair,
        None => { return None; },
    };
    Some((InitialPlayerData { uuid, name, position }, end))
}

/// Once a reading of roster entries has failed, reading more of them fails.
proof fn lemma_read_players_stays_none(s: Seq<u8>, at: int, failed: nat, count: nat)
    requires
        read_players(s, at, failed) is None,
        failed <= count,
    ensures
        read_players(s, at, count) is None,
    decreases count,
{
    if failed < count {
        lemma_read_players_stays_none(s, at, failed, (count - 1) as nat);
    }
}

fn get_players(buf: &[u8], at: usize, count: u64) -> (r: Option<Vec<InitialPlayerData>>)
    requires
        at <= buf@.len(),
    ensures
        r matches Some(players) ==> read_players(buf@, at as int, count as nat) matches Some(
            (ps, _),
        ) && ps == roster_view(players@),
        r is None ==> read_players(buf@, at as int, count as nat) is None,
{
    let mut players: Vec<InitialPlayerData> = Vec::new();
    let mut cursor: usize = at;
    let mut n: u64 = 0;
    assert(roster_view(players@) =~= Seq::<PlayerEntry>::empty());
    while n < count
        invariant
            n <= count,
            cursor <= buf@.len(),
            read_players(buf@, at as int, n as nat) == Some(
                (roster_view(players@), cursor as int),
            ),
        decreases count - n,
    {
        let ghost before = roster_view(players@);
        match get_player(buf, cursor) {
            Some((entry, next)) => {
                players.push(entry);
                assert(roster_view(players@) =~= before.push(entry@));
                cursor = next;
            },
            None => {
                proof {
                    lemma_read_players_stays_none(buf@, at as int, (n + 1) as nat, count as nat);
                }
                return None;
            },
        }
        n += 1;
    }
    Some(players)
}

fn get_blocks(buf: &[u8], at: usize) -> (r: Option<(Vec<BlockId>, usize)>)
    requires
        at <= buf@.len(),
    ensures
        r matches Some((blocks, next)) ==> read_blocks(buf@, at as int, CHUNK_VOLUME as nat)
            == Some((blocks@, next as int)) && next <= buf@.len(),
        r is None ==> read_blocks(buf@, at as int, CHUNK_VOLUME as nat) is None,
{
    if buf.len() - at < 2 * CHUNK_VOLUME {
        return None;
    }
    let mut blocks: Vec<BlockId> = Vec::with_capacity(CHUNK_VOLUME);
    let mut n: usize = 0;
    while n < CHUNK_VOLUME
        invariant
            n <= CHUNK_VOLUME,
            at + 2 * CHUNK_VOLUME <= buf@.len() <= usize::MAX,
            blocks@.len() == n,
            forall|i: int|
                0 <= i < n ==> #[trigger] blocks@[i] == BlockId(
                    spec_u16_from_le_bytes(buf@.subrange(at + 2 * i, at + 2 * i + 2)),
                ),
        decreases CHUNK_VOLUME - n,
    {
        let (v, _) = match get_u16(buf, at + 2 * n) {
            Some(pair) => pair,
            None => { return None; },
        };
        blocks.push(BlockId(v));
        n += 1;
    }
    assert(blocks@ =~= read_blocks(buf@, at as int, CHUNK_VOLUME as nat).unwrap().0);
    Some((blocks, at + 2 * CHUNK_VOLUME))
}

/// Reads a server packet from the front of `bytes`.
pub fn decode_server_packet(bytes: &[u8]) -> (packet: Option<ServerPacket>)
    ensures
        packet matches Some(p) ==> parse_server(bytes@) == Some(p@),
        packet is None ==> parse_server(bytes@) is None,
        packet matches Some(ServerPacket::InitialChunkDataServerPacket(p)) ==> p.chunk.wf(),
{
    let (tag, p) = match get_u32(bytes, 0) {
        Some(pair) => pair,
        None => { return None; },
    };
    if tag == 0 {
        let (kind, _) = match get_u32(bytes, p) {
            Some(pair) => pair,
            None => { return None; },
        };
        if kind != 0 {
            return None;
        }
        Some(
            ServerPacket::ErrorServerPacket(ErrorServerPacket { error: ServerError::PlayerLoggedIn }),
        )
    } else if tag == 1 {
        let (uuid, q) = match get_uuid(bytes, p) {
            Some(pair) => pair,
            None => { return None; },
        };
        let (position, r) = match get_world_pos(bytes, q) {
            Some(pair) => pair,
            None => { return None; },
        };
        let (count, t) = match get_u64(bytes, r) {
            Some(pair) => pair,
            None => { return None; },
        };
        let players = match get_players(bytes, t, count) {
            Some(players) => players,
            None => { return None; },
        };
        Some(
            ServerPacket::ClientJoinSuccessServerPacket(
                ClientJoinSuccessServerPacket { uuid, position, players },
            ),
        )
    } else if tag == 2 {
        let (entry, _) = match get_player(bytes, p) {
            Some(pair) => pair,
            None => { return None; },
        };
        Some(
            ServerPacket::PlayerJoinServerPacket(
                PlayerJoinServerPacket {
                    uuid: entry.uuid,
                    name: entry.name,
                    position: entry.position,
                },
            ),
        )
    } else if tag == 3 {
        let (uuid, q) = match get_uuid(bytes, p) {
            Some(pair) => pair,
            None => { return None; },
        };
        let (position, _) = match get_world_pos(bytes, q) {
            Some(pair) => pair,
            None => { return None; },
        };
        Some(ServerPacket::PlayerMoveServerPacket(PlayerMoveServerPacket { uuid, position }))
    } else if tag == 4 {
        let (count, q) = match get_u64(bytes, p) {
            Some(pair) => pair,
            None => { return None; },
        };
        if count != CHUNK_VOLUME as u64 {
            return None;
        }
        let (blocks, r) = match get_blocks(bytes, q) {
            Some(pair) => pair,
            None => { return None; },
        };
        let (position, _) = match get_chunk_pos(bytes, r) {
            Some(pair) => pair,
            None => { return None; },
        };
        Some(
            ServerPacket::InitialChunkDataServerPacket(
                InitialChunkDataServerPacket { chunk: Chunk { blocks }, position },
            ),
        )
    } else {
        None
    }
}

/// Reads a client packet from the front of `bytes`.
pub fn decode_client_packet(bytes: &[u8]) -> (packet: Option<ClientPacket>)
    ensures
        packet matches Some(p) ==> parse_client(bytes@) == Some(p@),
        packet is None ==> parse_client(bytes@) is None,
{
    let (tag, p) = match get_u32(bytes, 0) {
        Some(pair) => pair,
        None => { return None; },
    };
    if tag == 0 {
        match get_string(bytes, p) {
            Some((name, _)) => Some(
                ClientPacket::ClientJoinClientPacket(ClientJoinClientPacket { name }),
            ),
            None => None,
        }
    } else if tag == 1 {
        match get_world_pos(bytes, p) {
            Some((position, _)) => Some(
                ClientPacket::ClientMovePacket(ClientMovePacket { position }),
            ),
            None => None,
        }
    } else {
        None
    }
}

/// Whether `part` stands in `s` at `at`.
pub open spec fn stands_at(s: Seq<u8>, at: int, part: Seq<u8>) -> bool {
    0 <= at && at + part.len() <= s.len() && s.subrange(at, at + part.len()) == part
}

proof fn lemma_stands_split(s: Seq<u8>, at: int, a: Seq<u8>, b: Seq<u8>)
    requires
        stands_at(s, at, a + b),
    ensures
        stands_at(s, at, a),
        stands_at(s, at + a.len(), b),
{
    let whole = s.subrange(at, at + (a + b).len());
    assert(s.subrange(at, at + a.len()) =~= whole.subrange(0, a.len() as int));
    assert((a + b).subrange(0, a.len() as int) =~= a);
    assert(s.subrange(at + a.len(), at + a.len() + b.len()) =~= whole.subrange(
        a.len() as int,
        (a + b).len() as int,
    ));
    assert((a + b).subrange(a.len() as int, (a + b).len() as int) =~= b);
}

proof fn lemma_read_u16_back(s: Seq<u8>, at: int, v: u16)
    requires
        stands_at(s, at, spec_u16_to_le_bytes(v)),
    ensures
        read_u16(s, at) == Some((v, at + 2)),
        spec_u16_to_le_bytes(v).len() == 2,
{
    lemma_auto_spec_u16_to_from_le_bytes();
}

proof fn lemma_read_u32_back(s: Seq<u8>, at: int, v: u32)
    requires
        stands_at(s, at, spec_u32_to_le_bytes(v)),
    ensures
        read_u32(s, at) == Some((v, at + 4)),
        spec_u32_to_le_bytes(v).len() == 4,
{
    lemma_auto_spec_u32_to_from_le_bytes();
}

proof fn lemma_read_len_back(s: Seq<u8>, at: int, n: nat)
    requires
        stands_at(s, at, wire_len(n)),
        n <= u64::MAX,
    ensures
        read_u64(s, at) == Some((n as u64, at + 8)),
        wire_len(n).len() == 8,
{
    lemma_auto_spec_u64_to_from_le_bytes();
}

proof fn lemma_read_uuid_back(s: Seq<u8>, at: int, uuid: u128)
    requires
        stands_at(s, at, wire_uuid(uuid)),
    ensures
        read_uuid(s, at) == Some((uuid, at + 24)),
        wire_uuid(uuid).len() == 24,
{
    lemma_auto_spec_u64_to_from_le_bytes();
    lemma_auto_spec_u128_to_from_le_bytes();
    lemma_stands_split(s, at, wire_len(16), be_u128(uuid));
    lemma_read_len_back(s, at, 16);
    let le = spec_u128_to_le_bytes(uuid);
    assert(le.reverse().reverse() =~= le);
}

proof fn lemma_read_string_back(s: Seq<u8>, at: int, name: Seq<char>)
    requires
        stands_at(s, at, wire_string(name)),
        encode_utf8(name).len() <= u64::MAX,
    ensures
        read_string(s, at) == Some((name, at + wire_string(name).len())),
{
    let utf8 = encode_utf8(name);
    lemma_stands_split(s, at, wire_len(utf8.len()), utf8);
    lemma_read_len_back(s, at, utf8.len());
    encode_utf8_valid_utf8(name);
    encode_utf8_decode_utf8(name);
}

proof fn lemma_read_world_pos_back(s: Seq<u8>, at: int, p: WorldPos)
    requires
        stands_at(s, at, wire_world_pos(p)),
    ensures
        read_world_pos(s, at) == Some((p, at + 12)),
        wire_world_pos(p).len() == 12,
{
    lemma_auto_spec_u32_to_from_le_bytes();
    let x = spec_u32_to_le_bytes(p.x);
    let y = spec_u32_to_le_bytes(p.y);
    let z = spec_u32_to_le_bytes(p.z);
    lemma_stands_split(s, at, x + y, z);
    lemma_stands_split(s, at, x, y);
    lemma_read_u32_back(s, at, p.x);
    lemma_read_u32_back(s, at + 4, p.y);
    lemma_read_u32_back(s, at + 8, p.z);
}

proof fn lemma_i32_through_u32(v: i32)
    ensures
        (v as u32) as i32 == v,
{
    assert((v as u32) as i32 == v) by (bit_vector);
}

proof fn lemma_read_chunk_pos_back(s: Seq<u8>, at: int, p: ChunkPos)
    requires
        stands_at(s, at, wire_chunk_pos(p)),
    ensures
        read_chunk_pos(s, at) == Some((p, at + 12)),
        wire_chunk_pos(p).len() == 12,
{
    lemma_auto_spec_u32_to_from_le_bytes();
    let x = spec_u32_to_le_bytes(p.x as u32);
    let y = spec_u32_to_le_bytes(p.y as u32);
    let z = spec_u32_to_le_bytes(p.z as u32);
    lemma_stands_split(s, at, x + y, z);
    lemma_stands_split(s, at, x, y);
    lemma_read_u32_back(s, at, p.x as u32);
    lemma_read_u32_back(s, at + 4, p.y as u32);
    lemma_read_u32_back(s, at + 8, p.z as u32);
    lemma_i32_through_u32(p.x);
    lemma_i32_through_u32(p.y);
    lemma_i32_through_u32(p.z);
}

proof fn lemma_read_player_back(s: Seq<u8>, at: int, p: PlayerEntry)
    requires
        stands_at(s, at, wire_player(p)),
        name_fits(p.name),
    ensures
        read_player(s, at) == Some((p, at + wire_player(p).len())),
{
    let a = wire_uuid(p.uuid);
    let b = wire_string(p.name);
    let c = wire_world_pos(p.position);
    lemma_stands_split(s, at, a + b, c);
    lemma_stands_split(s, at, a, b);
    lemma_read_uuid_back(s, at, p.uuid);
    lemma_read_string_back(s, at + 24, p.name);
    lemma_read_world_pos_back(s, at + 24 + b.len(), p.position);
}

proof fn lemma_read_players_back(s: Seq<u8>, at: int, ps: Seq<PlayerEntry>)
    requires
        stands_at(s, at, wire_players(ps)),
        forall|i: int| 0 <= i < ps.len() ==> name_fits(#[trigger] ps[i].name),
    ensures
        read_players(s, at, ps.len()) == Some((ps, at + wire_players(ps).len())),
    decreases ps.len(),
{
    if ps.len() > 0 {
        let front = ps.drop_last();
        lemma_stands_split(s, at, wire_players(front), wire_player(ps.last()));
        lemma_read_players_back(s, at, front);
        lemma_read_player_back(s, at + wire_players(front).len(), ps.last());
        assert(front.push(ps.last()) =~= ps);
    }
}

proof fn lemma_wire_blocks_len(bs: Seq<BlockId>)
    ensures
        wire_blocks(bs).len() == 2 * bs.len(),
    decreases bs.len(),
{
    lemma_auto_spec_u16_to_from_le_bytes();
    if bs.len() > 0 {
        lemma_wire_blocks_len(bs.drop_last());
    }
}

proof fn lemma_block_stands(s: Seq<u8>, at: int, bs: Seq<BlockId>, i: int)
    requires
        stands_at(s, at, wire_blocks(bs)),
        0 <= i < bs.len(),
    ensures
        stands_at(s, at + 2 * i, spec_u16_to_le_bytes(bs[i].0)),
    decreases bs.len(),
{
    let front = bs.drop_last();
    lemma_wire_blocks_len(front);
    lemma_stands_split(s, at, wire_blocks(front), spec_u16_to_le_bytes(bs.last().0));
    if i < bs.len() - 1 {
        lemma_block_stands(s, at, front, i);
    }
}

proof fn lemma_read_blocks_back(s: Seq<u8>, at: int, bs: Seq<BlockId>)
    requires
        stands_at(s, at, wire_blocks(bs)),
    ensures
        read_blocks(s, at, bs.len()) == Some((bs, at + 2 * bs.len())),
{
    lemma_wire_blocks_len(bs);
    let got = read_blocks(s, at, bs.len()).unwrap().0;
    assert forall|i: int| 0 <= i < bs.len() implies got[i] == bs[i] by {
        lemma_block_stands(s, at, bs, i);
        lemma_read_u16_back(s, at + 2 * i, bs[i].0);
    }
    assert(got =~= bs);
}

/// Reading what was written gives back the server packet that was written,
/// whatever bytes follow it.
pub proof fn lemma_server_round_trip(m: ServerMessage, rest: Seq<u8>)
    requires
        server_message_fits(m),
    ensures
        parse_server(wire_server(m) + rest) == Some(m),
{
    let s = wire_server(m) + rest;
    let tag = spec_u32_to_le_bytes(server_tag(m));
    assert(s.subrange(0, wire_server(m).len() as int) =~= wire_server(m));
    assert(stands_at(s, 0, tag + server_body(m)));
    lemma_stands_split(s, 0, tag, server_body(m));
    lemma_read_u32_back(s, 0, server_tag(m));
    match m {
        ServerMessage::Error { error } => {
            lemma_read_u32_back(s, 4, 0);
        },
        ServerMessage::JoinSuccess { uuid, position, players } => {
            let a = wire_uuid(uuid);
            let b = wire_world_pos(position);
            let c = wire_len(players.len());
            let d = wire_players(players);
            lemma_stands_split(s, 4, a + b + c, d);
            lemma_stands_split(s, 4, a + b, c);
            lemma_stands_split(s, 4, a, b);
            lemma_read_uuid_back(s, 4, uuid);
            lemma_read_world_pos_back(s, 28, position);
            lemma_read_len_back(s, 40, players.len());
            lemma_read_players_back(s, 48, players);
        },
        ServerMessage::PlayerJoin { uuid, name, position } => {
            let entry = PlayerEntry { uuid, name, position };
            assert(server_body(m) == wire_player(entry));
            lemma_read_player_back(s, 4, entry);
        },
        ServerMessage::PlayerMove { uuid, position } => {
            lemma_stands_split(s, 4, wire_uuid(uuid), wire_world_pos(position));
            lemma_read_uuid_back(s, 4, uuid);
            lemma_read_world_pos_back(s, 28, position);
        },
        ServerMessage::ChunkData { blocks, coord } => {
            let a = wire_len(blocks.len());
            let b = wire_blocks(blocks);
            let c = wire_chunk_pos(coord);
            lemma_stands_split(s, 4, a + b, c);
            lemma_stands_split(s, 4, a, b);
            lemma_read_len_back(s, 4, blocks.len());
            lemma_read_blocks_back(s, 12, blocks);
            lemma_wire_blocks_len(blocks);
            lemma_read_chunk_pos_back(s, 12 + 2 * (blocks.len() as int), coord);
        },
    }
}

/// Reading what was written gives back the client packet that was written,
/// whatever bytes follow it.
pub proof fn lemma_client_round_trip(m: ClientMessage, rest: Seq<u8>)
    requires
        client_message_fits(m),
    ensures
        parse_client(wire_client(m) + rest) == Some(m),
{
    let s = wire_client(m) + rest;
    assert(s.subrange(0, wire_client(m).len() as int) =~= wire_client(m));
    match m {
        ClientMessage::Join { name } => {
            lemma_stands_split(s, 0, spec_u32_to_le_bytes(0), wire_string(name));
            lemma_read_u32_back(s, 0, 0);
            lemma_read_string_back(s, 4, name);
        },
        ClientMessage::Move { position } => {
            lemma_stands_split(s, 0, spec_u32_to_le_bytes(1), wire_world_pos(position));
            lemma_read_u32_back(s, 0, 1);
            lemma_read_world_pos_back(s, 4, position);
        },
    }
}

} // verus!
