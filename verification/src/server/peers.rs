use crate::server::player::{PeerState, ServerPlayer};
use dashmap::DashMap;
use vstd::prelude::*;

verus! {

/// The key of the peer map: the address and the port of a connection.
pub type PeerKey = (u128, u16);

/// Where a connection comes from: an IP address as a number (an IPv4
/// address in its IPv6-mapped form), and a port.
#[derive(Clone, Copy, PartialEq, Eq, Structural, Hash, Debug)]
pub struct PeerAddr {
    pub ip: u128,
    pub port: u16,
}

impl PeerAddr {
    /// The key under which the peer map holds this address.
    pub open spec fn key(self) -> PeerKey {
        (self.ip, self.port)
    }

    /// The address that the peer map holds under `key`.
    pub fn of_key(key: PeerKey) -> (addr: PeerAddr)
        ensures
            addr.key() == key,
    {
        PeerAddr { ip: key.0, port: key.1 }
    }
}

/// The entries of a peer map: the record stored under each connection.
pub uninterp spec fn peer_entries(table: DashMap<(u128, u16), ServerPlayer>) -> Map<
    (u128, u16),
    PeerState,
>;

/// The peer map without peers.
pub open spec fn no_peers() -> Map<PeerKey, PeerState> {
    Map::empty()
}

/// Whether `keys` lists the keys of `peers`, each once.
pub open spec fn lists_keys(keys: Seq<PeerKey>, peers: Map<PeerKey, PeerState>) -> bool {
    keys.no_duplicates() && forall|k: PeerKey| keys.contains(k) <==> peers.contains_key(k)
}

/// `DashMap::new`: a map without entries.
#[verifier::external_body]
pub(crate) fn peer_map_new() -> (table: DashMap<PeerKey, ServerPlayer>)
    ensures
        peer_entries(table) == no_peers(),
{
    DashMap::new()
}

/// `DashMap::get`, followed by a copy of what it found: the record stored
/// under `key`, if the map has that key.
#[verifier::external_body]
pub(crate) fn peer_map_get(table: &DashMap<PeerKey, ServerPlayer>, key: PeerKey) -> (found: Option<
    ServerPlayer,
>)
    ensures
        found is Some <==> peer_entries(*table).contains_key(key),
        found matches Some(peer) ==> peer@ == peer_entries(*table)[key],
{
    table.get(&key).map(|entry| entry.value().duplicate())
}

/// `DashMap::insert`: afterwards the map holds `peer` under `key` and is
/// otherwise unchanged.
#[verifier::external_body]
pub(crate) fn peer_map_insert(
    table: &mut DashMap<PeerKey, ServerPlayer>,
    key: PeerKey,
    peer: ServerPlayer,
)
    ensures
        peer_entries(*final(table)) == peer_entries(*old(table)).insert(key, peer@),
{
    table.insert(key, peer);
}

/// `DashMap::remove`: afterwards the map has no entry under `key` and is
/// otherwise unchanged.
#[verifier::external_body]
pub(crate) fn peer_map_remove(table: &mut DashMap<PeerKey, ServerPlayer>, key: PeerKey)
    ensures
        peer_entries(*final(table)) == peer_entries(*old(table)).remove(key),
{
    table.remove(&key);
}

/// `DashMap::iter`, with the key of each entry that it hands out: every key
/// of the map, once. The order is the map's own and no contract speaks of
/// it.
#[verifier::external_body]
pub(crate) fn peer_map_keys(table: &DashMap<PeerKey, ServerPlayer>) -> (keys: Vec<PeerKey>)
    ensures
        lists_keys(keys@, peer_entries(*table)),
{
    table.iter().map(|entry| *entry.key()).collect()
}

} // verus!
