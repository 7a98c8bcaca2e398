use vstd::prelude::*;

verus! {

/// A peer's network address. Only IPv4 addresses can appear in a compact
/// peer list; IPv6 addresses are tracked but never encoded.
#[derive(Clone, Copy, Debug, PartialEq, Eq)]
pub enum IpAddress {
    /// The four octets of an IPv4 address, most significant first.
    V4([u8; 4]),
    /// An IPv6 address as a 128-bit integer, most significant bits first.
    V6(u128),
}

/// One member of a torrent's swarm.
#[derive(Clone, Debug)]
pub struct Peer {
    pub ip: IpAddress,
    pub port: u16,
    pub peer_id: String,
    /// When the peer last announced, in milliseconds since the Unix epoch.
    pub last_seen: u64,
}

/// The mathematical model of a `Peer`.
pub ghost struct PeerView {
    pub ip: IpAddress,
    pub port: u16,
    pub peer_id: Seq<char>,
    pub last_seen: u64,
}

impl View for Peer {
    type V = PeerView;

    open spec fn view(&self) -> PeerView {
        PeerView { ip: self.ip, port: self.port, peer_id: self.peer_id@, last_seen: self.last_seen }
    }
}

/// The models of a sequence of peers, in order.
pub open spec fn peers_view(peers: Seq<Peer>) -> Seq<PeerView> {
    peers.map_values(|p: Peer| p@)
}

impl Peer {
    /// A peer record with the given fields.
    pub fn new(ip: IpAddress, port: u16, peer_id: &str, last_seen: u64) -> (r: Peer)
        ensures
            r@ == (PeerView { ip, port, peer_id: peer_id@, last_seen }),
    {
        Peer { ip, port, peer_id: peer_id.to_owned(), last_seen }
    }

    /// A field-by-field copy of this peer.
    pub fn duplicate(&self) -> (r: Peer)
        ensures
            r@ == self@,
    {
        Peer { ip: self.ip, port: self.port, peer_id: self.peer_id.clone(), last_seen: self.last_seen }
    }
}

} // verus!
