use std::time::{SystemTime, UNIX_EPOCH};
use vstd::hash_map::StringHashMap;
use vstd::prelude::*;

use crate::peer::{peers_view, IpAddress, Peer, PeerView};
use crate::swarm::{copy_peers, next_peers, next_swarm, unique_ids};

verus! {

/// Only this event is told apart; any other value, empty included, is an
/// ordinary announce.
pub open spec fn is_stop_event(event: Seq<char>) -> bool {
    event == "stopped"@
}

/// The peers of the torrent `h`, empty where no swarm exists yet.
pub open spec fn swarm_of(m: Map<Seq<char>, Seq<PeerView>>, h: Seq<char>) -> Seq<PeerView> {
    if m.contains_key(h) {
        m[h]
    } else {
        Seq::empty()
    }
}

/// The registry after one announce: the torrent's swarm is created where
/// missing and replaced by its next state; every other swarm stays.
pub open spec fn registry_after(
    m: Map<Seq<char>, Seq<PeerView>>,
    h: Seq<char>,
    id: Seq<char>,
    port: u16,
    ip: IpAddress,
    event: Seq<char>,
    now: u64,
) -> Map<Seq<char>, Seq<PeerView>> {
    m.insert(h, next_swarm(swarm_of(m, h), id, port, ip, is_stop_event(event), now))
}

/// The mapping from torrent identifier (`info_hash`) to its swarm.
pub struct Registry {
    swarms: StringHashMap<Vec<Peer>>,
}

impl View for Registry {
    type V = Map<Seq<char>, Seq<PeerView>>;

    closed spec fn view(&self) -> Map<Seq<char>, Seq<PeerView>> {
        self.swarms@.map_values(|v: Vec<Peer>| peers_view(v@))
    }
}

/// Relies on std's `SystemTime::now`: the current time in milliseconds since
/// the Unix epoch, 0 for a clock set before it. Nothing is promised of it.
#[verifier::external_body]
fn now_millis() -> (r: u64) {
    match SystemTime::now().duration_since(UNIX_EPOCH) {
        Ok(d) => d.as_millis() as u64,
        Err(_) => 0,
    }
}

impl Registry {
    #[verifier::type_invariant]
    closed spec fn ids_unique(&self) -> bool {
        self.wf()
    }

    /// Every swarm has unique peer ids.
    pub open spec fn wf(&self) -> bool {
        forall|h: Seq<char>| #[trigger] self@.contains_key(h) ==> unique_ids(self@[h])
    }

    /// An empty registry.
    pub fn new() -> (r: Registry)
        ensures
            r@ == Map::<Seq<char>, Seq<PeerView>>::empty(),
            r.wf(),
    {
        let r = Registry { swarms: StringHashMap::new() };
        assert(r@ =~= Map::<Seq<char>, Seq<PeerView>>::empty());
        r
    }

    /// The current peers of the torrent `info_hash`, in insertion order.
    pub fn peers(&self, info_hash: &str) -> (r: Vec<Peer>)
        ensures
            peers_view(r@) == swarm_of(self@, info_hash@),
    {
        match self.swarms.get(info_hash) {
            Some(v) => copy_peers(v),
            None => {
                let r: Vec<Peer> = Vec::new();
                assert(peers_view(r@) =~= Seq::<PeerView>::empty());
                r
            },
        }
    }

    /// Applies one announce at time `now` (milliseconds since the Unix epoch)
    /// and returns the torrent's swarm afterwards.
    pub fn announce_at(
        &mut self,
        info_hash: &str,
        peer_id: &str,
        port: u16,
        ip: IpAddress,
        event: &str,
        now: u64,
    ) -> (r: Vec<Peer>)
        ensures
            final(self).wf(),
            final(self)@ == registry_after(old(self)@, info_hash@, peer_id@, port, ip, event@, now),
            peers_view(r@) == swarm_of(final(self)@, info_hash@),
    {
        proof {
            use_type_invariant(&*self);
        }
        let id = peer_id.to_owned();
        let ev = event.to_owned();
        let stop = "stopped".to_owned();
        let stopped = ev == stop;
        let current = self.peers(info_hash);
        proof {
            if self@.contains_key(info_hash@) {
                assert(unique_ids(self@[info_hash@]));
            }
        }
        let next = next_peers(&current, &id, port, ip, stopped, now);
        let out = copy_peers(&next);
        let ghost before = self@;
        let mut swarms = StringHashMap::new();
        std::mem::swap(&mut swarms, &mut self.swarms);
        swarms.insert(info_hash.to_owned(), next);
        proof {
            assert(swarms@.map_values(|v: Vec<Peer>| peers_view(v@)) =~= before.insert(
                info_hash@,
                peers_view(next@),
            ));
        }
        self.swarms = swarms;
        proof {
            use_type_invariant(&*self);
        }
        out
    }

    /// Applies one announce at the current time and returns the torrent's
    /// swarm afterwards.
    pub fn announce(
        &mut self,
        info_hash: &str,
        peer_id: &str,
        port: u16,
        ip: IpAddress,
        event: &str,
    ) -> (r: Vec<Peer>)
        ensures
            final(self).wf(),
            exists|now: u64|
                final(self)@ == registry_after(old(self)@, info_hash@, peer_id@, port, ip, event@, now),
            peers_view(r@) == swarm_of(final(self)@, info_hash@),
    {
        let now = now_millis();
        self.announce_at(info_hash, peer_id, port, ip, event, now)
    }
}

} // verus!
