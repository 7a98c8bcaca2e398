use vstd::prelude::*;

use crate::peer::{peers_view, IpAddress, Peer, PeerView};

verus! {

/// How long a peer stays in its swarm without announcing: 180 seconds.
pub const EXPIRY_MS: u64 = 180_000;

/// No two peers of the swarm share a `peer_id`.
pub open spec fn unique_ids(s: Seq<PeerView>) -> bool {
    forall|i: int, j: int|
        0 <= i < s.len() && 0 <= j < s.len() && i != j ==> s[i].peer_id != s[j].peer_id
}

/// Some peer of the swarm has the given `peer_id`.
pub open spec fn has_peer(s: Seq<PeerView>, id: Seq<char>) -> bool {
    exists|i: int| 0 <= i < s.len() && s[i].peer_id == id
}

/// A peer last seen `EXPIRY_MS` or more before `now`. A peer whose
/// `last_seen` lies after `now` is not stale.
pub open spec fn is_stale(p: PeerView, now: u64) -> bool {
    now as int - p.last_seen as int >= EXPIRY_MS as int
}

/// The swarm with the peer of the given id removed.
pub open spec fn without_peer(s: Seq<PeerView>, id: Seq<char>) -> Seq<PeerView> {
    s.filter(|p: PeerView| p.peer_id != id)
}

/// The swarm with every stale peer removed.
pub open spec fn live_peers(s: Seq<PeerView>, now: u64) -> Seq<PeerView> {
    s.filter(|p: PeerView| !is_stale(p, now))
}

/// The swarm with the `last_seen` of the peer of the given id set to `now`.
pub open spec fn touch(s: Seq<PeerView>, id: Seq<char>, now: u64) -> Seq<PeerView> {
    s.map_values(
        |p: PeerView|
            if p.peer_id == id {
                PeerView { last_seen: now, ..p }
            } else {
                p
            },
    )
}

/// The swarm after one announce: a stopped announce removes the peer;
/// any other drops stale peers, then refreshes the peer or appends it.
pub open spec fn next_swarm(
    s: Seq<PeerView>,
    id: Seq<char>,
    port: u16,
    ip: IpAddress,
    stopped: bool,
    now: u64,
) -> Seq<PeerView> {
    if stopped {
        without_peer(s, id)
    } else {
        let live = live_peers(s, now);
        if has_peer(live, id) {
            touch(live, id, now)
        } else {
            live.push(PeerView { ip, port, peer_id: id, last_seen: now })
        }
    }
}

/// Copies of the peers whose id differs from `id`, in order.
pub fn remove_peer(swarm: &Vec<Peer>, id: &String) -> (r: Vec<Peer>)
    ensures
        peers_view(r@) == without_peer(peers_view(swarm@), id@),
{
    let ghost s = peers_view(swarm@);
    let ghost pred = |p: PeerView| p.peer_id != id@;
    let mut r: Vec<Peer> = Vec::new();
    let mut i: usize = 0;
    while i < swarm.len()
        invariant
            i <= swarm.len(),
            s == peers_view(swarm@),
            pred == (|p: PeerView| p.peer_id != id@),
            peers_view(r@) == s.take(i as int).filter(pred),
        decreases swarm.len() - i,
    {
        proof {
            assert(s.take(i + 1).drop_last() =~= s.take(i as int));
            reveal(Seq::filter);
        }
        if swarm[i].peer_id != *id {
            r.push(swarm[i].duplicate());
        }
        proof {
            assert(peers_view(r@) =~= s.take(i + 1).filter(pred));
        }
        i += 1;
    }
    proof {
        assert(s.take(swarm.len() as int) =~= s);
    }
    r
}

/// Copies of the peers that are not stale at `now`, in order.
pub fn remove_stale(swarm: &Vec<Peer>, now: u64) -> (r: Vec<Peer>)
    ensures
        peers_view(r@) == live_peers(peers_view(swarm@), now),
{
    let ghost s = peers_view(swarm@);
    let ghost pred = |p: PeerView| !is_stale(p, now);
    let mut r: Vec<Peer> = Vec::new();
    let mut i: usize = 0;
    while i < swarm.len()
        invariant
            i <= swarm.len(),
            s == peers_view(swarm@),
            pred == (|p: PeerView| !is_stale(p, now)),
            peers_view(r@) == s.take(i as int).filter(pred),
        decreases swarm.len() - i,
    {
        proof {
            assert(s.take(i + 1).drop_last() =~= s.take(i as int));
            reveal(Seq::filter);
        }
        let seen = swarm[i].last_seen;
        if now <= seen || now - seen < EXPIRY_MS {
            r.push(swarm[i].duplicate());
        }
        proof {
            assert(peers_view(r@) =~= s.take(i + 1).filter(pred));
        }
        i += 1;
    }
    proof {
        assert(s.take(swarm.len() as int) =~= s);
    }
    r
}

/// The index of the first peer with the given id, if any.
pub fn find_peer(swarm: &Vec<Peer>, id: &String) -> (r: Option<usize>)
    ensures
        match r {
            Some(i) => i < swarm@.len() && swarm@[i as int].peer_id@ == id@
                && forall|j: int| 0 <= j < i ==> swarm@[j].peer_id@ != id@,
            None => !has_peer(peers_view(swarm@), id@),
        },
{
    let mut i: usize = 0;
    while i < swarm.len()
        invariant
            i <= swarm.len(),
            forall|j: int| 0 <= j < i ==> swarm@[j].peer_id@ != id@,
        decreases swarm.len() - i,
    {
        if swarm[i].peer_id == *id {
            return Some(i);
        }
        i += 1;
    }
    None
}

/// Filtering keeps ids unique.
pub proof fn lemma_filter_unique(s: Seq<PeerView>, pred: spec_fn(PeerView) -> bool)
    requires
        unique_ids(s),
    ensures
        unique_ids(s.filter(pred)),
    decreases s.len(),
{
    reveal(Seq::filter);
    if s.len() > 0 {
        let rest = s.drop_last();
        assert(unique_ids(rest));
        lemma_filter_unique(rest, pred);
        let sub = rest.filter(pred);
        if pred(s.last()) {
            assert forall|j: int| 0 <= j < sub.len() implies sub[j].peer_id != s.last().peer_id by {
                assert(sub.contains(sub[j]));
                rest.lemma_filter_contains_rev(pred, sub[j]);
                let k = choose|k: int| 0 <= k < rest.len() && rest[k] == sub[j];
                assert(s[k] == rest[k]);
            }
        }
    }
}

/// With unique ids, refreshing a present peer updates exactly its record.
pub proof fn lemma_touch_at(s: Seq<PeerView>, id: Seq<char>, now: u64, i: int)
    requires
        unique_ids(s),
        0 <= i < s.len(),
        s[i].peer_id == id,
    ensures
        touch(s, id, now) == s.update(i, PeerView { last_seen: now, ..s[i] }),
        unique_ids(touch(s, id, now)),
{
    assert(touch(s, id, now) =~= s.update(i, PeerView { last_seen: now, ..s[i] }));
}

/// An announce keeps ids unique; after a non-stopped announce the swarm
/// holds the announcing peer.
pub proof fn lemma_next_swarm_unique(
    s: Seq<PeerView>,
    id: Seq<char>,
    port: u16,
    ip: IpAddress,
    stopped: bool,
    now: u64,
)
    requires
        unique_ids(s),
    ensures
        unique_ids(next_swarm(s, id, port, ip, stopped, now)),
        !stopped ==> has_peer(next_swarm(s, id, port, ip, stopped, now), id),
{
    if stopped {
        lemma_filter_unique(s, |p: PeerView| p.peer_id != id);
    } else {
        let live = live_peers(s, now);
        lemma_filter_unique(s, |p: PeerView| !is_stale(p, now));
        if has_peer(live, id) {
            let i = choose|i: int| 0 <= i < live.len() && live[i].peer_id == id;
            lemma_touch_at(live, id, now, i);
            assert(touch(live, id, now)[i].peer_id == id);
        } else {
            let r = live.push(PeerView { ip, port, peer_id: id, last_seen: now });
            assert(r[live.len() as int].peer_id == id);
        }
    }
}

/// Copies of all peers, in order.
pub fn copy_peers(swarm: &Vec<Peer>) -> (r: Vec<Peer>)
    ensures
        peers_view(r@) == peers_view(swarm@),
{
    let mut r: Vec<Peer> = Vec::new();
    let mut i: usize = 0;
    while i < swarm.len()
        invariant
            i <= swarm.len(),
            peers_view(r@) == peers_view(swarm@).take(i as int),
        decreases swarm.len() - i,
    {
        let ghost before = r@;
        let p = swarm[i].duplicate();
        r.push(p);
        proof {
            assert(r@ =~= before.push(p));
            assert(peers_view(r@) =~= peers_view(before).push(swarm@[i as int]@));
            assert(peers_view(r@) =~= peers_view(swarm@).take(i + 1));
        }
        i += 1;
    }
    proof {
        assert(peers_view(swarm@).take(swarm.len() as int) =~= peers_view(swarm@));
    }
    r
}

/// The swarm after one announce, as `next_swarm` describes it.
pub fn next_peers(
    swarm: &Vec<Peer>,
    id: &String,
    port: u16,
    ip: IpAddress,
    stopped: bool,
    now: u64,
) -> (r: Vec<Peer>)
    requires
        unique_ids(peers_view(swarm@)),
    ensures
        peers_view(r@) == next_swarm(peers_view(swarm@), id@, port, ip, stopped, now),
        unique_ids(peers_view(r@)),
{
    proof {
        lemma_next_swarm_unique(peers_view(swarm@), id@, port, ip, stopped, now);
    }
    if stopped {
        remove_peer(swarm, id)
    } else {
        let mut live = remove_stale(swarm, now);
        let ghost lv = peers_view(live@);
        proof {
            lemma_filter_unique(peers_view(swarm@), |p: PeerView| !is_stale(p, now));
        }
        match find_peer(&live, id) {
            Some(i) => {
                let mut p = live[i].duplicate();
                p.last_seen = now;
                live.set(i, p);
                proof {
                    assert(lv[i as int].peer_id == id@);
                    lemma_touch_at(lv, id@, now, i as int);
                    assert(peers_view(live@) =~= touch(lv, id@, now));
                }
            },
            None => {
                live.push(Peer { ip, port, peer_id: id.clone(), last_seen: now });
                proof {
                    assert(peers_view(live@) =~= lv.push(
                        PeerView { ip, port, peer_id: id@, last_seen: now },
                    ));
                }
            },
        }
        live
    }
}

} // verus!
