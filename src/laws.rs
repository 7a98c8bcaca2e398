use vstd::prelude::*;

use crate::encode::compact_response;
use crate::peer::{IpAddress, PeerView};
use crate::registry::{is_stop_event, registry_after, swarm_of};
use crate::swarm::{
    has_peer, is_stale, lemma_next_swarm_unique, live_peers, unique_ids,
    EXPIRY_MS,
};

verus! {

/// Every swarm of the registry model has unique peer ids.
pub open spec fn all_unique(m: Map<Seq<char>, Seq<PeerView>>) -> bool {
    forall|h: Seq<char>| #[trigger] m.contains_key(h) ==> unique_ids(m[h])
}

/// A non-stopped announce leaves exactly one peer with the announcing id in
/// its swarm, and every swarm keeps unique ids; so does any sequence of them.
pub proof fn lemma_announce_single_record(
    m: Map<Seq<char>, Seq<PeerView>>,
    h: Seq<char>,
    id: Seq<char>,
    port: u16,
    ip: IpAddress,
    event: Seq<char>,
    now: u64,
)
    requires
        all_unique(m),
        !is_stop_event(event),
    ensures
        all_unique(registry_after(m, h, id, port, ip, event, now)),
        ({
            let s = swarm_of(registry_after(m, h, id, port, ip, event, now), h);
            exists|i: int|
                0 <= i < s.len() && s[i].peer_id == id && forall|j: int|
                    0 <= j < s.len() && #[trigger] s[j].peer_id == id ==> j == i
        }),
{
    let old_s = swarm_of(m, h);
    if m.contains_key(h) {
        assert(unique_ids(m[h]));
    }
    lemma_next_swarm_unique(old_s, id, port, ip, false, now);
    let r = registry_after(m, h, id, port, ip, event, now);
    assert forall|k: Seq<char>| #[trigger] r.contains_key(k) implies unique_ids(r[k]) by {
        if k != h {
            assert(m.contains_key(k));
        }
    }
    let s = swarm_of(r, h);
    let i = choose|i: int| 0 <= i < s.len() && s[i].peer_id == id;
    assert forall|j: int| 0 <= j < s.len() && #[trigger] s[j].peer_id == id implies j == i by {}
}

/// A stopped announce leaves no peer with the announcing id in its swarm,
/// however recently that peer was seen.
pub proof fn lemma_stopped_removes(
    m: Map<Seq<char>, Seq<PeerView>>,
    h: Seq<char>,
    id: Seq<char>,
    port: u16,
    ip: IpAddress,
    now: u64,
)
    ensures
        !has_peer(swarm_of(registry_after(m, h, id, port, ip, "stopped"@, now), h), id),
{
    let s = swarm_of(m, h);
    let pred = |p: PeerView| p.peer_id != id;
    let r = s.filter(pred);
    assert forall|i: int| 0 <= i < r.len() implies r[i].peer_id != id by {
        s.lemma_filter_pred(pred, i);
    }
}

/// After a non-stopped announce no peer of its swarm is stale: every peer
/// last seen `EXPIRY_MS` or more before the announce is gone, whatever its id.
pub proof fn lemma_expiry(
    m: Map<Seq<char>, Seq<PeerView>>,
    h: Seq<char>,
    id: Seq<char>,
    port: u16,
    ip: IpAddress,
    event: Seq<char>,
    now: u64,
)
    requires
        !is_stop_event(event),
    ensures
        forall|i: int|
            0 <= i < swarm_of(registry_after(m, h, id, port, ip, event, now), h).len()
                ==> !is_stale(
                #[trigger] swarm_of(registry_after(m, h, id, port, ip, event, now), h)[i],
                now,
            ),
        forall|p: PeerView|
            swarm_of(m, h).contains(p) && is_stale(p, now) ==> !#[trigger] swarm_of(
                registry_after(m, h, id, port, ip, event, now),
                h,
            ).contains(p),
{
    let s = swarm_of(m, h);
    let pred = |p: PeerView| !is_stale(p, now);
    let live = live_peers(s, now);
    let r = swarm_of(registry_after(m, h, id, port, ip, event, now), h);
    assert forall|i: int| 0 <= i < live.len() implies !is_stale(live[i], now) by {
        s.lemma_filter_pred(pred, i);
    }
    assert forall|i: int| 0 <= i < r.len() implies !is_stale(r[i], now) by {
        if !has_peer(live, id) && i == live.len() {
        } else if has_peer(live, id) {
            assert(r[i] == (if live[i].peer_id == id {
                PeerView { last_seen: now, ..live[i] }
            } else {
                live[i]
            }));
        }
    }
}

/// Encoding depends on the peers' models alone: equal sequences give
/// byte-identical responses.
pub proof fn lemma_encoding_deterministic(a: Seq<PeerView>, b: Seq<PeerView>)
    requires
        a == b,
    ensures
        compact_response(a) == compact_response(b),
{
}

/// An announce changes no swarm but its own torrent's.
pub proof fn lemma_swarm_isolation(
    m: Map<Seq<char>, Seq<PeerView>>,
    h: Seq<char>,
    other: Seq<char>,
    id: Seq<char>,
    port: u16,
    ip: IpAddress,
    event: Seq<char>,
    now: u64,
)
    requires
        other != h,
    ensures
        registry_after(m, h, id, port, ip, event, now).contains_key(other) == m.contains_key(other),
        swarm_of(registry_after(m, h, id, port, ip, event, now), other) == swarm_of(m, other),
{
}

/// The arguments of one announce to a fixed torrent.
pub ghost struct AnnounceCall {
    pub peer_id: Seq<char>,
    pub port: u16,
    pub ip: IpAddress,
    pub event: Seq<char>,
    pub now: u64,
}

/// The registry after the announces to torrent `h`, applied in order.
pub open spec fn run_announces(
    m: Map<Seq<char>, Seq<PeerView>>,
    h: Seq<char>,
    calls: Seq<AnnounceCall>,
) -> Map<Seq<char>, Seq<PeerView>>
    decreases calls.len(),
{
    if calls.len() == 0 {
        m
    } else {
        let c = calls.last();
        registry_after(run_announces(m, h, calls.drop_last()), h, c.peer_id, c.port, c.ip, c.event, c.now)
    }
}

/// The peer records that a sequence of fresh announces creates.
pub open spec fn fresh_records(calls: Seq<AnnounceCall>) -> Seq<PeerView> {
    calls.map_values(
        |c: AnnounceCall| PeerView { ip: c.ip, port: c.port, peer_id: c.peer_id, last_seen: c.now },
    )
}

proof fn lemma_filter_keeps_all(s: Seq<PeerView>, pred: spec_fn(PeerView) -> bool)
    requires
        forall|i: int| 0 <= i < s.len() ==> pred(#[trigger] s[i]),
    ensures
        s.filter(pred) == s,
    decreases s.len(),
{
    reveal(Seq::filter);
    if s.len() > 0 {
        let rest = s.drop_last();
        assert forall|i: int| 0 <= i < rest.len() implies pred(#[trigger] rest[i]) by {
            assert(rest[i] == s[i]);
        }
        lemma_filter_keeps_all(rest, pred);
        assert(rest.push(s.last()) =~= s);
    }
}

/// Announces to one torrent with distinct peer ids, none of them stopped
/// and all made within `EXPIRY_MS` of each other, starting from an empty
/// swarm, leave one record per announce, in the order they were applied:
/// whichever order a lock serialises them in, no update is lost.
pub proof fn lemma_distinct_announces_all_kept(
    m: Map<Seq<char>, Seq<PeerView>>,
    h: Seq<char>,
    calls: Seq<AnnounceCall>,
)
    requires
        swarm_of(m, h).len() == 0,
        forall|i: int| 0 <= i < calls.len() ==> !is_stop_event(#[trigger] calls[i].event),
        forall|i: int, j: int|
            0 <= i < calls.len() && 0 <= j < calls.len() && i != j ==> calls[i].peer_id
                != calls[j].peer_id,
        forall|i: int, j: int|
            0 <= i < calls.len() && 0 <= j < calls.len() ==> (calls[j].now as int
                - calls[i].now as int) < EXPIRY_MS as int,
    ensures
        swarm_of(run_announces(m, h, calls), h) == fresh_records(calls),
        swarm_of(run_announces(m, h, calls), h).len() == calls.len(),
    decreases calls.len(),
{
    if calls.len() == 0 {
        assert(fresh_records(calls) =~= swarm_of(m, h));
    } else {
        let rest = calls.drop_last();
        let c = calls.last();
        let k = rest.len() as int;
        assert forall|i: int| 0 <= i < rest.len() implies !is_stop_event(#[trigger] rest[i].event) by {
            assert(rest[i] == calls[i]);
        }
        assert forall|i: int, j: int|
            0 <= i < rest.len() && 0 <= j < rest.len() && i != j implies rest[i].peer_id
                != rest[j].peer_id by {
            assert(rest[i] == calls[i] && rest[j] == calls[j]);
        }
        assert forall|i: int, j: int|
            0 <= i < rest.len() && 0 <= j < rest.len() implies (rest[j].now as int
                - rest[i].now as int) < EXPIRY_MS as int by {
            assert(rest[i] == calls[i] && rest[j] == calls[j]);
        }
        lemma_distinct_announces_all_kept(m, h, rest);
        let s = fresh_records(rest);
        assert(!is_stop_event(calls[k].event));
        assert forall|i: int| 0 <= i < s.len() implies !is_stale(#[trigger] s[i], c.now) by {
            assert(s[i].last_seen == calls[i].now);
            assert((calls[k].now as int - calls[i].now as int) < EXPIRY_MS as int);
        }
        lemma_filter_keeps_all(s, |p: PeerView| !is_stale(p, c.now));
        assert(live_peers(s, c.now) == s);
        assert forall|i: int| 0 <= i < s.len() implies s[i].peer_id != c.peer_id by {
            assert(s[i].peer_id == calls[i].peer_id);
        }
        assert(!has_peer(s, c.peer_id));
        assert(fresh_records(calls) =~= s.push(
            PeerView { ip: c.ip, port: c.port, peer_id: c.peer_id, last_seen: c.now },
        ));
    }
}

} // verus!
