use tracker::encode::{bencode_dict_compact, decimal_digits};
use tracker::peer::{IpAddress, Peer};
use tracker::registry::Registry;
use tracker::swarm::EXPIRY_MS;

const T0: u64 = 1_700_000_000_000;

fn v4(a: u8, b: u8, c: u8, d: u8) -> IpAddress {
    IpAddress::V4([a, b, c, d])
}

fn ids(peers: &[Peer]) -> Vec<String> {
    peers.iter().map(|p| p.peer_id.clone()).collect()
}

fn response(blob: &[u8]) -> Vec<u8> {
    let mut v = b"d8:intervali120e5:peers".to_vec();
    v.extend_from_slice(blob.len().to_string().as_bytes());
    v.push(b':');
    v.extend_from_slice(blob);
    v.push(b'e');
    v
}

#[test]
fn known_vector_single_peer() {
    let peers = vec![Peer::new(v4(192, 168, 1, 1), 6881, "peer1", T0)];
    let out = bencode_dict_compact(&peers);
    let mut expected = b"d8:intervali120e5:peers6:".to_vec();
    expected.extend_from_slice(&[0xC0, 0xA8, 0x01, 0x01, 0x1A, 0xE1]);
    expected.push(b'e');
    assert_eq!(&out[..], &expected[..]);
}

#[test]
fn ipv6_peers_are_skipped() {
    let peers = vec![
        Peer::new(v4(10, 0, 0, 1), 6881, "a", T0),
        Peer::new(IpAddress::V6(1), 6882, "b", T0),
    ];
    let out = bencode_dict_compact(&peers);
    assert_eq!(&out[..], &response(&[10, 0, 0, 1, 0x1A, 0xE1])[..]);
}

#[test]
fn empty_peer_list_gives_empty_blob() {
    let out = bencode_dict_compact(&[]);
    assert_eq!(&out[..], &b"d8:intervali120e5:peers0:e"[..]);
}

#[test]
fn two_digit_blob_length_and_order() {
    let peers = vec![
        Peer::new(v4(1, 2, 3, 4), 1, "a", T0),
        Peer::new(v4(5, 6, 7, 8), 65535, "b", T0),
    ];
    let out = bencode_dict_compact(&peers);
    let blob = [1, 2, 3, 4, 0, 1, 5, 6, 7, 8, 0xFF, 0xFF];
    assert_eq!(&out[..], &response(&blob)[..]);
    assert!(out[..].starts_with(b"d8:intervali120e5:peers12:"));
}

#[test]
fn encoding_is_deterministic() {
    let peers = vec![
        Peer::new(v4(127, 0, 0, 1), 80, "x", T0),
        Peer::new(v4(8, 8, 8, 8), 443, "y", T0 + 5),
    ];
    let a = bencode_dict_compact(&peers);
    let b = bencode_dict_compact(&peers.clone());
    assert_eq!(&a[..], &b[..]);
}

#[test]
fn decimal_digits_values() {
    assert_eq!(decimal_digits(0), b"0".to_vec());
    assert_eq!(decimal_digits(6), b"6".to_vec());
    assert_eq!(decimal_digits(120), b"120".to_vec());
    assert_eq!(decimal_digits(1_000_006), b"1000006".to_vec());
}

#[test]
fn repeated_announces_keep_one_record() {
    let mut r = Registry::new();
    for k in 0..5u64 {
        r.announce_at("hash", "peer1", 6881, v4(10, 0, 0, 1), "", T0 + k * 1000);
    }
    let peers = r.peers("hash");
    assert_eq!(peers.len(), 1);
    assert_eq!(peers[0].last_seen, T0 + 4000);
}

#[test]
fn reannounce_keeps_address_and_port() {
    let mut r = Registry::new();
    r.announce_at("hash", "peer1", 6881, v4(10, 0, 0, 1), "started", T0);
    let peers = r.announce_at("hash", "peer1", 7000, v4(10, 0, 0, 2), "", T0 + 10);
    assert_eq!(peers.len(), 1);
    assert_eq!(peers[0].ip, v4(10, 0, 0, 1));
    assert_eq!(peers[0].port, 6881);
    assert_eq!(peers[0].last_seen, T0 + 10);
}

#[test]
fn stopped_removes_peer() {
    let mut r = Registry::new();
    r.announce_at("hash", "peer1", 6881, v4(10, 0, 0, 1), "", T0);
    r.announce_at("hash", "peer2", 6882, v4(10, 0, 0, 2), "", T0);
    let peers = r.announce_at("hash", "peer1", 6881, v4(10, 0, 0, 1), "stopped", T0 + 1);
    assert_eq!(ids(&peers), vec!["peer2".to_string()]);
}

#[test]
fn stopped_for_absent_peer_is_noop_and_skips_expiry() {
    let mut r = Registry::new();
    r.announce_at("hash", "old", 1, v4(1, 1, 1, 1), "", T0);
    let peers = r.announce_at("hash", "nobody", 2, v4(2, 2, 2, 2), "stopped", T0 + 10 * EXPIRY_MS);
    assert_eq!(ids(&peers), vec!["old".to_string()]);
}

#[test]
fn stale_peers_expire_on_next_announce() {
    let mut r = Registry::new();
    r.announce_at("hash", "old", 1, v4(1, 1, 1, 1), "", T0);
    r.announce_at("hash", "recent", 2, v4(2, 2, 2, 2), "", T0 + 100_000);
    let peers = r.announce_at("hash", "new", 3, v4(3, 3, 3, 3), "", T0 + 181_000);
    assert_eq!(ids(&peers), vec!["recent".to_string(), "new".to_string()]);
}

#[test]
fn expiry_boundary() {
    let mut r = Registry::new();
    r.announce_at("hash", "a", 1, v4(1, 1, 1, 1), "", T0);
    let peers = r.announce_at("hash", "b", 2, v4(2, 2, 2, 2), "", T0 + EXPIRY_MS - 1);
    assert_eq!(peers.len(), 2);
    let mut r = Registry::new();
    r.announce_at("hash", "a", 1, v4(1, 1, 1, 1), "", T0);
    let peers = r.announce_at("hash", "b", 2, v4(2, 2, 2, 2), "", T0 + EXPIRY_MS);
    assert_eq!(ids(&peers), vec!["b".to_string()]);
}

#[test]
fn stale_announcer_is_readded_fresh() {
    let mut r = Registry::new();
    r.announce_at("hash", "a", 1, v4(1, 1, 1, 1), "", T0);
    r.announce_at("hash", "b", 2, v4(2, 2, 2, 2), "", T0 + 200_000);
    let peers = r.announce_at("hash", "a", 9, v4(9, 9, 9, 9), "", T0 + 200_000);
    assert_eq!(ids(&peers), vec!["b".to_string(), "a".to_string()]);
    assert_eq!(peers[1].port, 9);
}

#[test]
fn swarms_are_isolated() {
    let mut r = Registry::new();
    r.announce_at("h1", "p", 1, v4(1, 1, 1, 1), "", T0);
    r.announce_at("h2", "q", 2, v4(2, 2, 2, 2), "", T0 + 10 * EXPIRY_MS);
    r.announce_at("h2", "p", 2, v4(2, 2, 2, 2), "stopped", T0 + 10 * EXPIRY_MS);
    assert_eq!(ids(&r.peers("h1")), vec!["p".to_string()]);
    assert_eq!(ids(&r.peers("h2")), vec!["q".to_string()]);
}

#[test]
fn distinct_announces_are_all_kept() {
    let mut r = Registry::new();
    let n = 50u64;
    for k in 0..n {
        let id = format!("peer{}", k);
        r.announce_at("hash", &id, 6881, v4(10, 0, 0, k as u8), "started", T0 + k);
    }
    let peers = r.peers("hash");
    assert_eq!(peers.len(), n as usize);
    let out = bencode_dict_compact(&peers);
    assert!(out[..].starts_with(b"d8:intervali120e5:peers300:"));
}

#[test]
fn unknown_torrent_has_no_peers() {
    let r = Registry::new();
    assert!(r.peers("missing").is_empty());
}

#[test]
fn empty_swarm_persists_after_stop() {
    let mut r = Registry::new();
    r.announce_at("hash", "p", 1, v4(1, 1, 1, 1), "", T0);
    let peers = r.announce_at("hash", "p", 1, v4(1, 1, 1, 1), "stopped", T0);
    assert!(peers.is_empty());
    let out = bencode_dict_compact(&peers);
    assert_eq!(&out[..], &b"d8:intervali120e5:peers0:e"[..]);
}

#[test]
fn announce_uses_the_clock() {
    let mut r = Registry::new();
    let peers = r.announce("hash", "", 6881, v4(127, 0, 0, 1), "");
    assert_eq!(peers.len(), 1);
    assert_eq!(peers[0].peer_id, "");
    assert!(peers[0].last_seen > T0);
    let peers = r.announce("hash", "", 6881, v4(127, 0, 0, 1), "");
    assert_eq!(peers.len(), 1);
}
