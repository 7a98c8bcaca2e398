use bytes::BytesMut;
use vstd::prelude::*;

use crate::peer::{peers_view, IpAddress, Peer, PeerView};

verus! {

#[verifier::external_type_specification]
#[verifier::external_body]
pub struct ExBytesMut(BytesMut);

/// The bytes that a `BytesMut` holds, in order.
pub uninterp spec fn buf_bytes(b: BytesMut) -> Seq<u8>;

/// Relies on `bytes::BytesMut::new`: an empty buffer.
pub assume_specification[ BytesMut::new ]() -> (r: BytesMut)
    ensures
        buf_bytes(r) == Seq::<u8>::empty(),
;

/// Relies on `bytes::BytesMut::len`: the number of bytes held.
pub assume_specification[ BytesMut::len ](b: &BytesMut) -> (r: usize)
    ensures
        r == buf_bytes(*b).len(),
;

/// Relies on `bytes::BytesMut::extend_from_slice`: appends the slice. Growth
/// at most doubles the capacity, so below the bound no capacity overflow
/// (the one panic of `reserve`) can occur.
pub assume_specification[ BytesMut::extend_from_slice ](b: &mut BytesMut, extend: &[u8])
    requires
        buf_bytes(*old(b)).len() + extend@.len() <= isize::MAX / 4,
    ensures
        buf_bytes(*final(b)) == buf_bytes(*old(b)) + extend@,
;

/// Relies on `Deref for bytes::BytesMut`: a view of the bytes held.
pub assume_specification[ <BytesMut as core::ops::Deref>::deref ](b: &BytesMut) -> (r: &[u8])
    ensures
        r@ == buf_bytes(*b),
;

/// ASCII of the dictionary's opening, `d8:intervali120e5:peers`: a fixed
/// re-announce interval of 120 seconds, then the key of the peer blob.
pub open spec fn response_head() -> Seq<u8> {
    seq![
        100u8, 56u8, 58u8, 105u8, 110u8, 116u8, 101u8, 114u8, 118u8, 97u8, 108u8, 105u8, 49u8, 50u8, 48u8,
        101u8, 53u8, 58u8, 112u8, 101u8, 101u8, 114u8, 115u8,
    ]
}

/// The decimal ASCII digits of `n`, without leading zeros ("0" for zero).
pub open spec fn decimal(n: nat) -> Seq<u8>
    decreases n,
{
    if n < 10 {
        seq![(48 + n) as u8]
    } else {
        decimal(n / 10).push((48 + n % 10) as u8)
    }
}

/// The six compact bytes of an IPv4 peer (address, then big-endian port);
/// nothing for an IPv6 peer.
pub open spec fn compact_entry(p: PeerView) -> Seq<u8> {
    match p.ip {
        IpAddress::V4(o) => o@ + seq![(p.port / 256) as u8, (p.port % 256) as u8],
        IpAddress::V6(_) => Seq::empty(),
    }
}

/// The compact peer blob: the entries of the peers, in order.
pub open spec fn compact_blob(s: Seq<PeerView>) -> Seq<u8>
    decreases s.len(),
{
    if s.len() == 0 {
        Seq::empty()
    } else {
        compact_blob(s.drop_last()) + compact_entry(s.last())
    }
}

/// The whole response: `d8:intervali120e5:peers<N>:<blob>e`.
pub open spec fn compact_response(s: Seq<PeerView>) -> Seq<u8> {
    let blob = compact_blob(s);
    response_head() + decimal(blob.len()) + seq![58u8] + blob + seq![101u8]
}

proof fn lemma_decimal_len(n: nat)
    ensures
        decimal(n).len() <= n + 1,
    decreases n,
{
    if n >= 10 {
        lemma_decimal_len(n / 10);
    }
}

proof fn lemma_blob_len(s: Seq<PeerView>)
    ensures
        compact_blob(s).len() <= 6 * s.len(),
    decreases s.len(),
{
    if s.len() > 0 {
        lemma_blob_len(s.drop_last());
    }
}

/// The decimal digits of `n`.
pub fn decimal_digits(n: usize) -> (r: Vec<u8>)
    ensures
        r@ == decimal(n as nat),
{
    let mut digits: Vec<u8> = Vec::new();
    let mut m: usize = n;
    while m >= 10
        invariant
            decimal(n as nat) == decimal(m as nat) + digits@,
        decreases m,
    {
        let d = (m % 10) as u8;
        let ghost before = digits@;
        digits.insert(0, 48u8 + d);
        proof {
            assert(decimal(m as nat) == decimal((m / 10) as nat).push((48u8 + m % 10) as u8));
            assert(decimal(m as nat) + before =~= decimal((m / 10) as nat) + digits@);
        }
        m = m / 10;
    }
    let mut r: Vec<u8> = Vec::new();
    r.push(48u8 + m as u8);
    let mut i: usize = 0;
    while i < digits.len()
        invariant
            decimal(n as nat) == decimal(m as nat) + digits@,
            m < 10,
            r@ == decimal(m as nat) + digits@.take(i as int),
            i <= digits.len(),
        decreases digits.len() - i,
    {
        r.push(digits[i]);
        proof {
            assert(r@ =~= decimal(m as nat) + digits@.take(i + 1));
        }
        i += 1;
    }
    proof {
        assert(digits@.take(digits.len() as int) =~= digits@);
    }
    r
}

/// Encodes the peers as a compact bencoded tracker response: the fixed
/// interval, then the six-byte entries of the IPv4 peers, in order.
pub fn bencode_dict_compact(peers: &[Peer]) -> (r: BytesMut)
    requires
        peers@.len() < isize::MAX / 64,
    ensures
        buf_bytes(r) == compact_response(peers_view(peers@)),
{
    let ghost s = peers_view(peers@);
    let mut out = BytesMut::new();
    let head: Vec<u8> = vec![
        100u8, 56u8, 58u8, 105u8, 110u8, 116u8, 101u8, 114u8, 118u8, 97u8, 108u8, 105u8, 49u8, 50u8, 48u8,
        101u8, 53u8, 58u8, 112u8, 101u8, 101u8, 114u8, 115u8,
    ];
    assert(head@ =~= response_head());
    out.extend_from_slice(head.as_slice());

    let mut blob = BytesMut::new();
    let mut i: usize = 0;
    while i < peers.len()
        invariant
            i <= peers@.len(),
            peers@.len() < isize::MAX / 64,
            s == peers_view(peers@),
            buf_bytes(blob) == compact_blob(s.take(i as int)),
            buf_bytes(out) == response_head(),
        decreases peers.len() - i,
    {
        proof {
            lemma_blob_len(s.take(i as int));
            assert(s.take(i + 1).drop_last() =~= s.take(i as int));
            assert(s.take(i + 1).last() == peers@[i as int]@);
        }
        let p = &peers[i];
        match p.ip {
            IpAddress::V4(o) => {
                let entry: Vec<u8> = vec![o[0], o[1], o[2], o[3], (p.port / 256) as u8, (p.port % 256) as u8];
                proof {
                    assert(entry@ =~= compact_entry(p@));
                }
                blob.extend_from_slice(entry.as_slice());
            },
            IpAddress::V6(_) => {
                assert(compact_entry(p@) =~= Seq::<u8>::empty());
                assert(buf_bytes(blob) =~= buf_bytes(blob) + compact_entry(p@));
            },
        }
        i += 1;
    }
    proof {
        assert(s.take(peers@.len() as int) =~= s);
        lemma_blob_len(s);
        lemma_decimal_len(compact_blob(s).len());
    }
    let n = blob.len();
    let digits = decimal_digits(n);
    out.extend_from_slice(digits.as_slice());
    let colon: Vec<u8> = vec![58u8];
    out.extend_from_slice(colon.as_slice());
    out.extend_from_slice(&blob);
    let end: Vec<u8> = vec![101u8];
    out.extend_from_slice(end.as_slice());
    proof {
        assert(buf_bytes(out) =~= compact_response(s));
    }
    out
}

} // verus!
