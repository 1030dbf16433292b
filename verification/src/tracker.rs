//! The tracker exchange: the announce request with its form-encoded query
//! string, the percent-encoded info hash, and the compact peer list that the
//! tracker's bencoded reply carries.
use vstd::prelude::*;

use crate::bencode::str_content;
use crate::bencode::str_end;
use crate::bencode::str_valid;
use crate::bencode::value_end;
use crate::bencode::parse_str_token;
use crate::bencode::skip_value;
use crate::bytes::bytes_eq;
use crate::bytes::dec_rep;
use crate::bytes::percent_byte;
use crate::bytes::push_percent_byte;
use crate::bytes::push_u64_dec;
use crate::bytes::sub_vec;
use crate::torrent::Torrent;

verus! {

/// Every byte percent-encoded as `%XX` with uppercase hex digits, in order.
pub open spec fn percent_encoding(s: Seq<u8>) -> Seq<u8>
    decreases s.len(),
{
    if s.len() == 0 {
        Seq::empty()
    } else {
        percent_encoding(s.drop_last()) + percent_byte(s.last())
    }
}

/// Percent-encodes raw bytes for a URL query, `%XX` with uppercase hex for
/// every byte. The info hash travels this way: raw bytes, not hex text.
pub fn url_encode(data: &Vec<u8>) -> (r: Vec<u8>)
    ensures
        r@ == percent_encoding(data@),
{
    let mut out: Vec<u8> = Vec::new();
    let mut i: usize = 0;
    while i < data.len()
        invariant
            i <= data@.len(),
            out@ == percent_encoding(data@.take(i as int)),
        decreases data@.len() - i,
    {
        push_percent_byte(&mut out, data[i]);
        i = i + 1;
        assert(data@.take(i as int).drop_last() =~= data@.take(i as int - 1));
        assert(data@.take(i as int).last() == data@[i as int - 1]);
    }
    assert(data@.take(data@.len() as int) =~= data@);
    out
}

/// A byte the form encoding passes through unchanged: ASCII alphanumerics
/// and `*`, `-`, `.`, `_`.
pub open spec fn form_plain(b: u8) -> bool {
    (48 <= b <= 57) || (65 <= b <= 90) || (97 <= b <= 122) || b == 42 || b == 45 || b == 46 || b
        == 95
}

/// One byte under application/x-www-form-urlencoded: plain bytes unchanged,
/// space as `+`, the rest as `%XX` with uppercase hex.
pub open spec fn form_byte(b: u8) -> Seq<u8> {
    if form_plain(b) {
        seq![b]
    } else if b == 32 {
        seq![43u8]
    } else {
        percent_byte(b)
    }
}

/// A byte sequence under the form encoding, in order.
pub open spec fn form_encoding(s: Seq<u8>) -> Seq<u8>
    decreases s.len(),
{
    if s.len() == 0 {
        Seq::empty()
    } else {
        form_encoding(s.drop_last()) + form_byte(s.last())
    }
}

/// Appends the form encoding of `s`.
fn push_form_encoded(out: &mut Vec<u8>, s: &Vec<u8>)
    ensures
        final(out)@ == old(out)@ + form_encoding(s@),
{
    let mut i: usize = 0;
    while i < s.len()
        invariant
            i <= s@.len(),
            out@ == old(out)@ + form_encoding(s@.take(i as int)),
        decreases s@.len() - i,
    {
        let b = s[i];
        if (48 <= b && b <= 57) || (65 <= b && b <= 90) || (97 <= b && b <= 122) || b == 42 || b
            == 45 || b == 46 || b == 95 {
            out.push(b);
        } else if b == 32 {
            out.push(43);
        } else {
            push_percent_byte(out, b);
        }
        i = i + 1;
        assert(s@.take(i as int).drop_last() =~= s@.take(i as int - 1));
        assert(out@ =~= old(out)@ + form_encoding(s@.take(i as int)));
    }
    assert(s@.take(s@.len() as int) =~= s@);
}

/// The session parameters of one announce to the tracker.
#[derive(Debug, Clone, PartialEq, Eq)]
pub struct TrackerRequest {
    /// The 20 bytes this client announces itself under.
    pub peer_id: Vec<u8>,
    pub port: u16,
    pub uploaded: u64,
    pub downloaded: u64,
    /// Bytes still missing; total length less what was downloaded, floored at zero.
    pub left: u64,
    /// Always 1: the compact peer-list encoding is requested.
    pub compact: u8,
}

/// What remains to download: the total length less the downloaded count,
/// never negative.
pub open spec fn left_of(length: int, downloaded: int) -> int {
    if length <= downloaded {
        0
    } else {
        length - downloaded
    }
}

/// Builds the announce request for a torrent: `left` comes from the info
/// block's total length and the bytes already downloaded; compact mode is
/// always asked for.
pub fn build_request(t: &Torrent, peer_id: Vec<u8>, port: u16, uploaded: u64, downloaded: u64) -> (r:
    TrackerRequest)
    requires
        peer_id@.len() == 20,
    ensures
        r.peer_id@ == peer_id@,
        r.port == port,
        r.uploaded == uploaded,
        r.downloaded == downloaded,
        r.left == left_of(t.info.length as int, downloaded as int),
        r.compact == 1,
{
    let left: u64 = if t.info.length <= 0 {
        0
    } else {
        let total = t.info.length as u64;
        if downloaded >= total {
            0
        } else {
            total - downloaded
        }
    };
    TrackerRequest { peer_id, port, uploaded, downloaded, left, compact: 1 }
}

/// The ASCII bytes of "peer_id=".
pub open spec fn lit_peer_id() -> Seq<u8> {
    seq![112u8, 101, 101, 114, 95, 105, 100, 61]
}

/// The ASCII bytes of "&port=".
pub open spec fn lit_port() -> Seq<u8> {
    seq![38u8, 112, 111, 114, 116, 61]
}

/// The ASCII bytes of "&uploaded=".
pub open spec fn lit_uploaded() -> Seq<u8> {
    seq![38u8, 117, 112, 108, 111, 97, 100, 101, 100, 61]
}

/// The ASCII bytes of "&downloaded=".
pub open spec fn lit_downloaded() -> Seq<u8> {
    seq![38u8, 100, 111, 119, 110, 108, 111, 97, 100, 101, 100, 61]
}

/// The ASCII bytes of "&left=".
pub open spec fn lit_left() -> Seq<u8> {
    seq![38u8, 108, 101, 102, 116, 61]
}

/// The ASCII bytes of "&compact=".
pub open spec fn lit_compact() -> Seq<u8> {
    seq![38u8, 99, 111, 109, 112, 97, 99, 116, 61]
}

/// The form-encoded query string of a request: the six parameters in their
/// declared order, the peer id form-encoded, the counters in decimal.
pub open spec fn query_encoding(r: TrackerRequest) -> Seq<u8> {
    lit_peer_id() + form_encoding(r.peer_id@) + lit_port() + dec_rep(r.port as int)
        + lit_uploaded() + dec_rep(r.uploaded as int) + lit_downloaded() + dec_rep(
        r.downloaded as int,
    ) + lit_left() + dec_rep(r.left as int) + lit_compact() + dec_rep(r.compact as int)
}

/// The application/x-www-form-urlencoded parameter string of an announce,
/// without the separately percent-encoded info hash.
#[verifier::rlimit(60)]
pub fn to_query_string(r: &TrackerRequest) -> (q: Vec<u8>)
    ensures
        q@ == query_encoding(*r),
{
    let mut out: Vec<u8> = Vec::new();
    // "peer_id="
    out.push(112);
    out.push(101);
    out.push(101);
    out.push(114);
    out.push(95);
    out.push(105);
    out.push(100);
    out.push(61);
    assert(out@ =~= lit_peer_id());
    push_form_encoded(&mut out, &r.peer_id);
    // "&port="
    out.push(38);
    out.push(112);
    out.push(111);
    out.push(114);
    out.push(116);
    out.push(61);
    assert(out@ =~= lit_peer_id() + form_encoding(r.peer_id@) + lit_port());
    push_u64_dec(&mut out, r.port as u64);
    // "&uploaded="
    out.push(38);
    out.push(117);
    out.push(112);
    out.push(108);
    out.push(111);
    out.push(97);
    out.push(100);
    out.push(101);
    out.push(100);
    out.push(61);
    assert(out@ =~= lit_peer_id() + form_encoding(r.peer_id@) + lit_port() + dec_rep(
        r.port as int,
    ) + lit_uploaded());
    push_u64_dec(&mut out, r.uploaded);
    // "&downloaded="
    out.push(38);
    out.push(100);
    out.push(111);
    out.push(119);
    out.push(110);
    out.push(108);
    out.push(111);
    out.push(97);
    out.push(100);
    out.push(101);
    out.push(100);
    out.push(61);
    assert(out@ =~= lit_peer_id() + form_encoding(r.peer_id@) + lit_port() + dec_rep(
        r.port as int,
    ) + lit_uploaded() + dec_rep(r.uploaded as int) + lit_downloaded());
    push_u64_dec(&mut out, r.downloaded);
    // "&left="
    out.push(38);
    out.push(108);
    out.push(101);
    out.push(102);
    out.push(116);
    out.push(61);
    assert(out@ =~= lit_peer_id() + form_encoding(r.peer_id@) + lit_port() + dec_rep(
        r.port as int,
    ) + lit_uploaded() + dec_rep(r.uploaded as int) + lit_downloaded() + dec_rep(
        r.downloaded as int,
    ) + lit_left());
    push_u64_dec(&mut out, r.left);
    // "&compact="
    out.push(38);
    out.push(99);
    out.push(111);
    out.push(109);
    out.push(112);
    out.push(97);
    out.push(99);
    out.push(116);
    out.push(61);
    assert(out@ =~= lit_peer_id() + form_encoding(r.peer_id@) + lit_port() + dec_rep(
        r.port as int,
    ) + lit_uploaded() + dec_rep(r.uploaded as int) + lit_downloaded() + dec_rep(
        r.downloaded as int,
    ) + lit_left() + dec_rep(r.left as int) + lit_compact());
    push_u64_dec(&mut out, r.compact as u64);
    assert(out@ =~= query_encoding(*r));
    out
}

/// One peer from the tracker's compact list: an IPv4 address and a port.
#[derive(Debug, Clone, Copy, PartialEq, Eq, Structural)]
pub struct Peer {
    pub ip0: u8,
    pub ip1: u8,
    pub ip2: u8,
    pub ip3: u8,
    pub port: u16,
}

/// The 16-bit value two bytes hold in big-endian order.
pub open spec fn u16_of_be(hi: u8, lo: u8) -> u16 {
    ((hi as u16) << 8) | (lo as u16)
}

/// The peer that the `k`-th 6-byte group of a compact list holds: four
/// address bytes, then the port in big-endian order.
pub open spec fn peer_at(s: Seq<u8>, k: int) -> Peer
    recommends
        0 <= k,
        6 * k + 6 <= s.len(),
{
    Peer {
        ip0: s[6 * k],
        ip1: s[6 * k + 1],
        ip2: s[6 * k + 2],
        ip3: s[6 * k + 3],
        port: u16_of_be(s[6 * k + 4], s[6 * k + 5]),
    }
}

/// Why a tracker reply was rejected.
#[derive(Debug, Clone, PartialEq, Eq)]
pub enum TrackerError {
    /// The reply does not carry a well-formed compact peer list.
    Malformed,
    /// The tracker answered with a failure reason instead of peers.
    Failure(Vec<u8>),
}

/// The decoded tracker reply: the peers it offered.
#[derive(Debug, Clone, PartialEq, Eq)]
pub struct TrackerResponse {
    pub peers: Vec<Peer>,
}

/// The ASCII bytes of "failure reason".
pub open spec fn key_failure_reason() -> Seq<u8> {
    seq![102u8, 97, 105, 108, 117, 114, 101, 32, 114, 101, 97, 115, 111, 110]
}

/// The ASCII bytes of "peers".
pub open spec fn key_peers() -> Seq<u8> {
    seq![112u8, 101, 101, 114, 115]
}

/// What a tracker's bencoded reply amounts to: a compact peer blob, or the
/// failure reason it reported instead.
pub enum TrackerReply {
    Peers(Seq<u8>),
    Failure(Seq<u8>),
}

/// Walks the entries of the reply dictionary from `i`. A "failure reason"
/// string ends the walk at once; the last "peers" string is kept; entries
/// under other keys are skipped; the closing `e` yields the kept peers. A
/// reply whose "peers" value is not a byte string (the non-compact list of
/// dictionaries among them) is not accepted. The fuel only bounds the
/// recursion and never runs out first: every entry takes at least one byte.
pub open spec fn tracker_walk(s: Seq<u8>, i: int, found: Option<Seq<u8>>, fuel: nat) -> Option<
    TrackerReply,
>
    decreases fuel,
{
    if fuel == 0 {
        None
    } else if i < 0 || i >= s.len() {
        None
    } else if s[i] == 101 {
        match found {
            Some(p) => Some(TrackerReply::Peers(p)),
            None => None,
        }
    } else if str_valid(s, i) {
        let key = str_content(s, i);
        let ke = str_end(s, i);
        if key == key_failure_reason() {
            if str_valid(s, ke) {
                Some(TrackerReply::Failure(str_content(s, ke)))
            } else {
                None
            }
        } else if key == key_peers() {
            if str_valid(s, ke) {
                tracker_walk(s, str_end(s, ke), Some(str_content(s, ke)), (fuel - 1) as nat)
            } else {
                None
            }
        } else {
            match value_end(s, ke) {
                Some(j) => tracker_walk(s, j, found, (fuel - 1) as nat),
                None => None,
            }
        }
    } else {
        None
    }
}

/// The reply a tracker response denotes: a dictionary holding a compact
/// "peers" string, or a "failure reason"; anything else is malformed.
pub open spec fn tracker_reply_of(s: Seq<u8>) -> Option<TrackerReply> {
    if s.len() > 0 && s[0] == 100 {
        tracker_walk(s, 1, None, s.len() as nat)
    } else {
        None
    }
}

/// Decodes a tracker reply: the peers of its compact "peers" string, or the
/// reported failure; `Malformed` when the reply is not such a dictionary or
/// the blob's length is not a multiple of 6.
pub fn parse_response(bytes: &Vec<u8>) -> (r: Result<TrackerResponse, TrackerError>)
    ensures
        tracker_reply_of(bytes@) is None ==> r == Err::<TrackerResponse, TrackerError>(
            TrackerError::Malformed,
        ),
        tracker_reply_of(bytes@) matches Some(TrackerReply::Failure(reason)) ==> (r matches Err(e)
            && e matches TrackerError::Failure(m) && m@ == reason),
        tracker_reply_of(bytes@) matches Some(TrackerReply::Peers(blob)) ==> {
            &&& blob.len() % 6 != 0 ==> r == Err::<TrackerResponse, TrackerError>(
                TrackerError::Malformed,
            )
            &&& blob.len() % 6 == 0 ==> (r matches Ok(resp) && resp.peers@.len() == blob.len() / 6
                && (forall|k: int|
                0 <= k < resp.peers@.len() ==> resp.peers@[k] == peer_at(blob, k)))
        },
{
    let len = bytes.len();
    if len == 0 {
        return Err(TrackerError::Malformed);
    }
    if bytes[0] != 100 {
        return Err(TrackerError::Malformed);
    }
    // "failure reason"
    let mut k_fail: Vec<u8> = Vec::new();
    k_fail.push(102);
    k_fail.push(97);
    k_fail.push(105);
    k_fail.push(108);
    k_fail.push(117);
    k_fail.push(114);
    k_fail.push(101);
    k_fail.push(32);
    k_fail.push(114);
    k_fail.push(101);
    k_fail.push(97);
    k_fail.push(115);
    k_fail.push(111);
    k_fail.push(110);
    assert(k_fail@ =~= key_failure_reason());
    // "peers"
    let mut k_peers: Vec<u8> = Vec::new();
    k_peers.push(112);
    k_peers.push(101);
    k_peers.push(101);
    k_peers.push(114);
    k_peers.push(115);
    assert(k_peers@ =~= key_peers());
    let mut cur: usize = 1;
    let mut found: Option<Vec<u8>> = None;
    let ghost fuel0: nat = bytes@.len() as nat;
    let ghost mut fuel: nat = fuel0;
    let ghost mut gfound: Option<Seq<u8>> = None;
    loop
        invariant
            1 <= cur <= bytes@.len(),
            bytes@.len() <= usize::MAX,
            k_fail@ == key_failure_reason(),
            k_peers@ == key_peers(),
            fuel + cur >= fuel0 + 1,
            fuel0 == bytes@.len(),
            found is None <==> gfound is None,
            found matches Some(v) ==> gfound == Some(v@),
            tracker_reply_of(bytes@) == tracker_walk(bytes@, cur as int, gfound, fuel),
        decreases bytes@.len() - cur,
    {
        if cur >= bytes.len() {
            return Err(TrackerError::Malformed);
        }
        if bytes[cur] == 101 {
            match found {
                Some(blob) => {
                    match decode_compact_peers(&blob) {
                        Ok(peers) => {
                            return Ok(TrackerResponse { peers });
                        },
                        Err(e) => {
                            return Err(e);
                        },
                    }
                },
                None => {
                    return Err(TrackerError::Malformed);
                },
            }
        }
        match parse_str_token(bytes, cur) {
            None => {
                return Err(TrackerError::Malformed);
            },
            Some((ks, ke)) => {
                let key = sub_vec(bytes, ks, ke);
                assert(key@ == str_content(bytes@, cur as int));
                if bytes_eq(&key, &k_fail) {
                    match parse_str_token(bytes, ke) {
                        None => {
                            return Err(TrackerError::Malformed);
                        },
                        Some((vs, ve)) => {
                            let reason = sub_vec(bytes, vs, ve);
                            assert(reason@ == str_content(bytes@, ke as int));
                            return Err(TrackerError::Failure(reason));
                        },
                    }
                } else if bytes_eq(&key, &k_peers) {
                    match parse_str_token(bytes, ke) {
                        None => {
                            return Err(TrackerError::Malformed);
                        },
                        Some((vs, ve)) => {
                            let blob = sub_vec(bytes, vs, ve);
                            assert(blob@ == str_content(bytes@, ke as int));
                            proof {
                                gfound = Some(blob@);
                                fuel = (fuel - 1) as nat;
                            }
                            found = Some(blob);
                            cur = ve;
                        },
                    }
                } else {
                    match skip_value(bytes, ke) {
                        None => {
                            return Err(TrackerError::Malformed);
                        },
                        Some(j) => {
                            proof {
                                fuel = (fuel - 1) as nat;
                            }
                            cur = j;
                        },
                    }
                }
            },
        }
    }
}

/// Splits a compact peer blob into peers: one per 6-byte group. A length
/// that is not a multiple of 6 is malformed.
pub fn decode_compact_peers(s: &Vec<u8>) -> (r: Result<Vec<Peer>, TrackerError>)
    ensures
        r is Ok <==> s@.len() % 6 == 0,
        s@.len() % 6 != 0 ==> r == Err::<Vec<Peer>, TrackerError>(TrackerError::Malformed),
        r matches Ok(ps) ==> {
            &&& ps@.len() == s@.len() / 6
            &&& forall|k: int| 0 <= k < ps@.len() ==> ps@[k] == peer_at(s@, k)
        },
{
    if s.len() % 6 != 0 {
        return Err(TrackerError::Malformed);
    }
    let n = s.len() / 6;
    assert(6 * n == s@.len());
    let mut peers: Vec<Peer> = Vec::new();
    let mut k: usize = 0;
    while k < n
        invariant
            n == s@.len() / 6,
            6 * n == s@.len(),
            s@.len() <= usize::MAX,
            k <= n,
            peers@.len() == k,
            forall|j: int| 0 <= j < k ==> peers@[j] == peer_at(s@, j),
        decreases n - k,
    {
        let base = 6 * k;
        let hi = s[base + 4];
        let lo = s[base + 5];
        peers.push(
            Peer {
                ip0: s[base],
                ip1: s[base + 1],
                ip2: s[base + 2],
                ip3: s[base + 3],
                port: ((hi as u16) << 8) | (lo as u16),
            },
        );
        k = k + 1;
    }
    Ok(peers)
}

} // verus!
