//! The fixed 68-byte peer handshake: one length byte (19), the literal
//! protocol name "BitTorrent protocol", 8 reserved bytes, the 20-byte info
//! hash, and the 20-byte peer id.
use vstd::prelude::*;

use crate::bytes::sub_vec;
use crate::bytes::push_all;

verus! {

/// Why a handshake failed to decode.
#[derive(Debug, Clone, PartialEq, Eq)]
pub enum HandshakeError {
    /// The input was not exactly 68 bytes long.
    WrongLength,
}

/// The 19 bytes of the ASCII literal "BitTorrent protocol".
pub open spec fn protocol_name() -> Seq<u8> {
    seq![66u8, 105, 116, 84, 111, 114, 114, 101, 110, 116, 32, 112, 114, 111, 116, 111, 99, 111, 108]
}

/// Eight zero bytes, reserved for extension flags.
pub open spec fn reserved_zeros() -> Seq<u8> {
    seq![0u8, 0, 0, 0, 0, 0, 0, 0]
}

/// A peer handshake record. `wf` gives the field widths of the wire layout.
#[derive(Debug, Clone, PartialEq, Eq)]
pub struct Handshake {
    /// Length of the protocol name; 19 on every conforming handshake.
    pub length: u8,
    /// Protocol name bytes; "BitTorrent protocol" on every conforming handshake.
    pub protocol: Vec<u8>,
    /// Reserved extension-flag bytes.
    pub reserved: Vec<u8>,
    /// The 20-byte torrent info hash.
    pub info_hash: Vec<u8>,
    /// The 20-byte identifier the sending client chose.
    pub peer_id: Vec<u8>,
}

/// The protocol name literal as a vector, for building and for comparing.
pub fn protocol_name_vec() -> (r: Vec<u8>)
    ensures
        r@ == protocol_name(),
{
    let mut protocol: Vec<u8> = Vec::new();
    protocol.push(66);
    protocol.push(105);
    protocol.push(116);
    protocol.push(84);
    protocol.push(111);
    protocol.push(114);
    protocol.push(114);
    protocol.push(101);
    protocol.push(110);
    protocol.push(116);
    protocol.push(32);
    protocol.push(112);
    protocol.push(114);
    protocol.push(111);
    protocol.push(116);
    protocol.push(111);
    protocol.push(99);
    protocol.push(111);
    protocol.push(108);
    assert(protocol@ =~= protocol_name());
    protocol
}

impl Handshake {
    /// The field widths of the 68-byte wire layout.
    pub open spec fn wf(self) -> bool {
        &&& self.protocol@.len() == 19
        &&& self.reserved@.len() == 8
        &&& self.info_hash@.len() == 20
        &&& self.peer_id@.len() == 20
    }

    /// The 68-byte wire form: length byte, then the four fields in order.
    pub open spec fn encoding(self) -> Seq<u8> {
        seq![self.length] + self.protocol@ + self.reserved@ + self.info_hash@ + self.peer_id@
    }

    /// A conforming outgoing handshake for the given info hash and peer id.
    pub fn new(info_hash: Vec<u8>, peer_id: Vec<u8>) -> (r: Handshake)
        requires
            info_hash@.len() == 20,
            peer_id@.len() == 20,
        ensures
            r.wf(),
            r.length == 19,
            r.protocol@ == protocol_name(),
            r.reserved@ == reserved_zeros(),
            r.info_hash@ == info_hash@,
            r.peer_id@ == peer_id@,
    {
        let protocol = protocol_name_vec();
        let mut reserved: Vec<u8> = Vec::new();
        let mut i: usize = 0;
        while i < 8
            invariant
                i <= 8,
                reserved@ =~= reserved_zeros().take(i as int),
            decreases 8 - i,
        {
            reserved.push(0);
            i = i + 1;
            assert(reserved@ =~= reserved_zeros().take(i as int));
        }
        assert(reserved@ =~= reserved_zeros());
        Handshake { length: 19, protocol, reserved, info_hash, peer_id }
    }

    /// The 68 bytes this handshake puts on the wire.
    pub fn to_bytes(&self) -> (r: Vec<u8>)
        requires
            self.wf(),
        ensures
            r@ == self.encoding(),
            r@.len() == 68,
    {
        let mut out: Vec<u8> = Vec::new();
        out.push(self.length);
        push_all(&mut out, &self.protocol);
        push_all(&mut out, &self.reserved);
        push_all(&mut out, &self.info_hash);
        push_all(&mut out, &self.peer_id);
        assert(out@ =~= self.encoding());
        out
    }

    /// Splits 68 bytes into a handshake record. Anything shorter or longer is
    /// refused with `WrongLength`; the protocol name and info hash are not
    /// judged here — that is the session's job.
    pub fn from_bytes(bytes: &Vec<u8>) -> (r: Result<Handshake, HandshakeError>)
        ensures
            r is Ok <==> bytes@.len() == 68,
            bytes@.len() != 68 ==> r == Err::<Handshake, HandshakeError>(
                HandshakeError::WrongLength,
            ),
            r matches Ok(h) ==> {
                &&& h.wf()
                &&& h.length == bytes@[0]
                &&& h.protocol@ == bytes@.subrange(1, 20)
                &&& h.reserved@ == bytes@.subrange(20, 28)
                &&& h.info_hash@ == bytes@.subrange(28, 48)
                &&& h.peer_id@ == bytes@.subrange(48, 68)
                &&& h.encoding() == bytes@
            },
    {
        if bytes.len() != 68 {
            return Err(HandshakeError::WrongLength);
        }
        let h = Handshake {
            length: bytes[0],
            protocol: sub_vec(bytes, 1, 20),
            reserved: sub_vec(bytes, 20, 28),
            info_hash: sub_vec(bytes, 28, 48),
            peer_id: sub_vec(bytes, 48, 68),
        };
        assert(h.encoding() =~= bytes@);
        Ok(h)
    }
}

/// Round trip: a well-formed handshake decoded from its own 68-byte encoding
/// is that handshake again. `from_bytes` pins its result's encoding to the
/// input bytes, so two well-formed handshakes with one encoding are equal,
/// field by field.
pub proof fn lemma_handshake_round_trip(h: Handshake, d: Handshake)
    requires
        h.wf(),
        d.wf(),
        d.encoding() == h.encoding(),
    ensures
        d.length == h.length,
        d.protocol@ == h.protocol@,
        d.reserved@ == h.reserved@,
        d.info_hash@ == h.info_hash@,
        d.peer_id@ == h.peer_id@,
{
    assert(d.length == d.encoding()[0] && h.length == h.encoding()[0]);
    assert(d.protocol@ =~= d.encoding().subrange(1, 20));
    assert(h.protocol@ =~= h.encoding().subrange(1, 20));
    assert(d.reserved@ =~= d.encoding().subrange(20, 28));
    assert(h.reserved@ =~= h.encoding().subrange(20, 28));
    assert(d.info_hash@ =~= d.encoding().subrange(28, 48));
    assert(h.info_hash@ =~= h.encoding().subrange(28, 48));
    assert(d.peer_id@ =~= d.encoding().subrange(48, 68));
    assert(h.peer_id@ =~= h.encoding().subrange(48, 68));
}

} // verus!
