//! The length-prefixed peer wire messages: a 4-byte big-endian length prefix,
//! then one type byte and its payload; keep-alive is a bare zero prefix.
use vstd::prelude::*;

use crate::bytes::be_bytes_of_u32;
use crate::bytes::lemma_u32_be_round_trip;
use crate::bytes::push_all;
use crate::bytes::push_u32_be;
use crate::bytes::read_u32_be;
use crate::bytes::sub_vec;
use crate::bytes::u32_of_be;

verus! {

/// Why a message body failed to decode.
#[derive(Debug, Clone, PartialEq, Eq)]
pub enum DecodeError {
    /// The payload is shorter (or, for fixed sizes, longer) than its type asks.
    Truncated,
    /// A payload came with a type that takes none.
    UnexpectedPayload,
    /// A type byte outside the closed set 0 through 8; fatal for the connection.
    UnknownType(u8),
}

/// One peer wire message.
#[derive(Debug, Clone, PartialEq, Eq)]
pub enum PeerMessage {
    KeepAlive,
    Choke,
    Unchoke,
    Interested,
    NotInterested,
    Have { piece_index: u32 },
    Bitfield { bitfield: Vec<u8> },
    Request { index: u32, begin: u32, length: u32 },
    Piece { index: u32, begin: u32, block: Vec<u8> },
    Cancel { index: u32, begin: u32, length: u32 },
}

impl PeerMessage {
    /// The variable payloads leave room for their frame's 32-bit length prefix.
    pub open spec fn wf(self) -> bool {
        match self {
            PeerMessage::Bitfield { bitfield } => bitfield@.len() + 1 <= u32::MAX,
            PeerMessage::Piece { index, begin, block } => block@.len() + 9 <= u32::MAX,
            _ => true,
        }
    }

    /// The full frame this message puts on the wire: length prefix, type
    /// byte, payload. Keep-alive is the bare zero prefix.
    pub open spec fn encoding(self) -> Seq<u8> {
        match self {
            PeerMessage::KeepAlive => seq![0u8, 0, 0, 0],
            PeerMessage::Choke => seq![0u8, 0, 0, 1, 0],
            PeerMessage::Unchoke => seq![0u8, 0, 0, 1, 1],
            PeerMessage::Interested => seq![0u8, 0, 0, 1, 2],
            PeerMessage::NotInterested => seq![0u8, 0, 0, 1, 3],
            PeerMessage::Have { piece_index } => seq![0u8, 0, 0, 5, 4] + be_bytes_of_u32(
                piece_index,
            ),
            PeerMessage::Bitfield { bitfield } => be_bytes_of_u32((bitfield@.len() + 1) as u32)
                + seq![5u8] + bitfield@,
            PeerMessage::Request { index, begin, length } => seq![0u8, 0, 0, 13, 6]
                + be_bytes_of_u32(index) + be_bytes_of_u32(begin) + be_bytes_of_u32(length),
            PeerMessage::Piece { index, begin, block } => be_bytes_of_u32(
                (block@.len() + 9) as u32,
            ) + seq![7u8] + be_bytes_of_u32(index) + be_bytes_of_u32(begin) + block@,
            PeerMessage::Cancel { index, begin, length } => seq![0u8, 0, 0, 13, 8]
                + be_bytes_of_u32(index) + be_bytes_of_u32(begin) + be_bytes_of_u32(length),
        }
    }
}

/// The error, if any, that decoding a frame body (type byte plus payload,
/// no length prefix) must raise. `None` means decoding succeeds.
pub open spec fn decode_err(s: Seq<u8>) -> Option<DecodeError> {
    if s.len() == 0 {
        None
    } else if s[0] == 0 || s[0] == 1 || s[0] == 2 || s[0] == 3 {
        if s.len() == 1 {
            None
        } else {
            Some(DecodeError::UnexpectedPayload)
        }
    } else if s[0] == 4 {
        if s.len() == 5 {
            None
        } else {
            Some(DecodeError::Truncated)
        }
    } else if s[0] == 5 {
        None
    } else if s[0] == 6 || s[0] == 8 {
        if s.len() == 13 {
            None
        } else {
            Some(DecodeError::Truncated)
        }
    } else if s[0] == 7 {
        if s.len() >= 9 {
            None
        } else {
            Some(DecodeError::Truncated)
        }
    } else {
        Some(DecodeError::UnknownType(s[0]))
    }
}

/// `m` is the message a frame body denotes. Meaningful when `decode_err(s)`
/// is `None`; it then pins `m` down to the payload bytes.
pub open spec fn is_decoding_of(s: Seq<u8>, m: PeerMessage) -> bool
    recommends
        decode_err(s) is None,
{
    if s.len() == 0 {
        m == PeerMessage::KeepAlive
    } else if s[0] == 0 {
        m == PeerMessage::Choke
    } else if s[0] == 1 {
        m == PeerMessage::Unchoke
    } else if s[0] == 2 {
        m == PeerMessage::Interested
    } else if s[0] == 3 {
        m == PeerMessage::NotInterested
    } else if s[0] == 4 {
        m == (PeerMessage::Have { piece_index: u32_of_be(s[1], s[2], s[3], s[4]) })
    } else if s[0] == 5 {
        m matches PeerMessage::Bitfield { bitfield } && bitfield@ == s.skip(1)
    } else if s[0] == 6 {
        m == (PeerMessage::Request {
            index: u32_of_be(s[1], s[2], s[3], s[4]),
            begin: u32_of_be(s[5], s[6], s[7], s[8]),
            length: u32_of_be(s[9], s[10], s[11], s[12]),
        })
    } else if s[0] == 7 {
        m matches PeerMessage::Piece { index, begin, block } && index == u32_of_be(
            s[1],
            s[2],
            s[3],
            s[4],
        ) && begin == u32_of_be(s[5], s[6], s[7], s[8]) && block@ == s.skip(9)
    } else if s[0] == 8 {
        m == (PeerMessage::Cancel {
            index: u32_of_be(s[1], s[2], s[3], s[4]),
            begin: u32_of_be(s[5], s[6], s[7], s[8]),
            length: u32_of_be(s[9], s[10], s[11], s[12]),
        })
    } else {
        false
    }
}

impl PeerMessage {
    /// Decodes a frame body: the bytes after the length prefix. An empty body
    /// is a keep-alive; otherwise the first byte picks the type, and the
    /// payload must have exactly the width that type asks (any width for
    /// bitfield, at least 8 payload bytes for piece).
    pub fn from_bytes(bytes: &Vec<u8>) -> (r: Result<PeerMessage, DecodeError>)
        ensures
            decode_err(bytes@) matches Some(e) ==> r == Err::<PeerMessage, DecodeError>(e),
            decode_err(bytes@) is None ==> (r matches Ok(m) && is_decoding_of(bytes@, m)),
    {
        let n = bytes.len();
        if n == 0 {
            return Ok(PeerMessage::KeepAlive);
        }
        let id = bytes[0];
        match id {
            0 | 1 | 2 | 3 => {
                if n != 1 {
                    return Err(DecodeError::UnexpectedPayload);
                }
                match id {
                    0 => Ok(PeerMessage::Choke),
                    1 => Ok(PeerMessage::Unchoke),
                    2 => Ok(PeerMessage::Interested),
                    _ => Ok(PeerMessage::NotInterested),
                }
            },
            4 => {
                if n != 5 {
                    return Err(DecodeError::Truncated);
                }
                Ok(PeerMessage::Have { piece_index: read_u32_be(bytes, 1) })
            },
            5 => {
                let bitfield = sub_vec(bytes, 1, n);
                assert(bitfield@ =~= bytes@.skip(1));
                Ok(PeerMessage::Bitfield { bitfield })
            },
            6 => {
                if n != 13 {
                    return Err(DecodeError::Truncated);
                }
                Ok(PeerMessage::Request {
                    index: read_u32_be(bytes, 1),
                    begin: read_u32_be(bytes, 5),
                    length: read_u32_be(bytes, 9),
                })
            },
            7 => {
                if n < 9 {
                    return Err(DecodeError::Truncated);
                }
                let index = read_u32_be(bytes, 1);
                let begin = read_u32_be(bytes, 5);
                let block = sub_vec(bytes, 9, n);
                assert(block@ =~= bytes@.skip(9));
                Ok(PeerMessage::Piece { index, begin, block })
            },
            8 => {
                if n != 13 {
                    return Err(DecodeError::Truncated);
                }
                Ok(PeerMessage::Cancel {
                    index: read_u32_be(bytes, 1),
                    begin: read_u32_be(bytes, 5),
                    length: read_u32_be(bytes, 9),
                })
            },
            _ => Err(DecodeError::UnknownType(id)),
        }
    }

    /// The full frame for this message, length prefix included.
    pub fn to_bytes(&self) -> (r: Vec<u8>)
        requires
            self.wf(),
        ensures
            r@ == self.encoding(),
    {
        let mut out: Vec<u8> = Vec::new();
        match self {
            PeerMessage::KeepAlive => {
                out.push(0);
                out.push(0);
                out.push(0);
                out.push(0);
            },
            PeerMessage::Choke => {
                out.push(0);
                out.push(0);
                out.push(0);
                out.push(1);
                out.push(0);
            },
            PeerMessage::Unchoke => {
                out.push(0);
                out.push(0);
                out.push(0);
                out.push(1);
                out.push(1);
            },
            PeerMessage::Interested => {
                out.push(0);
                out.push(0);
                out.push(0);
                out.push(1);
                out.push(2);
            },
            PeerMessage::NotInterested => {
                out.push(0);
                out.push(0);
                out.push(0);
                out.push(1);
                out.push(3);
            },
            PeerMessage::Have { piece_index } => {
                out.push(0);
                out.push(0);
                out.push(0);
                out.push(5);
                out.push(4);
                push_u32_be(&mut out, *piece_index);
            },
            PeerMessage::Bitfield { bitfield } => {
                let prefix = (bitfield.len() + 1) as u32;
                push_u32_be(&mut out, prefix);
                out.push(5);
                push_all(&mut out, bitfield);
            },
            PeerMessage::Request { index, begin, length } => {
                out.push(0);
                out.push(0);
                out.push(0);
                out.push(13);
                out.push(6);
                push_u32_be(&mut out, *index);
                push_u32_be(&mut out, *begin);
                push_u32_be(&mut out, *length);
            },
            PeerMessage::Piece { index, begin, block } => {
                let prefix = (block.len() + 9) as u32;
                push_u32_be(&mut out, prefix);
                out.push(7);
                push_u32_be(&mut out, *index);
                push_u32_be(&mut out, *begin);
                push_all(&mut out, block);
            },
            PeerMessage::Cancel { index, begin, length } => {
                out.push(0);
                out.push(0);
                out.push(0);
                out.push(13);
                out.push(8);
                push_u32_be(&mut out, *index);
                push_u32_be(&mut out, *begin);
                push_u32_be(&mut out, *length);
            },
        }
        assert(out@ =~= self.encoding());
        out
    }
}

/// The same message: plain equality, except that byte payloads are compared
/// by value rather than as vector identities.
pub open spec fn same_message(a: PeerMessage, b: PeerMessage) -> bool {
    match (a, b) {
        (
            PeerMessage::Bitfield { bitfield: x },
            PeerMessage::Bitfield { bitfield: y },
        ) => x@ == y@,
        (
            PeerMessage::Piece { index: i, begin: g, block: x },
            PeerMessage::Piece { index: j, begin: h, block: y },
        ) => i == j && g == h && x@ == y@,
        _ => a == b,
    }
}

/// A request or cancel body whose payload is not exactly twelve bytes is
/// refused as truncated, whatever those bytes hold.
pub proof fn lemma_request_cancel_needs_twelve(s: Seq<u8>)
    requires
        s.len() > 0,
        s[0] == 6 || s[0] == 8,
        s.len() != 13,
    ensures
        decode_err(s) == Some(DecodeError::Truncated),
{
}

/// A piece body with fewer than eight payload bytes is refused as
/// truncated; with exactly eight, it decodes, and its block is empty.
pub proof fn lemma_piece_payload_floor(s: Seq<u8>)
    requires
        s.len() > 0,
        s[0] == 7,
    ensures
        s.len() < 9 ==> decode_err(s) == Some(DecodeError::Truncated),
        s.len() == 9 ==> decode_err(s) is None,
        s.len() == 9 ==> forall|m: PeerMessage|
            is_decoding_of(s, m) ==> (m matches PeerMessage::Piece { block, .. } && block@.len()
                == 0),
{
}

/// Encoding a well-formed message and stripping the 4-byte length prefix
/// yields a body that decodes, and decodes to that message.
pub proof fn lemma_encoding_decodes(m: PeerMessage)
    requires
        m.wf(),
    ensures
        decode_err(m.encoding().skip(4)) is None,
        is_decoding_of(m.encoding().skip(4), m),
{
    let body = m.encoding().skip(4);
    match m {
        PeerMessage::KeepAlive => {
            assert(body =~= Seq::<u8>::empty());
        },
        PeerMessage::Choke => {
            assert(body =~= seq![0u8]);
        },
        PeerMessage::Unchoke => {
            assert(body =~= seq![1u8]);
        },
        PeerMessage::Interested => {
            assert(body =~= seq![2u8]);
        },
        PeerMessage::NotInterested => {
            assert(body =~= seq![3u8]);
        },
        PeerMessage::Have { piece_index } => {
            assert(body =~= seq![4u8] + be_bytes_of_u32(piece_index));
            lemma_u32_be_round_trip(piece_index);
        },
        PeerMessage::Bitfield { bitfield } => {
            assert(body =~= seq![5u8] + bitfield@);
            assert(body.skip(1) =~= bitfield@);
        },
        PeerMessage::Request { index, begin, length } => {
            assert(body =~= seq![6u8] + be_bytes_of_u32(index) + be_bytes_of_u32(begin)
                + be_bytes_of_u32(length));
            lemma_u32_be_round_trip(index);
            lemma_u32_be_round_trip(begin);
            lemma_u32_be_round_trip(length);
        },
        PeerMessage::Piece { index, begin, block } => {
            assert(body =~= seq![7u8] + be_bytes_of_u32(index) + be_bytes_of_u32(begin) + block@);
            assert(body.skip(9) =~= block@);
            lemma_u32_be_round_trip(index);
            lemma_u32_be_round_trip(begin);
        },
        PeerMessage::Cancel { index, begin, length } => {
            assert(body =~= seq![8u8] + be_bytes_of_u32(index) + be_bytes_of_u32(begin)
                + be_bytes_of_u32(length));
            lemma_u32_be_round_trip(index);
            lemma_u32_be_round_trip(begin);
            lemma_u32_be_round_trip(length);
        },
    }
}

/// Round trip: whatever a well-formed message's own frame body decodes to is
/// that message again, payloads compared by value.
pub proof fn lemma_peer_message_round_trip(m: PeerMessage, d: PeerMessage)
    requires
        m.wf(),
        is_decoding_of(m.encoding().skip(4), d),
    ensures
        same_message(d, m),
{
    lemma_encoding_decodes(m);
}

} // verus!
