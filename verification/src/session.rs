//! The peer session bootstrap: an explicit state enumeration and the one
//! transition that judges the peer's handshake reply. Opening the socket,
//! sending the local handshake and reading the 68 reply bytes are I/O and
//! live with the caller; the decision made on those bytes lives here.
use vstd::prelude::*;

use crate::bytes::bytes_eq;
use crate::handshake::Handshake;
use crate::handshake::protocol_name;
use crate::handshake::protocol_name_vec;

verus! {

/// Why a peer session failed during its handshake. Fatal for this one
/// connection; the caller closes the socket and reports upward.
#[derive(Debug, Clone, PartialEq, Eq)]
pub enum SessionFailure {
    /// The peer's reply was not exactly 68 bytes.
    WrongLength,
    /// The reply's protocol field is not "BitTorrent protocol".
    ProtocolMismatch,
    /// The reply's info hash differs from the locally computed one.
    InfoHashMismatch,
}

/// The states a peer session's bootstrap moves through.
#[derive(Debug, Clone, PartialEq, Eq)]
pub enum SessionState {
    /// The TCP connection is being opened.
    Connecting,
    /// The local handshake went out; the peer's 68 bytes are awaited.
    Handshaking,
    /// Both checks passed; messages may flow. Holds the peer id the remote
    /// side sent, recorded but not otherwise judged.
    Established { peer_id: Vec<u8> },
    /// Terminal: the connection must be closed.
    Failed(SessionFailure),
}

/// The one transition out of `Handshaking`: judges the peer's 68-byte reply
/// against the expected info hash. In order: the structural decode must
/// succeed, the protocol field must be the literal "BitTorrent protocol",
/// and the info hash must match; only then is the session established.
pub fn on_handshake_reply(expected_info_hash: &Vec<u8>, reply: &Vec<u8>) -> (r: SessionState)
    ensures
        reply@.len() != 68 ==> r == SessionState::Failed(SessionFailure::WrongLength),
        reply@.len() == 68 && reply@.subrange(1, 20) != protocol_name() ==> r
            == SessionState::Failed(SessionFailure::ProtocolMismatch),
        reply@.len() == 68 && reply@.subrange(1, 20) == protocol_name() && reply@.subrange(28, 48)
            != expected_info_hash@ ==> r == SessionState::Failed(
            SessionFailure::InfoHashMismatch,
        ),
        reply@.len() == 68 && reply@.subrange(1, 20) == protocol_name() && reply@.subrange(28, 48)
            == expected_info_hash@ ==> (r matches SessionState::Established { peer_id } && peer_id@
            == reply@.subrange(48, 68)),
{
    match Handshake::from_bytes(reply) {
        Err(_) => SessionState::Failed(SessionFailure::WrongLength),
        Ok(h) => {
            let expected_protocol = protocol_name_vec();
            if !bytes_eq(&h.protocol, &expected_protocol) {
                return SessionState::Failed(SessionFailure::ProtocolMismatch);
            }
            if !bytes_eq(&h.info_hash, expected_info_hash) {
                return SessionState::Failed(SessionFailure::InfoHashMismatch);
            }
            SessionState::Established { peer_id: h.peer_id }
        },
    }
}

} // verus!
