//! The client side of the BitTorrent peer wire protocol: the torrent
//! metadata model with its SHA-1 info hash, the tracker announce exchange
//! with its compact peer list, the fixed 68-byte handshake, the
//! length-prefixed peer messages, and the session bootstrap that judges a
//! peer's handshake. The contracts state each codec's exact bytes, and the
//! round-trip laws stand beside the codecs as proved lemmas.
pub mod bencode;
pub mod bytes;
pub mod handshake;
pub mod peer_message;
pub mod session;
pub mod sha;
pub mod torrent;
pub mod tracker;
