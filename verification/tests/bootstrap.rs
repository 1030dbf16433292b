use btwire::handshake::Handshake;
use btwire::session::on_handshake_reply;
use btwire::session::SessionFailure;
use btwire::session::SessionState;

fn local_hash() -> Vec<u8> {
    vec![0xabu8; 20]
}

fn reply(protocol: &[u8], hash: &[u8], id: &[u8]) -> Vec<u8> {
    let mut r = vec![19u8];
    r.extend_from_slice(protocol);
    r.extend_from_slice(&[0u8; 8]);
    r.extend_from_slice(hash);
    r.extend_from_slice(id);
    r
}

#[test]
fn good_reply_establishes_session() {
    let id = vec![0x55u8; 20];
    let r = reply(b"BitTorrent protocol", &local_hash(), &id);
    let state = on_handshake_reply(&local_hash(), &r);
    assert_eq!(state, SessionState::Established { peer_id: id });
}

#[test]
fn short_reply_fails_with_wrong_length() {
    let r = vec![19u8; 40];
    let state = on_handshake_reply(&local_hash(), &r);
    assert_eq!(state, SessionState::Failed(SessionFailure::WrongLength));
}

#[test]
fn protocol_mismatch_fails_the_session() {
    let r = reply(b"BitTorrent protocoX", &local_hash(), &[1u8; 20]);
    let state = on_handshake_reply(&local_hash(), &r);
    assert_eq!(state, SessionState::Failed(SessionFailure::ProtocolMismatch));
}

#[test]
fn info_hash_mismatch_fails_the_session() {
    let other = vec![0xcdu8; 20];
    let r = reply(b"BitTorrent protocol", &other, &[1u8; 20]);
    let state = on_handshake_reply(&local_hash(), &r);
    assert_eq!(state, SessionState::Failed(SessionFailure::InfoHashMismatch));
}

#[test]
fn session_reply_built_by_the_codec_passes() {
    let peer = Handshake::new(local_hash(), vec![9u8; 20]);
    let state = on_handshake_reply(&local_hash(), &peer.to_bytes());
    assert_eq!(state, SessionState::Established { peer_id: vec![9u8; 20] });
}
