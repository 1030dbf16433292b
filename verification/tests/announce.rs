use btwire::torrent::Info;
use btwire::torrent::Torrent;
use btwire::tracker::build_request;
use btwire::tracker::parse_response;
use btwire::tracker::to_query_string;
use btwire::tracker::url_encode;
use btwire::tracker::Peer;
use btwire::tracker::TrackerError;
use btwire::tracker::TrackerRequest;

fn sample_torrent(length: i64) -> Torrent {
    Torrent {
        announce: b"http://tracker.test/announce".to_vec(),
        info: Info {
            name: b"f".to_vec(),
            piece_length: 16384,
            pieces: vec![0u8; 20],
            length,
        },
        comment: None,
        creation_date: None,
    }
}

#[test]
fn url_encode_uses_uppercase_hex() {
    assert_eq!(url_encode(&vec![0x1a]), b"%1A".to_vec());
    assert_eq!(url_encode(&vec![0x00, 0xff, 0x41]), b"%00%FF%41".to_vec());
    assert_eq!(url_encode(&Vec::new()), Vec::<u8>::new());
}

#[test]
fn build_request_computes_left() {
    let t = sample_torrent(1000);
    let r = build_request(&t, b"00112233445566778899".to_vec(), 6881, 5, 300);
    assert_eq!(r.left, 700);
    assert_eq!(r.port, 6881);
    assert_eq!(r.uploaded, 5);
    assert_eq!(r.downloaded, 300);
    assert_eq!(r.compact, 1);
}

#[test]
fn build_request_left_never_negative() {
    let t = sample_torrent(100);
    let r = build_request(&t, b"00112233445566778899".to_vec(), 1, 0, 500);
    assert_eq!(r.left, 0);
    let neg = sample_torrent(-7);
    let r2 = build_request(&neg, b"00112233445566778899".to_vec(), 1, 0, 0);
    assert_eq!(r2.left, 0);
}

#[test]
fn query_string_lists_all_parameters() {
    let r = TrackerRequest {
        peer_id: b"00112233445566778899".to_vec(),
        port: 6881,
        uploaded: 0,
        downloaded: 0,
        left: 658505728,
        compact: 1,
    };
    let q = to_query_string(&r);
    assert_eq!(
        q,
        b"peer_id=00112233445566778899&port=6881&uploaded=0&downloaded=0&left=658505728&compact=1"
            .to_vec()
    );
}

#[test]
fn query_string_form_encodes_peer_id() {
    let r = TrackerRequest {
        peer_id: b"-AB 1/2~aaaaaaaaaaaa".to_vec(),
        port: 1,
        uploaded: 2,
        downloaded: 3,
        left: 4,
        compact: 1,
    };
    let q = to_query_string(&r);
    assert_eq!(
        q,
        b"peer_id=-AB+1%2F2%7Eaaaaaaaaaaaa&port=1&uploaded=2&downloaded=3&left=4&compact=1"
            .to_vec()
    );
}

#[test]
fn compact_peer_list_decodes() {
    // d5:peers6:<192.0.2.1:6881>e
    let mut body = b"d5:peers6:".to_vec();
    body.extend_from_slice(&[192, 0, 2, 1, 0x1a, 0xe1]);
    body.push(b'e');
    let resp = parse_response(&body).unwrap();
    assert_eq!(resp.peers.len(), 1);
    assert_eq!(
        resp.peers[0],
        Peer { ip0: 192, ip1: 0, ip2: 2, ip3: 1, port: 6881 }
    );
}

#[test]
fn compact_peer_list_many_peers() {
    let mut body = b"d8:intervali900e5:peers12:".to_vec();
    body.extend_from_slice(&[10, 0, 0, 1, 0, 80, 10, 0, 0, 2, 0x1f, 0x90]);
    body.push(b'e');
    let resp = parse_response(&body).unwrap();
    assert_eq!(resp.peers.len(), 2);
    assert_eq!(resp.peers[0], Peer { ip0: 10, ip1: 0, ip2: 0, ip3: 1, port: 80 });
    assert_eq!(resp.peers[1], Peer { ip0: 10, ip1: 0, ip2: 0, ip3: 2, port: 8080 });
}

#[test]
fn compact_length_must_divide_by_six() {
    let mut body = b"d5:peers4:".to_vec();
    body.extend_from_slice(&[1, 2, 3, 4]);
    body.push(b'e');
    assert_eq!(parse_response(&body), Err(TrackerError::Malformed));
}

#[test]
fn tracker_failure_reason_is_reported() {
    let body = b"d14:failure reason11:not allowede".to_vec();
    assert_eq!(
        parse_response(&body),
        Err(TrackerError::Failure(b"not allowed".to_vec()))
    );
}

#[test]
fn tracker_reply_without_peers_is_malformed() {
    let body = b"d8:intervali900ee".to_vec();
    assert_eq!(parse_response(&body), Err(TrackerError::Malformed));
    let body2 = b"hello".to_vec();
    assert_eq!(parse_response(&body2), Err(TrackerError::Malformed));
}
