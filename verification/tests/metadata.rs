use btwire::torrent::encode_info;
use btwire::torrent::Info;
use btwire::torrent::ParseError;
use btwire::torrent::Torrent;

use sha1::Digest;

fn sample_info() -> Info {
    Info {
        name: b"a".to_vec(),
        piece_length: 2,
        pieces: vec![7u8; 20],
        length: 5,
    }
}

fn sample_torrent() -> Torrent {
    Torrent {
        announce: b"http://tracker.test/announce".to_vec(),
        info: sample_info(),
        comment: None,
        creation_date: None,
    }
}

fn sample_file_bytes() -> Vec<u8> {
    let mut f = Vec::new();
    f.extend_from_slice(b"d8:announce28:http://tracker.test/announce4:infod6:lengthi5e4:name1:a12:piece lengthi2e6:pieces20:");
    f.extend_from_slice(&[7u8; 20]);
    f.extend_from_slice(b"ee");
    f
}

#[test]
fn encode_info_is_canonical() {
    let mut expected = Vec::new();
    expected.extend_from_slice(b"d6:lengthi5e4:name1:a12:piece lengthi2e6:pieces20:");
    expected.extend_from_slice(&[7u8; 20]);
    expected.extend_from_slice(b"e");
    assert_eq!(encode_info(&sample_info()), expected);
}

#[test]
fn encode_info_negative_numbers() {
    let info = Info {
        name: Vec::new(),
        piece_length: -3,
        pieces: Vec::new(),
        length: -10,
    };
    assert_eq!(
        encode_info(&info),
        b"d6:lengthi-10e4:name0:12:piece lengthi-3e6:pieces0:e".to_vec()
    );
}

#[test]
fn hash_info_matches_direct_sha1() {
    let t = sample_torrent();
    let hash = t.hash_info();
    let direct = sha1::Sha1::digest(encode_info(&sample_info()).as_slice());
    assert_eq!(hash.len(), 20);
    assert_eq!(hash, direct.to_vec());
}

#[test]
fn hash_info_is_deterministic() {
    let t = sample_torrent();
    let first = t.hash_info();
    let second = t.hash_info();
    assert_eq!(first, second);
    let copy = sample_torrent();
    assert_eq!(copy.hash_info(), first);
}

#[test]
fn parse_reads_schema_fields() {
    let t = Torrent::parse(&sample_file_bytes()).unwrap();
    assert_eq!(t.announce, b"http://tracker.test/announce".to_vec());
    assert_eq!(t.info.name, b"a".to_vec());
    assert_eq!(t.info.piece_length, 2);
    assert_eq!(t.info.pieces, vec![7u8; 20]);
    assert_eq!(t.info.length, 5);
    assert_eq!(t.comment, None);
    assert_eq!(t.creation_date, None);
}

#[test]
fn parse_round_trips_the_info_block() {
    // the hash is taken over the exact bytes the file held
    let file = sample_file_bytes();
    let t = Torrent::parse(&file).unwrap();
    let re_encoded = encode_info(&t.info);
    let info_start = file.len() - re_encoded.len() - 1;
    assert_eq!(&file[info_start..file.len() - 1], re_encoded.as_slice());
}

#[test]
fn parse_reads_optional_fields() {
    let mut f = Vec::new();
    f.extend_from_slice(b"d8:announce3:url7:comment5:hello13:creation datei-12345e4:infod6:lengthi0e4:name0:12:piece lengthi1e6:pieces0:ee");
    let t = Torrent::parse(&f).unwrap();
    assert_eq!(t.comment, Some(b"hello".to_vec()));
    assert_eq!(t.creation_date, Some(-12345));
}

#[test]
fn parse_skips_unknown_top_level_keys() {
    let mut f = Vec::new();
    f.extend_from_slice(b"d8:announce3:url13:announce-listll3:urlee10:created by2:me4:infod6:lengthi0e4:name0:12:piece lengthi1e6:pieces0:ee");
    let t = Torrent::parse(&f).unwrap();
    assert_eq!(t.announce, b"url".to_vec());
}

#[test]
fn parse_rejects_missing_required_fields() {
    // no info dictionary at all
    let f1 = b"d8:announce3:urle".to_vec();
    assert_eq!(Torrent::parse(&f1), Err(ParseError::Malformed));
    // info misses the length field
    let f2 = b"d8:announce3:url4:infod4:name0:12:piece lengthi1e6:pieces0:ee".to_vec();
    assert_eq!(Torrent::parse(&f2), Err(ParseError::Malformed));
    // no announce
    let f3 = b"d4:infod6:lengthi0e4:name0:12:piece lengthi1e6:pieces0:ee".to_vec();
    assert_eq!(Torrent::parse(&f3), Err(ParseError::Malformed));
}

#[test]
fn parse_rejects_type_mismatch() {
    // length holds a string, not an integer
    let f = b"d8:announce3:url4:infod6:length1:x4:name0:12:piece lengthi1e6:pieces0:ee".to_vec();
    assert_eq!(Torrent::parse(&f), Err(ParseError::Malformed));
}

#[test]
fn parse_rejects_broken_bencode() {
    let f1 = b"".to_vec();
    assert_eq!(Torrent::parse(&f1), Err(ParseError::Malformed));
    let f2 = b"x".to_vec();
    assert_eq!(Torrent::parse(&f2), Err(ParseError::Malformed));
    let f3 = b"d8:announce99:url".to_vec();
    assert_eq!(Torrent::parse(&f3), Err(ParseError::Malformed));
    let f4 = b"d8:announce3:url".to_vec();
    assert_eq!(Torrent::parse(&f4), Err(ParseError::Malformed));
}

#[test]
fn parse_rejects_uneven_piece_hashes() {
    // pieces length 19 is not a multiple of 20
    let mut f = Vec::new();
    f.extend_from_slice(b"d8:announce3:url4:infod6:lengthi0e4:name0:12:piece lengthi1e6:pieces19:");
    f.extend_from_slice(&[1u8; 19]);
    f.extend_from_slice(b"ee");
    assert_eq!(Torrent::parse(&f), Err(ParseError::Malformed));
}
