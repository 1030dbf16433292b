//! The torrent metadata model: the announce URL and the info block, and the
//! canonical bencode form of the info block that the 20-byte info hash is
//! taken over. Keys of a bencode dictionary are emitted in sorted order, the
//! order canonical torrent files use, so re-encoding a parsed info block is
//! byte-identical to what the file held.
use vstd::prelude::*;

use crate::bencode::dec_value;
use crate::bencode::int_after;
use crate::bencode::int_valid;
use crate::bencode::int_value;
use crate::bencode::is_digit;
use crate::bencode::lemma_digits_end_of_run;
use crate::bencode::parse_int_token;
use crate::bencode::parse_str_token;
use crate::bencode::skip_value;
use crate::bencode::str_content;
use crate::bencode::str_end;
use crate::bencode::str_valid;
use crate::bencode::value_end;
use crate::bytes::bytes_eq;
use crate::bytes::dec_rep;
use crate::bytes::dec_rep_signed;
use crate::bytes::lemma_dec_rep_digits;
use crate::bytes::push_all;
use crate::bytes::push_i64_dec;
use crate::bytes::push_u64_dec;
use crate::bytes::sub_vec;
use crate::sha::sha1_of;
use crate::sha::sha1_digest;

verus! {

/// The info block of a torrent: file name, piece size, the concatenated
/// 20-byte piece hashes, and the total length. Name and pieces are raw
/// bencode byte strings.
#[derive(Debug, Clone, PartialEq, Eq)]
pub struct Info {
    pub name: Vec<u8>,
    pub piece_length: i64,
    pub pieces: Vec<u8>,
    pub length: i64,
}

/// A parsed torrent description.
#[derive(Debug, Clone, PartialEq, Eq)]
pub struct Torrent {
    pub announce: Vec<u8>,
    pub info: Info,
    pub comment: Option<Vec<u8>>,
    pub creation_date: Option<i64>,
}

/// A bencode byte string: decimal length, `:`, the bytes.
pub open spec fn bencode_str(s: Seq<u8>) -> Seq<u8> {
    dec_rep(s.len() as int) + seq![58u8] + s
}

/// A bencode integer: `i`, decimal value, `e`.
pub open spec fn bencode_int(n: int) -> Seq<u8> {
    seq![105u8] + dec_rep_signed(n) + seq![101u8]
}

/// The ASCII bytes of "length".
pub open spec fn key_length() -> Seq<u8> {
    seq![108u8, 101, 110, 103, 116, 104]
}

/// The ASCII bytes of "name".
pub open spec fn key_name() -> Seq<u8> {
    seq![110u8, 97, 109, 101]
}

/// The ASCII bytes of "piece length".
pub open spec fn key_piece_length() -> Seq<u8> {
    seq![112u8, 105, 101, 99, 101, 32, 108, 101, 110, 103, 116, 104]
}

/// The ASCII bytes of "pieces".
pub open spec fn key_pieces() -> Seq<u8> {
    seq![112u8, 105, 101, 99, 101, 115]
}

impl Info {
    /// The piece hashes split evenly into 20-byte slices.
    pub open spec fn wf(self) -> bool {
        self.pieces@.len() % 20 == 0
    }

    /// The canonical bencode form of the info block: a dictionary with the
    /// keys "length", "name", "piece length" and "pieces" in sorted order.
    pub open spec fn encoding(self) -> Seq<u8> {
        seq![100u8] + bencode_str(key_length()) + bencode_int(self.length as int) + bencode_str(
            key_name(),
        ) + bencode_str(self.name@) + bencode_str(key_piece_length()) + bencode_int(
            self.piece_length as int,
        ) + bencode_str(key_pieces()) + bencode_str(self.pieces@) + seq![101u8]
    }
}

/// Appends `i`, the decimal value, `e`.
fn push_bencode_int(out: &mut Vec<u8>, n: i64)
    ensures
        final(out)@ == old(out)@ + bencode_int(n as int),
{
    out.push(105);
    push_i64_dec(out, n);
    out.push(101);
    assert(out@ =~= old(out)@ + bencode_int(n as int));
}

/// Appends the bencode byte string holding `s`.
fn push_bencode_str(out: &mut Vec<u8>, s: &Vec<u8>)
    ensures
        final(out)@ == old(out)@ + bencode_str(s@),
{
    push_u64_dec(out, s.len() as u64);
    out.push(58);
    push_all(out, s);
    assert(out@ =~= old(out)@ + bencode_str(s@));
}

/// The canonical bencode bytes of an info block.
#[verifier::rlimit(30)]
pub fn encode_info(info: &Info) -> (r: Vec<u8>)
    ensures
        r@ == info.encoding(),
{
    let mut out: Vec<u8> = Vec::new();
    out.push(100);
    // "6:length"
    out.push(54);
    out.push(58);
    out.push(108);
    out.push(101);
    out.push(110);
    out.push(103);
    out.push(116);
    out.push(104);
    assert(out@ =~= seq![100u8] + bencode_str(key_length()));
    push_bencode_int(&mut out, info.length);
    // "4:name"
    out.push(52);
    out.push(58);
    out.push(110);
    out.push(97);
    out.push(109);
    out.push(101);
    assert(out@ =~= seq![100u8] + bencode_str(key_length()) + bencode_int(info.length as int)
        + bencode_str(key_name()));
    push_bencode_str(&mut out, &info.name);
    // "12:piece length"
    out.push(49);
    out.push(50);
    out.push(58);
    out.push(112);
    out.push(105);
    out.push(101);
    out.push(99);
    out.push(101);
    out.push(32);
    out.push(108);
    out.push(101);
    out.push(110);
    out.push(103);
    out.push(116);
    out.push(104);
    assert(dec_rep(1) == seq![49u8]);
    assert(dec_rep(12) =~= seq![49u8, 50]);
    assert(out@ =~= seq![100u8] + bencode_str(key_length()) + bencode_int(info.length as int)
        + bencode_str(key_name()) + bencode_str(info.name@) + bencode_str(key_piece_length()));
    push_bencode_int(&mut out, info.piece_length);
    // "6:pieces"
    out.push(54);
    out.push(58);
    out.push(112);
    out.push(105);
    out.push(101);
    out.push(99);
    out.push(101);
    out.push(115);
    assert(out@ =~= seq![100u8] + bencode_str(key_length()) + bencode_int(info.length as int)
        + bencode_str(key_name()) + bencode_str(info.name@) + bencode_str(key_piece_length())
        + bencode_int(info.piece_length as int) + bencode_str(key_pieces()));
    push_bencode_str(&mut out, &info.pieces);
    out.push(101);
    assert(out@ =~= info.encoding());
    out
}

impl Torrent {
    /// The 20-byte info hash: SHA-1 over the canonical bencode form of the
    /// info block, the form the torrent file itself holds. A pure function of
    /// the info block.
    pub fn hash_info(&self) -> (r: Vec<u8>)
        ensures
            r@ == sha1_of(self.info.encoding()),
            r@.len() == 20,
    {
        let encoded = encode_info(&self.info);
        sha1_digest(&encoded)
    }
}

/// Why a torrent description was rejected.
#[derive(Debug, Clone, PartialEq, Eq)]
pub enum ParseError {
    /// A required field is missing or has the wrong type, the bencode text
    /// is broken, or the info block does not fit the four-field schema.
    Malformed,
}

/// The ASCII bytes of "announce".
pub open spec fn key_announce() -> Seq<u8> {
    seq![97u8, 110, 110, 111, 117, 110, 99, 101]
}

/// The ASCII bytes of "comment".
pub open spec fn key_comment() -> Seq<u8> {
    seq![99u8, 111, 109, 109, 101, 110, 116]
}

/// The ASCII bytes of "creation date".
pub open spec fn key_creation_date() -> Seq<u8> {
    seq![99u8, 114, 101, 97, 116, 105, 111, 110, 32, 100, 97, 116, 101]
}

/// The ASCII bytes of "info".
pub open spec fn key_info() -> Seq<u8> {
    seq![105u8, 110, 102, 111]
}

/// The info fields gathered while walking an info dictionary.
pub struct InfoFields {
    pub name: Option<Seq<u8>>,
    pub piece_length: Option<int>,
    pub pieces: Option<Seq<u8>>,
    pub length: Option<int>,
}

/// The torrent fields gathered while walking the top-level dictionary.
pub struct TorrentFields {
    pub announce: Option<Seq<u8>>,
    pub comment: Option<Seq<u8>>,
    pub creation_date: Option<int>,
    pub info: Option<InfoFields>,
}

/// Walks the entries of an info dictionary from `i` and returns the fields
/// and the index after the closing `e`. The info block must round-trip
/// byte-for-byte through the four-field model, or its hash would silently
/// change, so a key outside the schema is refused rather than skipped. The
/// fuel only bounds the recursion and never runs out first: every entry
/// takes at least one byte.
pub open spec fn info_walk(s: Seq<u8>, i: int, acc: InfoFields, fuel: nat) -> Option<
    (InfoFields, int),
>
    decreases fuel,
{
    if fuel == 0 {
        None
    } else if i < 0 || i >= s.len() {
        None
    } else if s[i] == 101 {
        Some((acc, i + 1))
    } else if str_valid(s, i) {
        let key = str_content(s, i);
        let ke = str_end(s, i);
        if key == key_length() {
            if int_valid(s, ke) {
                info_walk(
                    s,
                    int_after(s, ke),
                    InfoFields {
                        length: Some(int_value(s, ke)),
                        name: acc.name,
                        piece_length: acc.piece_length,
                        pieces: acc.pieces,
                    },
                    (fuel - 1) as nat,
                )
            } else {
                None
            }
        } else if key == key_name() {
            if str_valid(s, ke) {
                info_walk(
                    s,
                    str_end(s, ke),
                    InfoFields {
                        name: Some(str_content(s, ke)),
                        piece_length: acc.piece_length,
                        pieces: acc.pieces,
                        length: acc.length,
                    },
                    (fuel - 1) as nat,
                )
            } else {
                None
            }
        } else if key == key_piece_length() {
            if int_valid(s, ke) {
                info_walk(
                    s,
                    int_after(s, ke),
                    InfoFields {
                        piece_length: Some(int_value(s, ke)),
                        name: acc.name,
                        pieces: acc.pieces,
                        length: acc.length,
                    },
                    (fuel - 1) as nat,
                )
            } else {
                None
            }
        } else if key == key_pieces() {
            if str_valid(s, ke) {
                info_walk(
                    s,
                    str_end(s, ke),
                    InfoFields {
                        pieces: Some(str_content(s, ke)),
                        name: acc.name,
                        piece_length: acc.piece_length,
                        length: acc.length,
                    },
                    (fuel - 1) as nat,
                )
            } else {
                None
            }
        } else {
            None
        }
    } else {
        None
    }
}

/// Walks the entries of the top-level dictionary from `i` until its closing
/// `e`. The schema keys take a string ("announce", "comment"), an integer
/// ("creation date") or the info dictionary; entries under other keys are
/// skipped. The last entry under a repeated key wins.
pub open spec fn torrent_walk(s: Seq<u8>, i: int, acc: TorrentFields, fuel: nat) -> Option<
    TorrentFields,
>
    decreases fuel,
{
    if fuel == 0 {
        None
    } else if i < 0 || i >= s.len() {
        None
    } else if s[i] == 101 {
        Some(acc)
    } else if str_valid(s, i) {
        let key = str_content(s, i);
        let ke = str_end(s, i);
        if key == key_announce() {
            if str_valid(s, ke) {
                torrent_walk(
                    s,
                    str_end(s, ke),
                    TorrentFields {
                        announce: Some(str_content(s, ke)),
                        comment: acc.comment,
                        creation_date: acc.creation_date,
                        info: acc.info,
                    },
                    (fuel - 1) as nat,
                )
            } else {
                None
            }
        } else if key == key_comment() {
            if str_valid(s, ke) {
                torrent_walk(
                    s,
                    str_end(s, ke),
                    TorrentFields {
                        comment: Some(str_content(s, ke)),
                        announce: acc.announce,
                        creation_date: acc.creation_date,
                        info: acc.info,
                    },
                    (fuel - 1) as nat,
                )
            } else {
                None
            }
        } else if key == key_creation_date() {
            if int_valid(s, ke) {
                torrent_walk(
                    s,
                    int_after(s, ke),
                    TorrentFields {
                        creation_date: Some(int_value(s, ke)),
                        announce: acc.announce,
                        comment: acc.comment,
                        info: acc.info,
                    },
                    (fuel - 1) as nat,
                )
            } else {
                None
            }
        } else if key == key_info() {
            if ke < s.len() && s[ke] == 100 {
                match info_walk(
                    s,
                    ke + 1,
                    InfoFields { name: None, piece_length: None, pieces: None, length: None },
                    (fuel - 1) as nat,
                ) {
                    Some(p) => torrent_walk(
                        s,
                        p.1,
                        TorrentFields {
                            info: Some(p.0),
                            announce: acc.announce,
                            comment: acc.comment,
                            creation_date: acc.creation_date,
                        },
                        (fuel - 1) as nat,
                    ),
                    None => None,
                }
            } else {
                None
            }
        } else {
            match value_end(s, ke) {
                Some(j) => torrent_walk(s, j, acc, (fuel - 1) as nat),
                None => None,
            }
        }
    } else {
        None
    }
}

/// The gathered fields make a torrent: announce and a complete info block
/// present, and the piece hashes splitting evenly into 20-byte slices.
pub open spec fn fields_complete(acc: TorrentFields) -> bool {
    &&& acc.announce is Some
    &&& acc.info matches Some(f) && f.name is Some && f.piece_length is Some && f.length is Some
        && (f.pieces matches Some(p) && p.len() % 20 == 0)
}

/// The torrent description a byte sequence denotes: a dictionary whose
/// schema fields are complete. `None` is everything `parse` rejects.
pub open spec fn torrent_fields_of(s: Seq<u8>) -> Option<TorrentFields> {
    if s.len() > 0 && s[0] == 100 {
        match torrent_walk(
            s,
            1,
            TorrentFields { announce: None, comment: None, creation_date: None, info: None },
            s.len() as nat,
        ) {
            Some(acc) => if fields_complete(acc) {
                Some(acc)
            } else {
                None
            },
            None => None,
        }
    } else {
        None
    }
}

/// The ASCII key "announce" as a vector.
fn key_announce_vec() -> (r: Vec<u8>)
    ensures
        r@ == key_announce(),
{
    let mut k: Vec<u8> = Vec::new();
    k.push(97);
    k.push(110);
    k.push(110);
    k.push(111);
    k.push(117);
    k.push(110);
    k.push(99);
    k.push(101);
    assert(k@ =~= key_announce());
    k
}

/// The ASCII key "comment" as a vector.
fn key_comment_vec() -> (r: Vec<u8>)
    ensures
        r@ == key_comment(),
{
    let mut k: Vec<u8> = Vec::new();
    k.push(99);
    k.push(111);
    k.push(109);
    k.push(109);
    k.push(101);
    k.push(110);
    k.push(116);
    assert(k@ =~= key_comment());
    k
}

/// The ASCII key "creation date" as a vector.
fn key_creation_date_vec() -> (r: Vec<u8>)
    ensures
        r@ == key_creation_date(),
{
    let mut k: Vec<u8> = Vec::new();
    k.push(99);
    k.push(114);
    k.push(101);
    k.push(97);
    k.push(116);
    k.push(105);
    k.push(111);
    k.push(110);
    k.push(32);
    k.push(100);
    k.push(97);
    k.push(116);
    k.push(101);
    assert(k@ =~= key_creation_date());
    k
}

/// The ASCII key "info" as a vector.
fn key_info_vec() -> (r: Vec<u8>)
    ensures
        r@ == key_info(),
{
    let mut k: Vec<u8> = Vec::new();
    k.push(105);
    k.push(110);
    k.push(102);
    k.push(111);
    assert(k@ =~= key_info());
    k
}

/// The ASCII key "length" as a vector.
fn key_length_vec() -> (r: Vec<u8>)
    ensures
        r@ == key_length(),
{
    let mut k: Vec<u8> = Vec::new();
    k.push(108);
    k.push(101);
    k.push(110);
    k.push(103);
    k.push(116);
    k.push(104);
    assert(k@ =~= key_length());
    k
}

/// The ASCII key "name" as a vector.
fn key_name_vec() -> (r: Vec<u8>)
    ensures
        r@ == key_name(),
{
    let mut k: Vec<u8> = Vec::new();
    k.push(110);
    k.push(97);
    k.push(109);
    k.push(101);
    assert(k@ =~= key_name());
    k
}

/// The ASCII key "piece length" as a vector.
fn key_piece_length_vec() -> (r: Vec<u8>)
    ensures
        r@ == key_piece_length(),
{
    let mut k: Vec<u8> = Vec::new();
    k.push(112);
    k.push(105);
    k.push(101);
    k.push(99);
    k.push(101);
    k.push(32);
    k.push(108);
    k.push(101);
    k.push(110);
    k.push(103);
    k.push(116);
    k.push(104);
    assert(k@ =~= key_piece_length());
    k
}

/// The ASCII key "pieces" as a vector.
fn key_pieces_vec() -> (r: Vec<u8>)
    ensures
        r@ == key_pieces(),
{
    let mut k: Vec<u8> = Vec::new();
    k.push(112);
    k.push(105);
    k.push(101);
    k.push(99);
    k.push(101);
    k.push(115);
    assert(k@ =~= key_pieces());
    k
}

/// The accumulator an info walk starts from: nothing gathered yet.
pub open spec fn empty_info_fields() -> InfoFields {
    InfoFields { name: None, piece_length: None, pieces: None, length: None }
}

/// Walks an info dictionary's entries from `start` (just after its `d`) and
/// returns the gathered name, piece length, pieces and length together with
/// the index after the closing `e`; mirrors `info_walk` exactly. The ghost
/// fuel is the spec walk's; any amount at least one past the remaining bytes
/// behaves alike.
fn parse_info_entries(bytes: &Vec<u8>, start: usize, Ghost(ifuel0): Ghost<nat>) -> (r: Option<
    (Option<Vec<u8>>, Option<i64>, Option<Vec<u8>>, Option<i64>, usize),
>)
    requires
        start <= bytes@.len(),
        ifuel0 >= bytes@.len() - start + 1,
    ensures
        r is Some <==> info_walk(bytes@, start as int, empty_info_fields(), ifuel0) is Some,
        r matches Some(p) ==> (info_walk(bytes@, start as int, empty_info_fields(), ifuel0)
            matches Some(q) && {
            &&& q.1 == p.4 as int
            &&& start < p.4 <= bytes@.len()
            &&& (p.0 is None <==> q.0.name is None)
            &&& (p.0 matches Some(v) ==> q.0.name == Some(v@))
            &&& (p.1 is None <==> q.0.piece_length is None)
            &&& (p.1 matches Some(x) ==> q.0.piece_length == Some(x as int))
            &&& (p.2 is None <==> q.0.pieces is None)
            &&& (p.2 matches Some(v) ==> q.0.pieces == Some(v@))
            &&& (p.3 is None <==> q.0.length is None)
            &&& (p.3 matches Some(x) ==> q.0.length == Some(x as int))
        }),
{
    let mut n_name: Option<Vec<u8>> = None;
    let mut n_pl: Option<i64> = None;
    let mut n_pieces: Option<Vec<u8>> = None;
    let mut n_len: Option<i64> = None;
    let mut icur: usize = start;
    let _ = bytes.len();
    assert(bytes@.len() <= usize::MAX);
    let ghost mut ifuel: nat = ifuel0;
    let ghost mut giacc: InfoFields = empty_info_fields();
    loop
        invariant
            start <= icur <= bytes@.len(),
            bytes@.len() <= usize::MAX,
            ifuel + icur >= ifuel0 + start,
            ifuel0 >= bytes@.len() - start + 1,
            n_name is None <==> giacc.name is None,
            n_name matches Some(v) ==> giacc.name == Some(v@),
            n_pl is None <==> giacc.piece_length is None,
            n_pl matches Some(x) ==> giacc.piece_length == Some(x as int),
            n_pieces is None <==> giacc.pieces is None,
            n_pieces matches Some(v) ==> giacc.pieces == Some(v@),
            n_len is None <==> giacc.length is None,
            n_len matches Some(x) ==> giacc.length == Some(x as int),
            info_walk(bytes@, start as int, empty_info_fields(), ifuel0) == info_walk(
                bytes@,
                icur as int,
                giacc,
                ifuel,
            ),
        decreases bytes@.len() - icur,
    {
        if icur >= bytes.len() {
            return None;
        }
        assert(ifuel > 0);
        if bytes[icur] == 101 {
            return Some((n_name, n_pl, n_pieces, n_len, icur + 1));
        }
        match parse_str_token(bytes, icur) {
            None => {
                return None;
            },
            Some((iks, ike)) => {
                let ikey = sub_vec(bytes, iks, ike);
                assert(ikey@ == str_content(bytes@, icur as int));
                if bytes_eq(&ikey, &key_length_vec()) {
                    match parse_int_token(bytes, ike) {
                        None => {
                            return None;
                        },
                        Some((v, ve)) => {
                            proof {
                                giacc = InfoFields { length: Some(v as int), ..giacc };
                                ifuel = (ifuel - 1) as nat;
                            }
                            n_len = Some(v);
                            icur = ve;
                        },
                    }
                } else if bytes_eq(&ikey, &key_name_vec()) {
                    match parse_str_token(bytes, ike) {
                        None => {
                            return None;
                        },
                        Some((vs, ve)) => {
                            let v = sub_vec(bytes, vs, ve);
                            assert(v@ == str_content(bytes@, ike as int));
                            proof {
                                giacc = InfoFields { name: Some(v@), ..giacc };
                                ifuel = (ifuel - 1) as nat;
                            }
                            n_name = Some(v);
                            icur = ve;
                        },
                    }
                } else if bytes_eq(&ikey, &key_piece_length_vec()) {
                    match parse_int_token(bytes, ike) {
                        None => {
                            return None;
                        },
                        Some((v, ve)) => {
                            proof {
                                giacc = InfoFields { piece_length: Some(v as int), ..giacc };
                                ifuel = (ifuel - 1) as nat;
                            }
                            n_pl = Some(v);
                            icur = ve;
                        },
                    }
                } else if bytes_eq(&ikey, &key_pieces_vec()) {
                    match parse_str_token(bytes, ike) {
                        None => {
                            return None;
                        },
                        Some((vs, ve)) => {
                            let v = sub_vec(bytes, vs, ve);
                            assert(v@ == str_content(bytes@, ike as int));
                            proof {
                                giacc = InfoFields { pieces: Some(v@), ..giacc };
                                ifuel = (ifuel - 1) as nat;
                            }
                            n_pieces = Some(v);
                            icur = ve;
                        },
                    }
                } else {
                    return None;
                }
            },
        }
    }
}

impl Torrent {
    /// Parses a bencoded torrent description: a dictionary with `announce`,
    /// the `info` dictionary of the four schema fields, and the optional
    /// `comment` and `creation date`; entries under other top-level keys are
    /// skipped. Fails with `Malformed` when a required field is missing or
    /// has the wrong type, or the bencode text is broken.
    #[verifier::rlimit(100)]
    pub fn parse(bytes: &Vec<u8>) -> (r: Result<Torrent, ParseError>)
        ensures
            torrent_fields_of(bytes@) is None <==> r == Err::<Torrent, ParseError>(
                ParseError::Malformed,
            ),
            torrent_fields_of(bytes@) matches Some(acc) ==> (r matches Ok(t) && {
                &&& acc.announce == Some(t.announce@)
                &&& acc.info matches Some(f) && f.name == Some(t.info.name@) && f.piece_length
                    == Some(t.info.piece_length as int) && f.pieces == Some(t.info.pieces@)
                    && f.length == Some(t.info.length as int)
                &&& t.comment is None <==> acc.comment is None
                &&& t.comment matches Some(c) ==> acc.comment == Some(c@)
                &&& t.creation_date is None <==> acc.creation_date is None
                &&& t.creation_date matches Some(d) ==> acc.creation_date == Some(d as int)
                &&& t.info.wf()
            }),
    {
        let len = bytes.len();
        if len == 0 {
            return Err(ParseError::Malformed);
        }
        if bytes[0] != 100 {
            return Err(ParseError::Malformed);
        }
        let mut a_announce: Option<Vec<u8>> = None;
        let mut a_comment: Option<Vec<u8>> = None;
        let mut a_creation: Option<i64> = None;
        let mut info_seen = false;
        let mut i_name: Option<Vec<u8>> = None;
        let mut i_pl: Option<i64> = None;
        let mut i_pieces: Option<Vec<u8>> = None;
        let mut i_len: Option<i64> = None;
        let mut cur: usize = 1;
        let ghost fuel0: nat = bytes@.len() as nat;
        let ghost mut fuel: nat = fuel0;
        let ghost mut gacc: TorrentFields = TorrentFields {
            announce: None,
            comment: None,
            creation_date: None,
            info: None,
        };
        loop
            invariant
                1 <= cur <= bytes@.len(),
                bytes@.len() <= usize::MAX,
                fuel + cur >= fuel0 + 1,
                fuel0 == bytes@.len(),
                a_announce is None <==> gacc.announce is None,
                a_announce matches Some(v) ==> gacc.announce == Some(v@),
                a_comment is None <==> gacc.comment is None,
                a_comment matches Some(v) ==> gacc.comment == Some(v@),
                a_creation is None <==> gacc.creation_date is None,
                a_creation matches Some(x) ==> gacc.creation_date == Some(x as int),
                info_seen <==> gacc.info is Some,
                info_seen ==> (gacc.info matches Some(f) && {
                    &&& i_name is None <==> f.name is None
                    &&& i_name matches Some(v) ==> f.name == Some(v@)
                    &&& i_pl is None <==> f.piece_length is None
                    &&& i_pl matches Some(x) ==> f.piece_length == Some(x as int)
                    &&& i_pieces is None <==> f.pieces is None
                    &&& i_pieces matches Some(v) ==> f.pieces == Some(v@)
                    &&& i_len is None <==> f.length is None
                    &&& i_len matches Some(x) ==> f.length == Some(x as int)
                }),
                torrent_fields_of(bytes@) == (match torrent_walk(
                    bytes@,
                    cur as int,
                    gacc,
                    fuel,
                ) {
                    Some(acc) => if fields_complete(acc) {
                        Some(acc)
                    } else {
                        None
                    },
                    None => None,
                }),
            decreases bytes@.len() - cur,
        {
            if cur >= bytes.len() {
                return Err(ParseError::Malformed);
            }
            if bytes[cur] == 101 {
                // the dictionary is complete: all required fields or nothing
                match (a_announce, info_seen) {
                    (Some(announce), true) => {
                        match (i_name, i_pl, i_pieces, i_len) {
                            (Some(name), Some(piece_length), Some(pieces), Some(length)) => {
                                if pieces.len() % 20 != 0 {
                                    return Err(ParseError::Malformed);
                                }
                                let info = Info { name, piece_length, pieces, length };
                                return Ok(
                                    Torrent {
                                        announce,
                                        info,
                                        comment: a_comment,
                                        creation_date: a_creation,
                                    },
                                );
                            },
                            _ => {
                                return Err(ParseError::Malformed);
                            },
                        }
                    },
                    _ => {
                        return Err(ParseError::Malformed);
                    },
                }
            }
            match parse_str_token(bytes, cur) {
                None => {
                    return Err(ParseError::Malformed);
                },
                Some((ks, ke)) => {
                    let key = sub_vec(bytes, ks, ke);
                    assert(key@ == str_content(bytes@, cur as int));
                    if bytes_eq(&key, &key_announce_vec()) {
                        match parse_str_token(bytes, ke) {
                            None => {
                                return Err(ParseError::Malformed);
                            },
                            Some((vs, ve)) => {
                                let v = sub_vec(bytes, vs, ve);
                                assert(v@ == str_content(bytes@, ke as int));
                                proof {
                                    gacc = TorrentFields { announce: Some(v@), ..gacc };
                                    fuel = (fuel - 1) as nat;
                                }
                                a_announce = Some(v);
                                cur = ve;
                            },
                        }
                    } else if bytes_eq(&key, &key_comment_vec()) {
                        match parse_str_token(bytes, ke) {
                            None => {
                                return Err(ParseError::Malformed);
                            },
                            Some((vs, ve)) => {
                                let v = sub_vec(bytes, vs, ve);
                                assert(v@ == str_content(bytes@, ke as int));
                                proof {
                                    gacc = TorrentFields { comment: Some(v@), ..gacc };
                                    fuel = (fuel - 1) as nat;
                                }
                                a_comment = Some(v);
                                cur = ve;
                            },
                        }
                    } else if bytes_eq(&key, &key_creation_date_vec()) {
                        match parse_int_token(bytes, ke) {
                            None => {
                                return Err(ParseError::Malformed);
                            },
                            Some((v, ve)) => {
                                proof {
                                    gacc = TorrentFields {
                                        creation_date: Some(v as int),
                                        ..gacc
                                    };
                                    fuel = (fuel - 1) as nat;
                                }
                                a_creation = Some(v);
                                cur = ve;
                            },
                        }
                    } else if bytes_eq(&key, &key_info_vec()) {
                        if ke >= bytes.len() {
                            return Err(ParseError::Malformed);
                        }
                        if bytes[ke] != 100 {
                            return Err(ParseError::Malformed);
                        }
                        match parse_info_entries(bytes, ke + 1, Ghost((fuel - 1) as nat)) {
                            None => {
                                return Err(ParseError::Malformed);
                            },
                            Some((nm, pl, pc, ln, next)) => {
                                proof {
                                    let q = info_walk(
                                        bytes@,
                                        ke as int + 1,
                                        empty_info_fields(),
                                        (fuel - 1) as nat,
                                    ).unwrap();
                                    gacc = TorrentFields { info: Some(q.0), ..gacc };
                                    fuel = (fuel - 1) as nat;
                                }
                                info_seen = true;
                                i_name = nm;
                                i_pl = pl;
                                i_pieces = pc;
                                i_len = ln;
                                cur = next;
                            },
                        }
                    } else {
                        match skip_value(bytes, ke) {
                            None => {
                                return Err(ParseError::Malformed);
                            },
                            Some(j) => {
                                proof {
                                    fuel = (fuel - 1) as nat;
                                }
                                cur = j;
                            },
                        }
                    }
                },
            }
        }
    }
}

/// A decimal rendering embedded in a larger sequence reads back as its value.
proof fn lemma_dec_value_of_rep(s: Seq<u8>, i: int, n: int)
    requires
        n >= 0,
        0 <= i,
        i + dec_rep(n).len() <= s.len(),
        s.subrange(i, i + dec_rep(n).len()) == dec_rep(n),
    ensures
        dec_value(s, i, i + dec_rep(n).len()) == n,
    decreases n,
{
    let l = dec_rep(n).len() as int;
    if n < 10 {
        assert(s[i] == s.subrange(i, i + l)[0]);
        assert(dec_value(s, i, i) == 0);
        assert(dec_value(s, i, i + 1) == dec_value(s, i, i) * 10 + (s[i] - 48));
        assert(s[i] == (48 + n) as u8);
    } else {
        let l0 = dec_rep(n / 10).len() as int;
        assert(dec_rep(n) == dec_rep(n / 10).push((48 + n % 10) as u8));
        assert(l == l0 + 1);
        assert(s.subrange(i, i + l0) =~= dec_rep(n / 10)) by {
            assert(forall|k: int|
                0 <= k < l0 ==> s.subrange(i, i + l)[k] == #[trigger] dec_rep(n / 10)[k]);
        }
        lemma_dec_value_of_rep(s, i, n / 10);
        assert(s[i + l - 1] == s.subrange(i, i + l)[l - 1]);
        assert(s[i + l - 1] == 48 + n % 10);
        assert(dec_value(s, i, i + l) == (n / 10) * 10 + n % 10);
    }
}

/// A bencode byte string embedded in a larger sequence scans as one token
/// holding exactly its content.
proof fn lemma_str_token_at(s: Seq<u8>, i: int, c: Seq<u8>)
    requires
        0 <= i,
        i + bencode_str(c).len() <= s.len(),
        s.subrange(i, i + bencode_str(c).len()) == bencode_str(c),
    ensures
        str_valid(s, i),
        str_content(s, i) == c,
        str_end(s, i) == i + bencode_str(c).len(),
{
    let cl = c.len() as int;
    let dl = dec_rep(cl).len() as int;
    let bl = bencode_str(c).len() as int;
    lemma_dec_rep_digits(cl);
    assert(bl == dl + 1 + cl);
    assert forall|k: int| i <= k < i + dl implies is_digit(s[k]) by {
        assert(s[k] == s.subrange(i, i + bl)[k - i]);
        assert(s.subrange(i, i + bl)[k - i] == dec_rep(cl)[k - i]);
    }
    assert(s[i + dl] == s.subrange(i, i + bl)[dl]);
    assert(s[i + dl] == 58);
    lemma_digits_end_of_run(s, i, i + dl);
    assert(s.subrange(i, i + dl) =~= dec_rep(cl)) by {
        assert(forall|k: int|
            0 <= k < dl ==> s.subrange(i, i + bl)[k] == #[trigger] dec_rep(cl)[k]);
    }
    lemma_dec_value_of_rep(s, i, cl);
    assert(s[i] == s.subrange(i, i + bl)[0]);
    assert(str_valid(s, i));
    assert(str_content(s, i) =~= c) by {
        assert(forall|k: int|
            0 <= k < cl ==> s.subrange(i, i + bl)[dl + 1 + k] == #[trigger] c[k]);
    }
}

/// A bencode integer embedded in a larger sequence scans as one token
/// holding exactly its value.
proof fn lemma_int_token_at(s: Seq<u8>, i: int, n: int)
    requires
        i64::MIN <= n <= i64::MAX,
        0 <= i,
        i + bencode_int(n).len() <= s.len(),
        s.subrange(i, i + bencode_int(n).len()) == bencode_int(n),
    ensures
        int_valid(s, i),
        int_value(s, i) == n,
        int_after(s, i) == i + bencode_int(n).len(),
{
    let bl = bencode_int(n).len() as int;
    assert(s[i] == s.subrange(i, i + bl)[0]);
    assert(s[i] == 105);
    if n >= 0 {
        let dl = dec_rep(n).len() as int;
        lemma_dec_rep_digits(n);
        assert(bl == dl + 2);
        assert(s[i + 1] == s.subrange(i, i + bl)[1]);
        assert(s[i + 1] == dec_rep(n)[0]);
        assert(!crate::bencode::int_is_neg(s, i));
        assert forall|k: int| i + 1 <= k < i + 1 + dl implies is_digit(s[k]) by {
            assert(s[k] == s.subrange(i, i + bl)[k - i]);
            assert(s.subrange(i, i + bl)[k - i] == dec_rep(n)[k - i - 1]);
        }
        assert(s[i + 1 + dl] == s.subrange(i, i + bl)[1 + dl]);
        assert(s[i + 1 + dl] == 101);
        lemma_digits_end_of_run(s, i + 1, i + 1 + dl);
        assert(s.subrange(i + 1, i + 1 + dl) =~= dec_rep(n)) by {
            assert(forall|k: int|
                0 <= k < dl ==> s.subrange(i, i + bl)[1 + k] == #[trigger] dec_rep(n)[k]);
        }
        lemma_dec_value_of_rep(s, i + 1, n);
    } else {
        let m = -n;
        let dl = dec_rep(m).len() as int;
        lemma_dec_rep_digits(m);
        assert(bl == dl + 3);
        assert(s[i + 1] == s.subrange(i, i + bl)[1]);
        assert(s[i + 1] == 45);
        assert(crate::bencode::int_is_neg(s, i));
        assert forall|k: int| i + 2 <= k < i + 2 + dl implies is_digit(s[k]) by {
            assert(s[k] == s.subrange(i, i + bl)[k - i]);
            assert(s.subrange(i, i + bl)[k - i] == dec_rep(m)[k - i - 2]);
        }
        assert(s[i + 2 + dl] == s.subrange(i, i + bl)[2 + dl]);
        assert(s[i + 2 + dl] == 101);
        lemma_digits_end_of_run(s, i + 2, i + 2 + dl);
        assert(s.subrange(i + 2, i + 2 + dl) =~= dec_rep(m)) by {
            assert(forall|k: int|
                0 <= k < dl ==> s.subrange(i, i + bl)[2 + k] == #[trigger] dec_rep(m)[k]);
        }
        lemma_dec_value_of_rep(s, i + 2, m);
    }
}

/// Round-trip fidelity of the info block, the invariant the info hash rests
/// on: walking the canonical encoding of an info block yields exactly its
/// four fields, and consumes the whole encoding. With `parse`'s and
/// `encode_info`'s contracts this says that a parsed info block re-encodes
/// to the very bytes the file held, so hashing the re-encoding hashes those
/// bytes themselves.
#[verifier::rlimit(100)]
pub proof fn lemma_info_encoding_parses(info: Info, fuel: nat)
    requires
        fuel >= 5,
    ensures
        info_walk(info.encoding(), 1, empty_info_fields(), fuel) == Some(
            (
                InfoFields {
                    name: Some(info.name@),
                    piece_length: Some(info.piece_length as int),
                    pieces: Some(info.pieces@),
                    length: Some(info.length as int),
                },
                info.encoding().len() as int,
            ),
        ),
{
    let s = info.encoding();
    let kl = bencode_str(key_length());
    let vl = bencode_int(info.length as int);
    let kn = bencode_str(key_name());
    let vn = bencode_str(info.name@);
    let kp = bencode_str(key_piece_length());
    let vp = bencode_int(info.piece_length as int);
    let kc = bencode_str(key_pieces());
    let vc = bencode_str(info.pieces@);
    let p1: int = 1;
    let p2 = p1 + kl.len();
    let p3 = p2 + vl.len();
    let p4 = p3 + kn.len();
    let p5 = p4 + vn.len();
    let p6 = p5 + kp.len();
    let p7 = p6 + vp.len();
    let p8 = p7 + kc.len();
    let p9 = p8 + vc.len();
    assert(s.len() == p9 + 1);
    assert(s.subrange(p1, p2) =~= kl) by {
        assert(s == seq![100u8] + kl + vl + kn + vn + kp + vp + kc + vc + seq![101u8]);
    }
    assert(s.subrange(p2, p3) =~= vl) by {
        assert(s == seq![100u8] + kl + vl + kn + vn + kp + vp + kc + vc + seq![101u8]);
    }
    assert(s.subrange(p3, p4) =~= kn) by {
        assert(s == seq![100u8] + kl + vl + kn + vn + kp + vp + kc + vc + seq![101u8]);
    }
    assert(s.subrange(p4, p5) =~= vn) by {
        assert(s == seq![100u8] + kl + vl + kn + vn + kp + vp + kc + vc + seq![101u8]);
    }
    assert(s.subrange(p5, p6) =~= kp) by {
        assert(s == seq![100u8] + kl + vl + kn + vn + kp + vp + kc + vc + seq![101u8]);
    }
    assert(s.subrange(p6, p7) =~= vp) by {
        assert(s == seq![100u8] + kl + vl + kn + vn + kp + vp + kc + vc + seq![101u8]);
    }
    assert(s.subrange(p7, p8) =~= kc) by {
        assert(s == seq![100u8] + kl + vl + kn + vn + kp + vp + kc + vc + seq![101u8]);
    }
    assert(s.subrange(p8, p9) =~= vc) by {
        assert(s == seq![100u8] + kl + vl + kn + vn + kp + vp + kc + vc + seq![101u8]);
    }
    lemma_str_token_at(s, p1, key_length());
    lemma_int_token_at(s, p2, info.length as int);
    lemma_str_token_at(s, p3, key_name());
    lemma_str_token_at(s, p4, info.name@);
    lemma_str_token_at(s, p5, key_piece_length());
    lemma_int_token_at(s, p6, info.piece_length as int);
    lemma_str_token_at(s, p7, key_pieces());
    lemma_str_token_at(s, p8, info.pieces@);
    assert(s[p9] == 101);
    assert(key_name() != key_length());
    assert(key_piece_length() != key_length());
    assert(key_piece_length() != key_name());
    assert(key_pieces() != key_length()) by {
        assert(key_pieces()[0] == 112 && key_length()[0] == 108);
    }
    assert(key_pieces() != key_name());
    assert(key_pieces() != key_piece_length());
    assert(is_digit(s[p1]) && s[p1] != 101) by {
        lemma_dec_rep_digits(key_length().len() as int);
        assert(s[p1] == s.subrange(p1, p2)[0]);
    }
    let acc0 = empty_info_fields();
    let acc1 = InfoFields {
        length: Some(info.length as int),
        name: acc0.name,
        piece_length: acc0.piece_length,
        pieces: acc0.pieces,
    };
    let acc2 = InfoFields {
        name: Some(info.name@),
        piece_length: acc1.piece_length,
        pieces: acc1.pieces,
        length: acc1.length,
    };
    let acc3 = InfoFields {
        piece_length: Some(info.piece_length as int),
        name: acc2.name,
        pieces: acc2.pieces,
        length: acc2.length,
    };
    let acc4 = InfoFields {
        pieces: Some(info.pieces@),
        name: acc3.name,
        piece_length: acc3.piece_length,
        length: acc3.length,
    };
    let f1 = (fuel - 1) as nat;
    let f2 = (f1 - 1) as nat;
    let f3 = (f2 - 1) as nat;
    let f4 = (f3 - 1) as nat;
    assert(info_walk(s, p1, acc0, fuel) == info_walk(s, p3, acc1, f1)) by {
    }
    assert(info_walk(s, p3, acc1, f1) == info_walk(s, p5, acc2, f2)) by {
    }
    assert(info_walk(s, p5, acc2, f2) == info_walk(s, p7, acc3, f3)) by {
    }
    assert(info_walk(s, p7, acc3, f3) == info_walk(s, p9, acc4, f4)) by {
    }
    assert(info_walk(s, p9, acc4, f4) == Some((acc4, p9 + 1))) by {
    }
    assert(acc4 == InfoFields {
        name: Some(info.name@),
        piece_length: Some(info.piece_length as int),
        pieces: Some(info.pieces@),
        length: Some(info.length as int),
    });
}

/// The info hash depends on the info block's content alone: two torrents
/// whose info fields hold the same bytes and numbers get one hash, however
/// often and on whichever copy it is computed.
pub proof fn lemma_info_hash_deterministic(a: Torrent, b: Torrent)
    requires
        a.info.name@ == b.info.name@,
        a.info.piece_length == b.info.piece_length,
        a.info.pieces@ == b.info.pieces@,
        a.info.length == b.info.length,
    ensures
        sha1_of(a.info.encoding()) == sha1_of(b.info.encoding()),
{
    assert(a.info.encoding() =~= b.info.encoding());
}

} // verus!
