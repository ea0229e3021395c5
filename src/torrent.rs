//! Torrent metadata: decoding, the canonical encoding of the content
//! descriptor, its info hash, and the client's peer id.
use vstd::prelude::*;
use vstd::slice::slice_subrange;
use vstd::slice::slice_to_vec;
use crate::bencode::{
    check_document, dict_field, dict_lookup, document_ok, enc_string, enc_uint, entries_end,
    find_key, int_at, lemma_entry_step, lemma_int_at_enc, lemma_string_at_enc, scan_string,
    scan_uint, string_at, string_field, uint_field, value_end,
};
use crate::text::{append_bytes, append_decimal, hex_encode, hex_lower, lemma_hex_lower_len};

verus! {

pub open spec fn key_announce() -> Seq<u8> {
    seq![97u8, 110, 110, 111, 117, 110, 99, 101]
}

pub open spec fn key_info() -> Seq<u8> {
    seq![105u8, 110, 102, 111]
}

pub open spec fn key_name() -> Seq<u8> {
    seq![110u8, 97, 109, 101]
}

pub open spec fn key_piece_length() -> Seq<u8> {
    seq![112u8, 105, 101, 99, 101, 32, 108, 101, 110, 103, 116, 104]
}

pub open spec fn key_pieces() -> Seq<u8> {
    seq![112u8, 105, 101, 99, 101, 115]
}

pub open spec fn key_length() -> Seq<u8> {
    seq![108u8, 101, 110, 103, 116, 104]
}

/// The prefix of this client's peer id, `-RS1337-`.
pub open spec fn client_prefix() -> Seq<u8> {
    seq![45u8, 82, 83, 49, 51, 51, 55, 45]
}

pub open spec fn is_alphanumeric(c: u8) -> bool {
    (48 <= c <= 57) || (65 <= c <= 90) || (97 <= c <= 122)
}

/// Why a torrent file could not be decoded.
#[derive(Debug, Clone, Copy, PartialEq, Eq, Structural)]
pub enum DecodeError {
    /// The bytes are not one well-formed bencoded value.
    Syntax,
    /// The value is well formed but not a torrent: not a mapping, a field
    /// missing or of the wrong kind, or an invalid piece layout.
    Shape,
}

/// The content descriptor: the part of the metadata that the info hash covers.
#[derive(Debug, Clone)]
pub struct Info {
    /// Suggested name to save the content as.
    pub name: Vec<u8>,
    /// Number of bytes in each piece.
    pub piece_length: u64,
    /// Concatenated 20-byte SHA-1 digests, one per piece.
    pub pieces: Vec<u8>,
    /// Size of the content in bytes.
    pub length: u64,
}

/// Decoded torrent metadata.
#[derive(Debug, Clone)]
pub struct Torrent {
    /// Tracker URL (empty where the file names none).
    pub announce: Vec<u8>,
    pub info: Info,
}

/// The fields of the content descriptor whose mapping entries start at `d`:
/// name, piece length, pieces and length.
pub open spec fn info_fields(s: Seq<u8>, d: int) -> Option<(Seq<u8>, int, Seq<u8>, int)> {
    match (
        string_field(s, d, key_name(), false),
        uint_field(s, d, key_piece_length(), true),
        string_field(s, d, key_pieces(), true),
        uint_field(s, d, key_length(), false),
    ) {
        (Some(n), Some(pl), Some(pc), Some(l)) => if pl > 0 && pc.len() % 20 == 0 {
            Some((n, pl, pc, l))
        } else {
            None
        },
        _ => None,
    }
}

/// The fields of the torrent that `s` encodes: announce, name, piece length,
/// pieces and length.
pub open spec fn torrent_fields(s: Seq<u8>) -> Option<(Seq<u8>, Seq<u8>, int, Seq<u8>, int)> {
    if s.len() > 0 && s[0] == 100 {
        match (string_field(s, 1, key_announce(), false), dict_field(s, 1, key_info())) {
            (Some(a), Some(d)) => match info_fields(s, d) {
                Some((n, pl, pc, l)) => Some((a, n, pl, pc, l)),
                None => None,
            },
            _ => None,
        }
    } else {
        None
    }
}

/// The fields of the content descriptor that `s` encodes on its own.
pub open spec fn descriptor_fields(s: Seq<u8>) -> Option<(Seq<u8>, int, Seq<u8>, int)> {
    if s.len() > 0 && s[0] == 100 {
        info_fields(s, 1)
    } else {
        None
    }
}

/// The canonical encoding of a content descriptor: a mapping with its keys in
/// byte order (`length`, `name`, `piece length`, `pieces`).
pub open spec fn info_encoding(name: Seq<u8>, piece_length: nat, pieces: Seq<u8>, length: nat) -> Seq<u8> {
    seq![100u8] + enc_string(key_length()) + enc_uint(length) + enc_string(key_name())
        + enc_string(name) + enc_string(key_piece_length()) + enc_uint(piece_length)
        + enc_string(key_pieces()) + enc_string(pieces) + seq![101u8]
}

/// Name for the SHA-1 digest of a byte sequence.
pub uninterp spec fn sha1_digest(b: Seq<u8>) -> Seq<u8>;

/// Relies on sha1::Sha1 (through digest::Digest::digest): the 20-byte SHA-1
/// digest of the input.
#[verifier::external_body]
fn sha1(b: &[u8]) -> (r: Vec<u8>)
    ensures
        r@ == sha1_digest(b@),
        r@.len() == 20,
{
    <sha1::Sha1 as sha1::Digest>::digest(b).to_vec()
}

/// Relies on rand 0.8: `thread_rng` sampled with `Alphanumeric`, whose every
/// draw is an ASCII letter or digit.
#[verifier::external_body]
fn random_alphanumeric(n: usize) -> (r: Vec<u8>)
    ensures
        r@.len() == n,
        forall|i: int| 0 <= i < n ==> is_alphanumeric(#[trigger] r@[i]),
{
    rand::Rng::sample_iter(rand::thread_rng(), rand::distributions::Alphanumeric).take(n).collect()
}

fn copy_range(s: &[u8], a: usize, e: usize) -> (r: Vec<u8>)
    requires
        a <= e <= s@.len(),
    ensures
        r@ == s@.subrange(a as int, e as int),
{
    slice_to_vec(slice_subrange(s, a, e))
}

/// Reads a byte-string field (see `string_field`).
pub fn read_string_field(s: &[u8], d: usize, key: &[u8], required: bool) -> (r: Option<Vec<u8>>)
    requires
        d <= s@.len(),
    ensures
        r is Some <==> string_field(s@, d as int, key@, required) is Some,
        r matches Some(v) ==> string_field(s@, d as int, key@, required) == Some(v@),
{
    match find_key(s, d, key) {
        None => if required {
            None
        } else {
            Some(Vec::new())
        },
        Some(a) => match scan_string(s, a) {
            Some((b, e)) => Some(copy_range(s, b, e)),
            None => None,
        },
    }
}

/// Reads an unsigned integer field (see `uint_field`).
pub fn read_uint_field(s: &[u8], d: usize, key: &[u8], required: bool) -> (r: Option<u64>)
    requires
        d <= s@.len(),
    ensures
        r is Some <==> uint_field(s@, d as int, key@, required) is Some,
        r matches Some(v) ==> uint_field(s@, d as int, key@, required) == Some(v as int),
{
    match find_key(s, d, key) {
        None => if required {
            None
        } else {
            Some(0)
        },
        Some(a) => match scan_uint(s, a) {
            Some((v, _)) => Some(v),
            None => None,
        },
    }
}

/// Finds where the entries of a nested mapping field start (see `dict_field`).
pub fn read_dict_field(s: &[u8], d: usize, key: &[u8]) -> (r: Option<usize>)
    requires
        d <= s@.len(),
    ensures
        r is Some <==> dict_field(s@, d as int, key@) is Some,
        r matches Some(a) ==> a <= s@.len() && dict_field(s@, d as int, key@) == Some(a as int),
{
    match find_key(s, d, key) {
        Some(a) => if a < s.len() && s[a] == 100 {
            Some(a + 1)
        } else {
            None
        },
        None => None,
    }
}

/// Reads the content descriptor whose mapping entries start at `d`.
fn read_info(s: &[u8], d: usize) -> (r: Option<Info>)
    requires
        d <= s@.len(),
    ensures
        r is Some <==> info_fields(s@, d as int) is Some,
        r matches Some(i) ==> i.wf() && info_fields(s@, d as int) == Some(
            (i.name@, i.piece_length as int, i.pieces@, i.length as int),
        ),
{
    let name = read_string_field(s, d, &[110u8, 97, 109, 101], false);
    let piece_length = read_uint_field(
        s,
        d,
        &[112u8, 105, 101, 99, 101, 32, 108, 101, 110, 103, 116, 104],
        true,
    );
    let pieces = read_string_field(s, d, &[112u8, 105, 101, 99, 101, 115], true);
    let length = read_uint_field(s, d, &[108u8, 101, 110, 103, 116, 104], false);
    match (name, piece_length, pieces, length) {
        (Some(name), Some(piece_length), Some(pieces), Some(length)) => {
            if piece_length > 0 && pieces.len() % 20 == 0 {
                Some(Info { name, piece_length, pieces, length })
            } else {
                None
            }
        },
        _ => None,
    }
}

impl Info {
    /// Decodes a content descriptor that stands on its own, such as its
    /// canonical encoding.
    pub fn from_bytes(contents: &[u8]) -> (r: Result<Info, DecodeError>)
        ensures
            r == Err::<Info, DecodeError>(DecodeError::Syntax) <==> !document_ok(contents@),
            r == Err::<Info, DecodeError>(DecodeError::Shape) <==> document_ok(contents@)
                && descriptor_fields(contents@) is None,
            r matches Ok(i) ==> i.wf() && descriptor_fields(contents@) == Some(
                (i.name@, i.piece_length as int, i.pieces@, i.length as int),
            ),
    {
        if !check_document(contents) {
            return Err(DecodeError::Syntax);
        }
        if contents.len() == 0 || contents[0] != 100 {
            return Err(DecodeError::Shape);
        }
        match read_info(contents, 1) {
            Some(info) => Ok(info),
            None => Err(DecodeError::Shape),
        }
    }

    pub open spec fn wf(&self) -> bool {
        self.piece_length > 0 && self.pieces@.len() % 20 == 0
    }

    /// The canonical encoding of this descriptor.
    pub open spec fn encoding(&self) -> Seq<u8> {
        info_encoding(self.name@, self.piece_length as nat, self.pieces@, self.length as nat)
    }

    /// The info hash of this descriptor.
    pub open spec fn hash(&self) -> Seq<u8> {
        sha1_digest(self.encoding())
    }

    /// Number of piece hashes held.
    pub open spec fn piece_count(&self) -> int {
        self.pieces@.len() as int / 20
    }

    /// Hex rendering of the `i`-th piece hash.
    pub open spec fn piece_hash_hex(&self, i: int) -> Seq<char> {
        hex_lower(self.pieces@.subrange(20 * i, 20 * i + 20))
    }

    /// Canonically re-encodes this descriptor.
    pub fn canonical_encoding(&self) -> (r: Vec<u8>)
        ensures
            r@ == self.encoding(),
    {
        let mut out: Vec<u8> = Vec::new();
        out.push(100u8);
        append_string(&mut out, &[108u8, 101, 110, 103, 116, 104]);
        append_uint(&mut out, self.length);
        append_string(&mut out, &[110u8, 97, 109, 101]);
        append_string(&mut out, self.name.as_slice());
        append_string(&mut out, &[112u8, 105, 101, 99, 101, 32, 108, 101, 110, 103, 116, 104]);
        append_uint(&mut out, self.piece_length);
        append_string(&mut out, &[112u8, 105, 101, 99, 101, 115]);
        append_string(&mut out, self.pieces.as_slice());
        out.push(101u8);
        proof {
            assert(out@ =~= self.encoding());
        }
        out
    }
}

fn append_string(out: &mut Vec<u8>, b: &[u8])
    ensures
        final(out)@ == old(out)@ + enc_string(b@),
{
    let n = b.len();
    assert(n as u64 == n);
    append_decimal(out, n as u64);
    out.push(58u8);
    append_bytes(out, b);
    proof {
        assert(final(out)@ =~= old(out)@ + enc_string(b@));
    }
}

fn append_uint(out: &mut Vec<u8>, n: u64)
    ensures
        final(out)@ == old(out)@ + enc_uint(n as nat),
{
    out.push(105u8);
    append_decimal(out, n);
    out.push(101u8);
    proof {
        assert(final(out)@ =~= old(out)@ + enc_uint(n as nat));
    }
}

/// The info hash depends on the descriptor's field values alone: two
/// descriptors with equal fields have equal info hashes, and so do two
/// computations of one descriptor's hash.
pub proof fn lemma_info_hash_deterministic(a: &Info, b: &Info)
    requires
        a.name@ == b.name@,
        a.piece_length == b.piece_length,
        a.pieces@ == b.pieces@,
        a.length == b.length,
    ensures
        a.encoding() == b.encoding(),
        a.hash() == b.hash(),
{
}

proof fn lemma_prefix_subrange(x: Seq<u8>, y: Seq<u8>, a: int, b: int)
    requires
        0 <= a <= b <= x.len(),
    ensures
        (x + y).subrange(a, b) == x.subrange(a, b),
{
    assert((x + y).subrange(a, b) =~= x.subrange(a, b));
}

proof fn lemma_last_subrange(x: Seq<u8>, y: Seq<u8>)
    ensures
        (x + y).subrange(x.len() as int, (x.len() + y.len()) as int) == y,
{
    assert((x + y).subrange(x.len() as int, (x.len() + y.len()) as int) =~= y);
}

/// Where each part of the canonical encoding stands.
proof fn lemma_encoding_layout(d: &Info)
    ensures
        ({
            let s = d.encoding();
            let e1 = enc_string(key_length());
            let e2 = enc_uint(d.length as nat);
            let e3 = enc_string(key_name());
            let e4 = enc_string(d.name@);
            let e5 = enc_string(key_piece_length());
            let e6 = enc_uint(d.piece_length as nat);
            let e7 = enc_string(key_pieces());
            let e8 = enc_string(d.pieces@);
            let p1: int = 1 + e1.len() as int;
            let p2: int = p1 + e2.len();
            let p3: int = p2 + e3.len();
            let p4: int = p3 + e4.len();
            let p5: int = p4 + e5.len();
            let p6: int = p5 + e6.len();
            let p7: int = p6 + e7.len();
            let p8: int = p7 + e8.len();
            &&& s.len() == p8 + 1
            &&& s[0] == 100
            &&& s[p8] == 101
            &&& s.subrange(1, p1) == e1
            &&& s.subrange(p1, p2) == e2
            &&& s.subrange(p2, p3) == e3
            &&& s.subrange(p3, p4) == e4
            &&& s.subrange(p4, p5) == e5
            &&& s.subrange(p5, p6) == e6
            &&& s.subrange(p6, p7) == e7
            &&& s.subrange(p7, p8) == e8
        }),
{
    let e1 = enc_string(key_length());
    let e2 = enc_uint(d.length as nat);
    let e3 = enc_string(key_name());
    let e4 = enc_string(d.name@);
    let e5 = enc_string(key_piece_length());
    let e6 = enc_uint(d.piece_length as nat);
    let e7 = enc_string(key_pieces());
    let e8 = enc_string(d.pieces@);
    let q0 = seq![100u8];
    let q1 = q0 + e1;
    let q2 = q1 + e2;
    let q3 = q2 + e3;
    let q4 = q3 + e4;
    let q5 = q4 + e5;
    let q6 = q5 + e6;
    let q7 = q6 + e7;
    let q8 = q7 + e8;
    let s = q8 + seq![101u8];
    assert(s == d.encoding());
    lemma_last_subrange(q0, e1);
    lemma_last_subrange(q1, e2);
    lemma_last_subrange(q2, e3);
    lemma_last_subrange(q3, e4);
    lemma_last_subrange(q4, e5);
    lemma_last_subrange(q5, e6);
    lemma_last_subrange(q6, e7);
    lemma_last_subrange(q7, e8);
    let l1 = q1.len() as int;
    let l2 = q2.len() as int;
    let l3 = q3.len() as int;
    let l4 = q4.len() as int;
    let l5 = q5.len() as int;
    let l6 = q6.len() as int;
    let l7 = q7.len() as int;
    let l8 = q8.len() as int;
    lemma_prefix_subrange(q8, seq![101u8], l7, l8);
    lemma_prefix_subrange(q8, seq![101u8], l6, l7);
    lemma_prefix_subrange(q7, e8, l6, l7);
    lemma_prefix_subrange(q8, seq![101u8], l5, l6);
    lemma_prefix_subrange(q7, e8, l5, l6);
    lemma_prefix_subrange(q6, e7, l5, l6);
    lemma_prefix_subrange(q8, seq![101u8], l4, l5);
    lemma_prefix_subrange(q7, e8, l4, l5);
    lemma_prefix_subrange(q6, e7, l4, l5);
    lemma_prefix_subrange(q5, e6, l4, l5);
    lemma_prefix_subrange(q8, seq![101u8], l3, l4);
    lemma_prefix_subrange(q7, e8, l3, l4);
    lemma_prefix_subrange(q6, e7, l3, l4);
    lemma_prefix_subrange(q5, e6, l3, l4);
    lemma_prefix_subrange(q4, e5, l3, l4);
    lemma_prefix_subrange(q8, seq![101u8], l2, l3);
    lemma_prefix_subrange(q7, e8, l2, l3);
    lemma_prefix_subrange(q6, e7, l2, l3);
    lemma_prefix_subrange(q5, e6, l2, l3);
    lemma_prefix_subrange(q4, e5, l2, l3);
    lemma_prefix_subrange(q3, e4, l2, l3);
    lemma_prefix_subrange(q8, seq![101u8], l1, l2);
    lemma_prefix_subrange(q7, e8, l1, l2);
    lemma_prefix_subrange(q6, e7, l1, l2);
    lemma_prefix_subrange(q5, e6, l1, l2);
    lemma_prefix_subrange(q4, e5, l1, l2);
    lemma_prefix_subrange(q3, e4, l1, l2);
    lemma_prefix_subrange(q2, e3, l1, l2);
    lemma_prefix_subrange(q8, seq![101u8], 1, l1);
    lemma_prefix_subrange(q7, e8, 1, l1);
    lemma_prefix_subrange(q6, e7, 1, l1);
    lemma_prefix_subrange(q5, e6, 1, l1);
    lemma_prefix_subrange(q4, e5, 1, l1);
    lemma_prefix_subrange(q3, e4, 1, l1);
    lemma_prefix_subrange(q2, e3, 1, l1);
    lemma_prefix_subrange(q1, e2, 1, l1);
    assert(s[0] == q0[0]);
    assert(s[l8] == 101);
}

/// Decoding the canonical encoding of a well-formed content descriptor gives
/// back a descriptor with the same field values: the encoding is one
/// well-formed value, and its name, piece length, pieces and length read back
/// as they were.
pub proof fn lemma_canonical_round_trip(d: &Info)
    requires
        d.wf(),
    ensures
        document_ok(d.encoding()),
        descriptor_fields(d.encoding()) == Some(
            (d.name@, d.piece_length as int, d.pieces@, d.length as int),
        ),
{
    let s = d.encoding();
    lemma_entries(d);
    assert(value_end(s, 0) == Some(s.len() as int));
}

proof fn lemma_distinct_keys()
    ensures
        key_length() != key_name(),
        key_length() != key_piece_length(),
        key_length() != key_pieces(),
        key_name() != key_piece_length(),
        key_name() != key_pieces(),
        key_piece_length() != key_pieces(),
{
    assert(key_length().len() != key_name().len());
    assert(key_length().len() != key_piece_length().len());
    assert(key_length()[0] != key_pieces()[0]);
    assert(key_name().len() != key_piece_length().len());
    assert(key_name().len() != key_pieces().len());
    assert(key_piece_length().len() != key_pieces().len());
}

/// The four entries of the canonical encoding, as the grammar walks them.
#[verifier::rlimit(40)]
proof fn lemma_entries(d: &Info)
    ensures
        ({
            let s = d.encoding();
            let p1: int = 1 + enc_string(key_length()).len() as int;
            let p2: int = p1 + enc_uint(d.length as nat).len();
            let p3: int = p2 + enc_string(key_name()).len();
            let p4: int = p3 + enc_string(d.name@).len();
            let p5: int = p4 + enc_string(key_piece_length()).len();
            let p6: int = p5 + enc_uint(d.piece_length as nat).len();
            let p7: int = p6 + enc_string(key_pieces()).len();
            &&& entries_end(s, 1) == Some(s.len() as int)
            &&& dict_lookup(s, 1, key_length()) == Some(p1)
            &&& dict_lookup(s, 1, key_name()) == Some(p3)
            &&& dict_lookup(s, 1, key_piece_length()) == Some(p5)
            &&& dict_lookup(s, 1, key_pieces()) == Some(p7)
            &&& string_at(s, p3) == Some((d.name@, p4))
            &&& int_at(s, p5) == Some((d.piece_length as int, p6))
            &&& string_at(s, p7) == Some((d.pieces@, s.len() - 1))
            &&& int_at(s, p1) == Some((d.length as int, p2))
            &&& s[0] == 100
        }),
{
    let s = d.encoding();
    lemma_encoding_layout(d);
    lemma_distinct_keys();
    let p1: int = 1 + enc_string(key_length()).len() as int;
    let p2: int = p1 + enc_uint(d.length as nat).len();
    let p3: int = p2 + enc_string(key_name()).len();
    let p4: int = p3 + enc_string(d.name@).len();
    let p5: int = p4 + enc_string(key_piece_length()).len();
    let p6: int = p5 + enc_uint(d.piece_length as nat).len();
    let p7: int = p6 + enc_string(key_pieces()).len();
    let p8: int = p7 + enc_string(d.pieces@).len();
    lemma_string_at_enc(s, 1, key_length());
    lemma_int_at_enc(s, p1, d.length as nat);
    lemma_string_at_enc(s, p2, key_name());
    lemma_string_at_enc(s, p3, d.name@);
    lemma_string_at_enc(s, p4, key_piece_length());
    lemma_int_at_enc(s, p5, d.piece_length as nat);
    lemma_string_at_enc(s, p6, key_pieces());
    lemma_string_at_enc(s, p7, d.pieces@);
    assert(entries_end(s, p8) == Some(s.len() as int));
    lemma_entry_step(s, p6, key_pieces(), p7, p8, key_pieces());
    lemma_entry_step(s, p4, key_piece_length(), p5, p6, key_pieces());
    lemma_entry_step(s, p4, key_piece_length(), p5, p6, key_piece_length());
    lemma_entry_step(s, p2, key_name(), p3, p4, key_pieces());
    lemma_entry_step(s, p2, key_name(), p3, p4, key_piece_length());
    lemma_entry_step(s, p2, key_name(), p3, p4, key_name());
    lemma_entry_step(s, 1, key_length(), p1, p2, key_pieces());
    lemma_entry_step(s, 1, key_length(), p1, p2, key_piece_length());
    lemma_entry_step(s, 1, key_length(), p1, p2, key_name());
    lemma_entry_step(s, 1, key_length(), p1, p2, key_length());
}

impl Torrent {
    pub open spec fn wf(&self) -> bool {
        self.info.wf()
    }

    /// Decodes torrent metadata from the bytes of a torrent file.
    pub fn new(contents: &[u8]) -> (r: Result<Torrent, DecodeError>)
        ensures
            r == Err::<Torrent, DecodeError>(DecodeError::Syntax) <==> !document_ok(contents@),
            r == Err::<Torrent, DecodeError>(DecodeError::Shape) <==> document_ok(contents@)
                && torrent_fields(contents@) is None,
            r matches Ok(t) ==> t.wf() && torrent_fields(contents@) == Some(
                (
                    t.announce@,
                    t.info.name@,
                    t.info.piece_length as int,
                    t.info.pieces@,
                    t.info.length as int,
                ),
            ),
    {
        let s = contents;
        if !check_document(s) {
            return Err(DecodeError::Syntax);
        }
        if s.len() == 0 || s[0] != 100 {
            return Err(DecodeError::Shape);
        }
        let announce = match read_string_field(s, 1, &[97u8, 110, 110, 111, 117, 110, 99, 101], false) {
            Some(a) => a,
            None => {
                return Err(DecodeError::Shape);
            },
        };
        let d = match read_dict_field(s, 1, &[105u8, 110, 102, 111]) {
            Some(d) => d,
            None => {
                return Err(DecodeError::Shape);
            },
        };
        match read_info(s, d) {
            Some(info) => Ok(Torrent { announce, info }),
            None => Err(DecodeError::Shape),
        }
    }

    /// The info hash: the SHA-1 digest of the descriptor's canonical encoding.
    pub fn info_hash(&self) -> (r: Vec<u8>)
        ensures
            r@ == self.info.hash(),
            r@.len() == 20,
    {
        let enc = self.info.canonical_encoding();
        sha1(enc.as_slice())
    }

    /// The info hash as 40 lowercase hex digits.
    pub fn info_hash_hex(&self) -> (r: String)
        ensures
            r@ == hex_lower(self.info.hash()),
            r@.len() == 40,
    {
        let h = self.info_hash();
        proof {
            lemma_hex_lower_len(h@);
        }
        hex_encode(h.as_slice())
    }

    /// The piece hashes, each as 40 lowercase hex digits, in piece order.
    pub fn pieces_hashes(&self) -> (r: Vec<String>)
        requires
            self.wf(),
        ensures
            r@.len() == self.info.piece_count(),
            forall|i: int| 0 <= i < r@.len() ==> (#[trigger] r@[i])@ == self.info.piece_hash_hex(i)
                && r@[i]@.len() == 40,
    {
        let pieces = self.info.pieces.as_slice();
        let plen = pieces.len();
        let n = plen / 20;
        let mut out: Vec<String> = Vec::new();
        let mut i: usize = 0;
        while i < n
            invariant
                pieces@ == self.info.pieces@,
                n == self.info.piece_count(),
                n == plen / 20,
                plen == pieces@.len(),
                self.wf(),
                0 <= i <= n,
                out@.len() == i,
                forall|j: int| 0 <= j < i ==> (#[trigger] out@[j])@ == self.info.piece_hash_hex(j)
                    && out@[j]@.len() == 40,
            decreases n - i,
        {
            proof {
                assert(20 * i + 20 <= plen) by (nonlinear_arith)
                    requires
                        i < n,
                        n == plen / 20,
                ;
            }
            let chunk = slice_subrange(pieces, 20 * i, 20 * i + 20);
            let h = hex_encode(chunk);
            proof {
                lemma_hex_lower_len(chunk@);
            }
            out.push(h);
            i = i + 1;
        }
        out
    }

    /// Generates this client's peer id: `-RS1337-` and twelve random ASCII
    /// letters or digits.
    pub fn generate_client_id() -> (r: Vec<u8>)
        ensures
            r@.len() == 20,
            r@.subrange(0, 8) == client_prefix(),
            forall|i: int| 8 <= i < 20 ==> is_alphanumeric(#[trigger] r@[i]),
    {
        let suffix = random_alphanumeric(12);
        let r = client_id_with_suffix(suffix.as_slice());
        proof {
            assert(r@.subrange(0, 8) =~= client_prefix());
            assert forall|i: int| 8 <= i < 20 implies is_alphanumeric(#[trigger] r@[i]) by {
                assert(r@[i] == suffix@[i - 8]);
            }
        }
        r
    }
}

/// The peer id made of this client's prefix and `suffix`.
pub fn client_id_with_suffix(suffix: &[u8]) -> (r: Vec<u8>)
    ensures
        r@ == client_prefix() + suffix@,
{
    let mut r: Vec<u8> = Vec::new();
    append_bytes(&mut r, &[45u8, 82, 83, 49, 51, 51, 55, 45]);
    append_bytes(&mut r, suffix);
    proof {
        assert(r@ =~= client_prefix() + suffix@);
    }
    r
}

} // verus!
