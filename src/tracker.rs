//! Tracker client logic: the announce request, its query string and URL, and
//! the decoding of the tracker's reply into compact peer addresses.
use vstd::prelude::*;
use vstd::slice::slice_to_vec;
use crate::bencode::{check_document, document_ok, string_field, uint_field};
use crate::text::{
    append_bytes, append_decimal, ascii_chars, ascii_string, dec_digits, hex_digit_upper,
    is_ascii_bytes, lemma_dec_digits_ascii,
};
use crate::torrent::{read_string_field, read_uint_field, DecodeError, Torrent};

verus! {

pub open spec fn key_peers() -> Seq<u8> {
    seq![112u8, 101, 101, 114, 115]
}

pub open spec fn key_interval() -> Seq<u8> {
    seq![105u8, 110, 116, 101, 114, 118, 97, 108]
}

/// The port this client announces.
pub const LISTEN_PORT: u16 = 6881;

/// Bytes that percent-encoding leaves as they are: ASCII letters, digits, `-._~`.
pub open spec fn is_unreserved(c: u8) -> bool {
    (48 <= c <= 57) || (65 <= c <= 90) || (97 <= c <= 122) || c == 45 || c == 46 || c == 95
        || c == 126
}

/// Percent-encoding of one byte.
pub open spec fn url_byte(c: u8) -> Seq<u8> {
    if is_unreserved(c) {
        seq![c]
    } else {
        seq![37u8, hex_digit_upper(c as int / 16), hex_digit_upper(c as int % 16)]
    }
}

/// Percent-encoding of a byte sequence, byte by byte.
pub open spec fn url_encoded(b: Seq<u8>) -> Seq<u8>
    decreases b.len(),
{
    if b.len() == 0 {
        Seq::empty()
    } else {
        url_byte(b[0]) + url_encoded(b.drop_first())
    }
}

/// Name for the URL that `announce` gives once its query is replaced by `query`;
/// `None` where `announce` is no valid URL.
pub uninterp spec fn url_with_query(announce: Seq<u8>, query: Seq<u8>) -> Option<Seq<char>>;

/// Relies on urlencoding::encode_binary: every byte but ASCII letters, digits
/// and `-._~` becomes `%` and two uppercase hex digits.
#[verifier::external_body]
fn percent_encode(b: &[u8]) -> (r: Vec<u8>)
    ensures
        r@ == url_encoded(b@),
{
    urlencoding::encode_binary(b).into_owned().into_bytes()
}

/// Relies on url::Url (as re-exported by reqwest): `Url::parse` of the
/// announce URL, then `set_query` with the query.
#[verifier::external_body]
fn announce_url(announce: &[u8], query: &[u8]) -> (r: Option<String>)
    ensures
        match url_with_query(announce@, query@) {
            Some(u) => r matches Some(v) && v@ == u,
            None => r is None,
        },
{
    let a = std::str::from_utf8(announce).ok()?;
    let q = std::str::from_utf8(query).ok()?;
    let mut url = reqwest::Url::parse(a).ok()?;
    url.set_query(Some(q));
    Some(url.to_string())
}

/// Why talking to the tracker failed.
#[derive(Debug, Clone, Copy, PartialEq, Eq, Structural)]
pub enum TrackerError {
    /// The announce URL cannot be parsed.
    BadAnnounceUrl,
    /// The request did not complete.
    Network,
    /// The reply is not a tracker response.
    BadResponse,
}

/// An IPv4 peer address.
#[derive(Debug, Clone, Copy, PartialEq, Eq)]
pub struct Peer {
    pub ip: [u8; 4],
    pub port: u16,
}

/// `a.b.c.d:port` in decimal.
pub open spec fn address_text(ip: Seq<u8>, port: nat) -> Seq<u8> {
    dec_digits(ip[0] as nat) + seq![46u8] + dec_digits(ip[1] as nat) + seq![46u8] + dec_digits(
        ip[2] as nat,
    ) + seq![46u8] + dec_digits(ip[3] as nat) + seq![58u8] + dec_digits(port)
}

impl Peer {
    /// The address as `a.b.c.d:port`.
    pub fn address(&self) -> (r: String)
        ensures
            r@ == ascii_chars(address_text(self.ip@, self.port as nat)),
    {
        let mut out: Vec<u8> = Vec::new();
        append_decimal(&mut out, self.ip[0] as u64);
        out.push(46u8);
        append_decimal(&mut out, self.ip[1] as u64);
        out.push(46u8);
        append_decimal(&mut out, self.ip[2] as u64);
        out.push(46u8);
        append_decimal(&mut out, self.ip[3] as u64);
        out.push(58u8);
        append_decimal(&mut out, self.port as u64);
        proof {
            assert(out@ =~= address_text(self.ip@, self.port as nat));
            lemma_dec_digits_ascii(self.ip@[0] as nat);
            lemma_dec_digits_ascii(self.ip@[1] as nat);
            lemma_dec_digits_ascii(self.ip@[2] as nat);
            lemma_dec_digits_ascii(self.ip@[3] as nat);
            lemma_dec_digits_ascii(self.port as nat);
            assert(is_ascii_bytes(out@));
        }
        ascii_string(out)
    }
}

/// The query string that announces with these values.
pub open spec fn query_text(
    info_hash: Seq<u8>,
    peer_id: Seq<u8>,
    port: nat,
    uploaded: nat,
    downloaded: nat,
    left: nat,
    compact: bool,
) -> Seq<u8> {
    seq![105u8, 110, 102, 111, 95, 104, 97, 115, 104, 61] + info_hash + seq![
        38u8,
        112,
        101,
        101,
        114,
        95,
        105,
        100,
        61,
    ] + peer_id + seq![38u8, 112, 111, 114, 116, 61] + dec_digits(port) + seq![
        38u8,
        117,
        112,
        108,
        111,
        97,
        100,
        101,
        100,
        61,
    ] + dec_digits(uploaded) + seq![38u8, 100, 111, 119, 110, 108, 111, 97, 100, 101, 100, 61]
        + dec_digits(downloaded) + seq![38u8, 108, 101, 102, 116, 61] + dec_digits(left) + seq![
        38u8,
        99,
        111,
        109,
        112,
        97,
        99,
        116,
        61,
    ] + seq![if compact { 49u8 } else { 48u8 }]
}

/// An announce request to a tracker.
#[derive(Debug, Clone)]
pub struct TrackerRequest {
    /// Tracker URL.
    pub announce: Vec<u8>,
    /// The info hash, percent-encoded byte by byte.
    pub info_hash: Vec<u8>,
    /// Unique client id.
    pub peer_id: Vec<u8>,
    /// Port the client is listening on.
    pub port: u16,
    /// Total amount uploaded.
    pub uploaded: u64,
    /// Total amount downloaded.
    pub downloaded: u64,
    /// Number of bytes left to download.
    pub left: u64,
    /// Whether the compact peer format is asked for.
    pub compact: bool,
}

impl TrackerRequest {
    pub open spec fn query_spec(&self) -> Seq<u8> {
        query_text(
            self.info_hash@,
            self.peer_id@,
            self.port as nat,
            self.uploaded as nat,
            self.downloaded as nat,
            self.left as nat,
            self.compact,
        )
    }

    /// The first announce for `torrent` by the client `peer_id`.
    pub fn new(torrent: &Torrent, peer_id: &[u8]) -> (r: TrackerRequest)
        ensures
            r.announce@ == torrent.announce@,
            r.info_hash@ == url_encoded(torrent.info.hash()),
            r.peer_id@ == peer_id@,
            r.port == LISTEN_PORT,
            r.uploaded == 0,
            r.downloaded == 0,
            r.left == torrent.info.length,
            r.compact,
    {
        let hash = torrent.info_hash();
        TrackerRequest {
            announce: torrent.announce.clone(),
            info_hash: percent_encode(hash.as_slice()),
            peer_id: slice_to_vec(peer_id),
            port: LISTEN_PORT,
            uploaded: 0,
            downloaded: 0,
            left: torrent.info.length,
            compact: true,
        }
    }

    /// The query string of the announce.
    pub fn query(&self) -> (r: Vec<u8>)
        ensures
            r@ == self.query_spec(),
    {
        let mut out: Vec<u8> = Vec::new();
        append_bytes(&mut out, &[105u8, 110, 102, 111, 95, 104, 97, 115, 104, 61]);
        append_bytes(&mut out, self.info_hash.as_slice());
        append_bytes(&mut out, &[38u8, 112, 101, 101, 114, 95, 105, 100, 61]);
        append_bytes(&mut out, self.peer_id.as_slice());
        append_bytes(&mut out, &[38u8, 112, 111, 114, 116, 61]);
        append_decimal(&mut out, self.port as u64);
        append_bytes(&mut out, &[38u8, 117, 112, 108, 111, 97, 100, 101, 100, 61]);
        append_decimal(&mut out, self.uploaded);
        append_bytes(&mut out, &[38u8, 100, 111, 119, 110, 108, 111, 97, 100, 101, 100, 61]);
        append_decimal(&mut out, self.downloaded);
        append_bytes(&mut out, &[38u8, 108, 101, 102, 116, 61]);
        append_decimal(&mut out, self.left);
        append_bytes(&mut out, &[38u8, 99, 111, 109, 112, 97, 99, 116, 61]);
        out.push(if self.compact { 49u8 } else { 48u8 });
        proof {
            assert(out@ =~= self.query_spec());
        }
        out
    }

    /// The full URL to request: the announce URL with the query in place of its own.
    pub fn url(&self) -> (r: Result<String, TrackerError>)
        ensures
            match url_with_query(self.announce@, self.query_spec()) {
                Some(u) => r matches Ok(v) && v@ == u,
                None => r == Err::<String, TrackerError>(TrackerError::BadAnnounceUrl),
            },
    {
        let q = self.query();
        match announce_url(self.announce.as_slice(), q.as_slice()) {
            Some(u) => Ok(u),
            None => Err(TrackerError::BadAnnounceUrl),
        }
    }
}

/// The fields of the tracker reply that `s` encodes: interval and compact peers.
pub open spec fn response_fields(s: Seq<u8>) -> Option<(int, Seq<u8>)> {
    if s.len() > 0 && s[0] == 100 {
        match (uint_field(s, 1, key_interval(), false), string_field(s, 1, key_peers(), true)) {
            (Some(i), Some(p)) => Some((i, p)),
            _ => None,
        }
    } else {
        None
    }
}

/// The `i`-th six-byte record of a compact peer string, decoded.
pub open spec fn compact_peer(b: Seq<u8>, i: int) -> (Seq<u8>, int) {
    (b.subrange(6 * i, 6 * i + 4), b[6 * i + 4] as int * 256 + b[6 * i + 5] as int)
}

/// A tracker's reply.
#[derive(Debug, Clone)]
pub struct TrackerResponse {
    /// Suggested seconds between announces.
    pub interval: u64,
    /// Peers in compact format: six bytes each.
    pub peers_bin: Vec<u8>,
}

impl TrackerResponse {
    /// Decodes a tracker's reply body.
    pub fn from_bytes(body: &[u8]) -> (r: Result<TrackerResponse, DecodeError>)
        ensures
            r == Err::<TrackerResponse, DecodeError>(DecodeError::Syntax) <==> !document_ok(body@),
            r == Err::<TrackerResponse, DecodeError>(DecodeError::Shape) <==> document_ok(body@)
                && response_fields(body@) is None,
            r matches Ok(t) ==> response_fields(body@) == Some((t.interval as int, t.peers_bin@)),
    {
        let s = body;
        if !check_document(s) {
            return Err(DecodeError::Syntax);
        }
        if s.len() == 0 || s[0] != 100 {
            return Err(DecodeError::Shape);
        }
        let interval = read_uint_field(s, 1, &[105u8, 110, 116, 101, 114, 118, 97, 108], false);
        let peers = read_string_field(s, 1, &[112u8, 101, 101, 114, 115], true);
        match (interval, peers) {
            (Some(interval), Some(peers_bin)) => Ok(TrackerResponse { interval, peers_bin }),
            _ => Err(DecodeError::Shape),
        }
    }

    /// The peers of the compact string, in order; a trailing fragment shorter
    /// than six bytes is dropped.
    pub fn decode_peers(&self) -> (r: Vec<Peer>)
        ensures
            r@.len() == self.peers_bin@.len() / 6,
            forall|i: int|
                0 <= i < r@.len() ==> ((#[trigger] r@[i]).ip@, r@[i].port as int) == compact_peer(
                    self.peers_bin@,
                    i,
                ),
    {
        let b = self.peers_bin.as_slice();
        let blen = b.len();
        let n = blen / 6;
        let mut out: Vec<Peer> = Vec::new();
        let mut i: usize = 0;
        while i < n
            invariant
                b@ == self.peers_bin@,
                blen == b@.len(),
                n == blen / 6,
                0 <= i <= n,
                out@.len() == i,
                forall|j: int|
                    0 <= j < i ==> ((#[trigger] out@[j]).ip@, out@[j].port as int) == compact_peer(
                        b@,
                        j,
                    ),
            decreases n - i,
        {
            proof {
                assert(6 * i + 6 <= blen) by (nonlinear_arith)
                    requires
                        i < n,
                        n == blen / 6,
                ;
            }
            let k = 6 * i;
            let ip: [u8; 4] = [b[k], b[k + 1], b[k + 2], b[k + 3]];
            let port: u16 = (b[k + 4] as u16) * 256 + (b[k + 5] as u16);
            proof {
                assert(ip@ =~= b@.subrange(k as int, k + 4));
            }
            out.push(Peer { ip, port });
            i = i + 1;
        }
        out
    }
}

/// The peers that a tracker's reply body lists, in order; a body that is no
/// tracker response is `BadResponse`.
pub fn peers_from_response(body: &[u8]) -> (r: Result<Vec<Peer>, TrackerError>)
    ensures
        match response_fields(body@) {
            Some((_, b)) => document_ok(body@) ==> (r matches Ok(peers) && peers@.len() == b.len()
                / 6 && forall|i: int|
                0 <= i < peers@.len() ==> ((#[trigger] peers@[i]).ip@, peers@[i].port as int)
                    == compact_peer(b, i)),
            None => r == Err::<Vec<Peer>, TrackerError>(TrackerError::BadResponse),
        },
        !document_ok(body@) ==> r == Err::<Vec<Peer>, TrackerError>(TrackerError::BadResponse),
{
    match TrackerResponse::from_bytes(body) {
        Ok(response) => Ok(response.decode_peers()),
        Err(e) => {
            proof {
                assert(e == DecodeError::Syntax || e == DecodeError::Shape);
            }
            Err(TrackerError::BadResponse)
        },
    }
}

} // verus!
