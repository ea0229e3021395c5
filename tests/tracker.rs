use bittorrent_core::torrent::{DecodeError, Info, Torrent};
use bittorrent_core::tracker::{peers_from_response, Peer, TrackerError, TrackerRequest, TrackerResponse};

fn sample_torrent(announce: &[u8]) -> Torrent {
    Torrent {
        announce: announce.to_vec(),
        info: Info { name: b"x".to_vec(), piece_length: 16384, pieces: vec![0u8; 20], length: 92063 },
    }
}

#[test]
fn compact_peers_decode_in_order() {
    let r = TrackerResponse { interval: 60, peers_bin: vec![192, 168, 1, 1, 0x1A, 0xE1, 10, 0, 0, 1, 0x1A, 0xE2] };
    let peers = r.decode_peers();
    assert_eq!(peers, vec![Peer { ip: [192, 168, 1, 1], port: 6881 }, Peer { ip: [10, 0, 0, 1], port: 6882 }]);
    assert_eq!(peers[0].address(), "192.168.1.1:6881");
    assert_eq!(peers[1].address(), "10.0.0.1:6882");
}

#[test]
fn compact_peers_drop_trailing_fragment() {
    let r = TrackerResponse {
        interval: 0,
        peers_bin: vec![192, 168, 1, 1, 0x1A, 0xE1, 10, 0, 0, 1, 0x1A, 0xE2, 1, 2, 3],
    };
    let peers = r.decode_peers();
    assert_eq!(peers.len(), 2);
    assert_eq!(peers[1].address(), "10.0.0.1:6882");
    let empty = TrackerResponse { interval: 0, peers_bin: vec![1, 2, 3, 4, 5] };
    assert!(empty.decode_peers().is_empty());
}

#[test]
fn response_body_decodes() {
    let mut body = b"d8:intervali1800e5:peers12:".to_vec();
    body.extend_from_slice(&[192, 168, 1, 1, 0x1A, 0xE1, 10, 0, 0, 1, 0x1A, 0xE2]);
    body.push(b'e');
    let r = TrackerResponse::from_bytes(&body).unwrap();
    assert_eq!(r.interval, 1800);
    assert_eq!(r.decode_peers().len(), 2);
    let r = TrackerResponse::from_bytes(b"d5:peers0:e").unwrap();
    assert_eq!(r.interval, 0);
    assert_eq!(TrackerResponse::from_bytes(b"d14:failure reason3:bade").unwrap_err(), DecodeError::Shape);
    assert_eq!(TrackerResponse::from_bytes(b"d5:peers").unwrap_err(), DecodeError::Syntax);
}

#[test]
fn request_fields_and_percent_encoded_hash() {
    let t = sample_torrent(b"http://tracker.test/announce");
    let id = b"-RS1337-abcdefghijkl";
    let req = TrackerRequest::new(&t, id);
    let hash = t.info_hash();
    let expected: String = hash
        .iter()
        .map(|&b| if b.is_ascii_alphanumeric() || b"-._~".contains(&b) { (b as char).to_string() } else { format!("%{:02X}", b) })
        .collect();
    assert_eq!(req.info_hash, expected.into_bytes());
    assert_ne!(req.info_hash, hash);
    assert_eq!(req.peer_id, id.to_vec());
    assert_eq!(req.port, 6881);
    assert_eq!(req.uploaded, 0);
    assert_eq!(req.downloaded, 0);
    assert_eq!(req.left, 92063);
    assert!(req.compact);
}

#[test]
fn query_string_is_exact() {
    let req = TrackerRequest {
        announce: b"http://tracker.test/announce".to_vec(),
        info_hash: b"%AB%00z".to_vec(),
        peer_id: b"-RS1337-abcdefghijkl".to_vec(),
        port: 6881,
        uploaded: 0,
        downloaded: 12,
        left: 92063,
        compact: true,
    };
    assert_eq!(
        String::from_utf8(req.query()).unwrap(),
        "info_hash=%AB%00z&peer_id=-RS1337-abcdefghijkl&port=6881&uploaded=0&downloaded=12&left=92063&compact=1"
    );
    assert_eq!(
        req.url().unwrap(),
        "http://tracker.test/announce?info_hash=%AB%00z&peer_id=-RS1337-abcdefghijkl&port=6881&uploaded=0&downloaded=12&left=92063&compact=1"
    );
}

#[test]
fn bad_announce_url_is_reported() {
    let req = TrackerRequest::new(&sample_torrent(b"not a url"), b"-RS1337-abcdefghijkl");
    assert_eq!(req.url().unwrap_err(), TrackerError::BadAnnounceUrl);
    let req = TrackerRequest::new(&sample_torrent(b""), b"-RS1337-abcdefghijkl");
    assert_eq!(req.url().unwrap_err(), TrackerError::BadAnnounceUrl);
}

#[test]
fn reply_body_to_peers() {
    let mut body = b"d8:intervali900e5:peers6:".to_vec();
    body.extend_from_slice(&[127, 0, 0, 1, 0x1A, 0xE1]);
    body.push(b'e');
    let peers = peers_from_response(&body).unwrap();
    assert_eq!(peers, vec![Peer { ip: [127, 0, 0, 1], port: 6881 }]);
    assert_eq!(peers_from_response(b"d8:intervali900ee").unwrap_err(), TrackerError::BadResponse);
    assert_eq!(peers_from_response(b"garbage").unwrap_err(), TrackerError::BadResponse);
}
