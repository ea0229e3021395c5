use bittorrent_core::peer::{validate_reply, Handshake, HandshakeError};

fn hash() -> Vec<u8> {
    (100..120u8).collect()
}

fn peer_id() -> Vec<u8> {
    b"-RS1337-abcdefghijkl".to_vec()
}

#[test]
fn handshake_framing() {
    let h = Handshake::new(&hash(), &peer_id());
    let b = h.to_bytes();
    assert_eq!(b.len(), 68);
    assert_eq!(b[0], 19);
    assert_eq!(&b[1..20], b"BitTorrent protocol");
    assert!(b[20..28].iter().all(|&x| x == 0));
    assert_eq!(&b[28..48], &hash()[..]);
    assert_eq!(&b[48..68], &peer_id()[..]);
}

#[test]
fn matching_reply_yields_remote_peer_id() {
    let mut reply = Handshake::new(&hash(), &peer_id()).to_bytes();
    let remote: Vec<u8> = (0..20u8).collect();
    reply[48..68].copy_from_slice(&remote);
    assert_eq!(validate_reply(&reply, &hash()).unwrap(), remote);
    assert_eq!(hex::encode(validate_reply(&reply, &hash()).unwrap()), "000102030405060708090a0b0c0d0e0f10111213");
}

#[test]
fn mismatched_info_hash_is_rejected() {
    let mut reply = Handshake::new(&hash(), &peer_id()).to_bytes();
    reply[30] ^= 0xff;
    assert_eq!(validate_reply(&reply, &hash()), Err(HandshakeError::InfoHashMismatch));
    let other: Vec<u8> = vec![0u8; 20];
    let reply = Handshake::new(&other, &peer_id()).to_bytes();
    assert_eq!(validate_reply(&reply, &hash()), Err(HandshakeError::InfoHashMismatch));
}

#[test]
fn short_reply_is_rejected() {
    let reply = Handshake::new(&hash(), &peer_id()).to_bytes();
    assert_eq!(validate_reply(&reply[..67], &hash()), Err(HandshakeError::ShortRead));
}
