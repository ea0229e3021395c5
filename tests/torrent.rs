use bittorrent_core::torrent::{client_id_with_suffix, DecodeError, Info, Torrent};
use sha1::{Digest, Sha1};

fn bstr(out: &mut Vec<u8>, b: &[u8]) {
    out.extend_from_slice(b.len().to_string().as_bytes());
    out.push(b':');
    out.extend_from_slice(b);
}

fn single_file_torrent(pieces: &[u8], piece_length: u64, length: u64) -> Vec<u8> {
    let mut v = Vec::new();
    v.push(b'd');
    bstr(&mut v, b"announce");
    bstr(&mut v, b"http://tracker.test/announce");
    bstr(&mut v, b"info");
    v.push(b'd');
    bstr(&mut v, b"length");
    v.extend_from_slice(format!("i{}e", length).as_bytes());
    bstr(&mut v, b"name");
    bstr(&mut v, b"file.bin");
    bstr(&mut v, b"piece length");
    v.extend_from_slice(format!("i{}e", piece_length).as_bytes());
    bstr(&mut v, b"pieces");
    bstr(&mut v, pieces);
    v.push(b'e');
    v.push(b'e');
    v
}

fn known_buffer() -> Vec<u8> {
    (0..16384u32).map(|i| (i % 251) as u8).collect()
}

#[test]
fn single_file_scenario_reports_length_and_piece_hash() {
    let buf = known_buffer();
    let digest = Sha1::digest(&buf).to_vec();
    let bytes = single_file_torrent(&digest, 16384, 16384);
    let t = Torrent::new(&bytes).unwrap();
    assert_eq!(t.info.length, 16384);
    assert_eq!(t.info.piece_length, 16384);
    assert_eq!(t.announce, b"http://tracker.test/announce".to_vec());
    assert_eq!(t.info.name, b"file.bin".to_vec());
    let hashes = t.pieces_hashes();
    assert_eq!(hashes.len(), 1);
    assert_eq!(hashes[0], hex::encode(&digest));
    assert_eq!(format!("Length: {} bytes", t.info.length), "Length: 16384 bytes");
}

#[test]
fn pieces_hashes_slice_in_order() {
    let mut pieces = vec![0xabu8; 20];
    pieces.extend(vec![0x01u8; 20]);
    pieces.extend((0..20u8).collect::<Vec<u8>>());
    let t = Torrent::new(&single_file_torrent(&pieces, 32768, 70000)).unwrap();
    let hashes = t.pieces_hashes();
    assert_eq!(hashes.len(), 3);
    assert_eq!(hashes[0], "ab".repeat(20));
    assert_eq!(hashes[1], "01".repeat(20));
    assert_eq!(hashes[2], "000102030405060708090a0b0c0d0e0f10111213");
    for h in &hashes {
        assert_eq!(h.len(), 40);
    }
}

#[test]
fn canonical_encoding_sorts_keys() {
    let info = Info { name: b"a".to_vec(), piece_length: 16, pieces: vec![7u8; 20], length: 5 };
    let mut expected = b"d6:lengthi5e4:name1:a12:piece lengthi16e6:pieces20:".to_vec();
    expected.extend(vec![7u8; 20]);
    expected.push(b'e');
    assert_eq!(info.canonical_encoding(), expected);
}

#[test]
fn info_hash_is_sha1_of_canonical_encoding() {
    let buf = known_buffer();
    let digest = Sha1::digest(&buf).to_vec();
    let t = Torrent::new(&single_file_torrent(&digest, 16384, 16384)).unwrap();
    let enc = t.info.canonical_encoding();
    let h = t.info_hash();
    assert_eq!(h.len(), 20);
    assert_eq!(h, Sha1::digest(&enc).to_vec());
    assert_eq!(t.info_hash_hex(), hex::encode(&h));
    assert_eq!(t.info_hash(), h);
}

#[test]
fn info_hash_ignores_key_order_of_the_file() {
    let digest = vec![9u8; 20];
    let sorted = single_file_torrent(&digest, 16384, 100);
    let mut v = Vec::new();
    v.extend_from_slice(b"d4:infod6:pieces20:");
    v.extend_from_slice(&digest);
    v.extend_from_slice(b"12:piece lengthi16384e4:name8:file.bin6:lengthi100ee8:announce28:http://tracker.test/announcee");
    let a = Torrent::new(&sorted).unwrap();
    let b = Torrent::new(&v).unwrap();
    assert_eq!(a.info_hash(), b.info_hash());
}

#[test]
fn canonical_encoding_round_trips() {
    let info = Info { name: b"movie.mkv".to_vec(), piece_length: 262144, pieces: (0..40u8).collect(), length: 1000000 };
    let back = Info::from_bytes(&info.canonical_encoding()).unwrap();
    assert_eq!(back.name, info.name);
    assert_eq!(back.piece_length, info.piece_length);
    assert_eq!(back.pieces, info.pieces);
    assert_eq!(back.length, info.length);
    let empty = Info { name: Vec::new(), piece_length: 1, pieces: Vec::new(), length: 0 };
    let back = Info::from_bytes(&empty.canonical_encoding()).unwrap();
    assert_eq!(back.name, Vec::<u8>::new());
    assert_eq!(back.length, 0);
}

#[test]
fn unknown_keys_and_missing_optionals() {
    let digest = vec![1u8; 20];
    let mut v = Vec::new();
    v.extend_from_slice(b"d13:announce-listll3:abce2:xxi-3ee4:infod12:piece lengthi8e6:pieces20:");
    v.extend_from_slice(&digest);
    v.extend_from_slice(b"5:otherd1:ali1ei2eeeee");
    let t = Torrent::new(&v).unwrap();
    assert_eq!(t.announce, Vec::<u8>::new());
    assert_eq!(t.info.name, Vec::<u8>::new());
    assert_eq!(t.info.length, 0);
    assert_eq!(t.info.piece_length, 8);
}

#[test]
fn malformed_input_is_a_syntax_error() {
    assert_eq!(Torrent::new(b"d8:announce").unwrap_err(), DecodeError::Syntax);
    assert_eq!(Torrent::new(b"").unwrap_err(), DecodeError::Syntax);
    assert_eq!(Torrent::new(b"d1:ai05ee").unwrap_err(), DecodeError::Syntax);
    assert_eq!(Torrent::new(b"d1:ai-0ee").unwrap_err(), DecodeError::Syntax);
    assert_eq!(Torrent::new(b"d1:a5:abce").unwrap_err(), DecodeError::Syntax);
    assert_eq!(Torrent::new(b"de extra").unwrap_err(), DecodeError::Syntax);
    assert_eq!(Torrent::new(b"d1:ax1:be").unwrap_err(), DecodeError::Syntax);
}

#[test]
fn wrong_shape_is_a_shape_error() {
    assert_eq!(Torrent::new(b"i5e").unwrap_err(), DecodeError::Shape);
    assert_eq!(Torrent::new(b"le").unwrap_err(), DecodeError::Shape);
    assert_eq!(Torrent::new(b"d8:announce3:abce").unwrap_err(), DecodeError::Shape);
    assert_eq!(Torrent::new(b"d4:infoi1ee").unwrap_err(), DecodeError::Shape);
    assert_eq!(Torrent::new(&single_file_torrent(&[0u8; 19], 16, 1)).unwrap_err(), DecodeError::Shape);
    assert_eq!(Torrent::new(&single_file_torrent(&[0u8; 20], 0, 1)).unwrap_err(), DecodeError::Shape);
    assert_eq!(Torrent::new(b"d4:infod12:piece lengthi-5e6:pieces0:ee").unwrap_err(), DecodeError::Shape);
    assert_eq!(Torrent::new(b"d4:infod6:pieces0:ee").unwrap_err(), DecodeError::Shape);
}

#[test]
fn client_id_has_prefix_and_alphanumeric_suffix() {
    let id = Torrent::generate_client_id();
    assert_eq!(id.len(), 20);
    assert_eq!(&id[..8], b"-RS1337-");
    assert!(id[8..].iter().all(|c| c.is_ascii_alphanumeric()));
    assert_eq!(client_id_with_suffix(b"abcdefghijkl"), b"-RS1337-abcdefghijkl".to_vec());
}
