//! The peer wire handshake: the fixed 68-byte message and the check of a
//! peer's reply.
use vstd::prelude::*;
use vstd::slice::{slice_subrange, slice_to_vec};
use crate::text::append_bytes;

verus! {

/// `BitTorrent protocol`.
pub open spec fn protocol_name() -> Seq<u8> {
    seq![66u8, 105, 116, 84, 111, 114, 114, 101, 110, 116, 32, 112, 114, 111, 116, 111, 99, 111, 108]
}

/// Length of a handshake message, both ways.
pub const HANDSHAKE_LEN: usize = 68;

/// The handshake message for `info_hash` and `peer_id`.
pub open spec fn handshake_bytes(info_hash: Seq<u8>, peer_id: Seq<u8>) -> Seq<u8> {
    seq![19u8] + protocol_name() + Seq::new(8, |i: int| 0u8) + info_hash + peer_id
}

/// Why a handshake with a peer failed.
#[derive(Debug, Clone, Copy, PartialEq, Eq, Structural)]
pub enum HandshakeError {
    /// The connection could not be opened.
    Connect,
    /// Sending or receiving failed.
    Io,
    /// The peer sent fewer bytes than a handshake holds.
    ShortRead,
    /// The peer's info hash differs from ours: it serves other content.
    InfoHashMismatch,
}

/// A handshake message.
#[derive(Debug, Clone)]
pub struct Handshake {
    /// Length of the protocol name: 19.
    pub length: usize,
    /// The protocol name, `BitTorrent protocol`.
    pub string: Vec<u8>,
    /// Eight zero bytes.
    pub reserved: Vec<u8>,
    /// The info hash (20 bytes).
    pub infohash: Vec<u8>,
    /// The sender's peer id (20 bytes).
    pub peer_id: Vec<u8>,
}

impl Handshake {
    pub open spec fn wf(&self) -> bool {
        &&& self.length == 19
        &&& self.string@ == protocol_name()
        &&& self.reserved@ == Seq::new(8, |i: int| 0u8)
        &&& self.infohash@.len() == 20
        &&& self.peer_id@.len() == 20
    }

    /// The handshake that offers `info_hash` as the peer `peer_id`.
    pub fn new(info_hash: &[u8], peer_id: &[u8]) -> (r: Handshake)
        requires
            info_hash@.len() == 20,
            peer_id@.len() == 20,
        ensures
            r.wf(),
            r.infohash@ == info_hash@,
            r.peer_id@ == peer_id@,
    {
        let string: Vec<u8> = vec![
            66u8,
            105,
            116,
            84,
            111,
            114,
            114,
            101,
            110,
            116,
            32,
            112,
            114,
            111,
            116,
            111,
            99,
            111,
            108,
        ];
        let reserved: Vec<u8> = vec![0u8, 0, 0, 0, 0, 0, 0, 0];
        proof {
            assert(reserved@ =~= Seq::new(8, |i: int| 0u8));
        }
        Handshake {
            length: 19,
            string,
            reserved,
            infohash: slice_to_vec(info_hash),
            peer_id: slice_to_vec(peer_id),
        }
    }

    /// The message as sent on the wire: 68 bytes in field order.
    pub fn to_bytes(&self) -> (r: Vec<u8>)
        requires
            self.wf(),
        ensures
            r@ == handshake_bytes(self.infohash@, self.peer_id@),
            r@.len() == HANDSHAKE_LEN,
            r@[0] == 19,
            r@.subrange(1, 20) == protocol_name(),
            forall|i: int| 20 <= i < 28 ==> r@[i] == 0,
            r@.subrange(28, 48) == self.infohash@,
            r@.subrange(48, 68) == self.peer_id@,
    {
        let mut out: Vec<u8> = Vec::new();
        out.push(self.length as u8);
        append_bytes(&mut out, self.string.as_slice());
        append_bytes(&mut out, self.reserved.as_slice());
        append_bytes(&mut out, self.infohash.as_slice());
        append_bytes(&mut out, self.peer_id.as_slice());
        proof {
            let r = out@;
            assert(r =~= handshake_bytes(self.infohash@, self.peer_id@));
            assert(r.subrange(1, 20) =~= protocol_name());
            assert(r.subrange(28, 48) =~= self.infohash@);
            assert(r.subrange(48, 68) =~= self.peer_id@);
            assert forall|i: int| 20 <= i < 28 implies r[i] == 0 by {
                assert(r[i] == self.reserved@[i - 20]);
            }
        }
        out
    }
}

/// The outcome of checking a peer's reply against the local info hash.
pub open spec fn reply_outcome(response: Seq<u8>, info_hash: Seq<u8>) -> Result<
    Seq<u8>,
    HandshakeError,
> {
    if response.len() < HANDSHAKE_LEN {
        Err(HandshakeError::ShortRead)
    } else if response.subrange(28, 48) != info_hash {
        Err(HandshakeError::InfoHashMismatch)
    } else {
        Ok(response.subrange(48, 68))
    }
}

/// Checks a peer's handshake reply: its info hash (bytes 28 to 47) must be
/// `info_hash`. Returns the peer's id, bytes 48 to 67.
pub fn validate_reply(response: &[u8], info_hash: &[u8]) -> (r: Result<Vec<u8>, HandshakeError>)
    ensures
        match reply_outcome(response@, info_hash@) {
            Ok(id) => r matches Ok(v) && v@ == id,
            Err(e) => r == Err::<Vec<u8>, HandshakeError>(e),
        },
{
    if response.len() < HANDSHAKE_LEN {
        return Err(HandshakeError::ShortRead);
    }
    if info_hash.len() != 20 {
        proof {
            assert(response@.subrange(28, 48).len() != info_hash@.len());
        }
        return Err(HandshakeError::InfoHashMismatch);
    }
    let mut i: usize = 0;
    while i < 20
        invariant
            response@.len() >= HANDSHAKE_LEN,
            info_hash@.len() == 20,
            0 <= i <= 20,
            forall|j: int| 0 <= j < i ==> response@[28 + j] == info_hash@[j],
        decreases 20 - i,
    {
        if response[28 + i] != info_hash[i] {
            proof {
                assert(response@.subrange(28, 48)[i as int] != info_hash@[i as int]);
            }
            return Err(HandshakeError::InfoHashMismatch);
        }
        i = i + 1;
    }
    proof {
        assert(response@.subrange(28, 48) =~= info_hash@);
    }
    Ok(slice_to_vec(slice_subrange(response, 48, 68)))
}

} // verus!
