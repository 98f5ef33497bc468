//! Message tags and byte-level framing shared by the relay server and the
//! session transport.
//!
//! Every frame on the wire is a binary message whose first byte is a tag.
//! Multi-byte integers are big-endian.

use vstd::prelude::*;
use vstd::string::*;

verus! {

/// Buffer size of the per-room channels on the relay.
pub const CHANNEL_BUFFER_SIZE: usize = 256;

// Client -> relay -> host tags.

/// Announces a new client to the host; followed by a u16 player id.
pub const NEW_CLIENT: u8 = 0;
/// Size of a `NEW_CLIENT` frame (tag + u16 player id).
pub const NEW_CLIENT_MSG_SIZE: usize = 3;
/// A client left the room; followed by a u16 player id.
pub const CLIENT_DISCONNECTS: u8 = 1;
/// Size of a `CLIENT_DISCONNECTS` frame (tag + u16 player id).
pub const CLIENT_DISCONNECT_MSG_SIZE: usize = 3;
/// A game action for the host; followed by a u16 player id (injected by the
/// relay) and the encoded payload.
pub const SERVER_RPC: u8 = 2;
/// A client disconnects on purpose; consumed by the relay.
pub const CLIENT_DISCONNECTS_SELF: u8 = 3;

// Host -> relay -> client tags.

/// The host leaves and the room closes; consumed by the relay.
pub const SERVER_DISCONNECTS: u8 = 0;
/// Size of a `SERVER_DISCONNECTS` frame (the tag alone).
pub const SERVER_DISCONNECT_MSG_SIZE: usize = 1;
/// A client gets kicked; followed by the u16 id of the target.
pub const CLIENT_GETS_KICKED: u8 = 1;
/// An incremental update; followed by a concatenation of encoded deltas.
pub const DELTA_UPDATE: u8 = 2;
/// A full state snapshot; followed by one encoded view state.
pub const FULL_UPDATE: u8 = 3;
/// A full state snapshot that also resets client-side animation state.
pub const RESET: u8 = 4;
/// A terminal error; followed by a UTF-8 reason text.
pub const SERVER_ERROR: u8 = 5;
/// The answer to a handshake; followed by u16 player id and u16 rule variation.
pub const HAND_SHAKE_RESPONSE: u8 = 6;

/// Size of a `HAND_SHAKE_RESPONSE` frame (tag + player id + rule variation).
pub const HAND_SHAKE_RESPONSE_SIZE: usize = 5;
/// Size of an encoded client id (u16).
pub const CLIENT_ID_SIZE: usize = 2;

/// The two big-endian bytes of a 16-bit value.
pub open spec fn u16_be(v: u16) -> Seq<u8> {
    seq![(v / 256) as u8, (v % 256) as u8]
}

/// The 16-bit value two big-endian bytes carry.
pub open spec fn u16_of(hi: u8, lo: u8) -> u16 {
    (256 * hi + lo) as u16
}

/// `u16_of` inverts `u16_be`, byte pair by byte pair.
pub proof fn lemma_u16_of_be(v: u16)
    ensures
        u16_of((v / 256) as u8, (v % 256) as u8) == v,
        u16_be(u16_of((v / 256) as u8, (v % 256) as u8)) == u16_be(v),
{
}

/// Big-endian byte pairs decode injectively.
pub proof fn lemma_u16_be_injective(a: u16, b: u16)
    ensures
        u16_be(a) == u16_be(b) ==> a == b,
{
    if u16_be(a) == u16_be(b) {
        assert(u16_be(a)[0] == u16_be(b)[0]);
        assert(u16_be(a)[1] == u16_be(b)[1]);
        assert(a / 256 == b / 256 && a % 256 == b % 256);
        assert(a == 256 * (a / 256) + a % 256);
        assert(b == 256 * (b / 256) + b % 256);
    }
}

/// Appends the big-endian encoding of `x` to `out`.
pub fn push_u16_be(out: &mut Vec<u8>, x: u16)
    ensures
        final(out)@ == old(out)@ + u16_be(x),
{
    out.push((x / 256) as u8);
    out.push((x % 256) as u8);
    proof {
        assert(out@ =~= old(out)@ + u16_be(x));
    }
}

/// Reads the big-endian 16-bit value at `pos`.
pub fn read_u16_be(bytes: &Vec<u8>, pos: usize) -> (r: u16)
    requires
        pos + 2 <= bytes@.len(),
    ensures
        u16_be(r) == bytes@.subrange(pos as int, pos + 2),
        r == u16_of(bytes@[pos as int], bytes@[pos + 1]),
{
    // Taking the length brings its machine bound into scope, so the
    // index arithmetic below is known not to overflow.
    let _n = bytes.len();
    let hi = bytes[pos];
    let lo = bytes[pos + 1];
    let r = hi as u16 * 256 + lo as u16;
    proof {
        assert(r / 256 == hi && r % 256 == lo);
        assert(u16_be(r) =~= bytes@.subrange(pos as int, pos + 2));
    }
    r
}

/// The frame that announces the joiner with the given id to the host.
pub open spec fn new_client_frame_spec(player_id: u16) -> Seq<u8> {
    seq![NEW_CLIENT] + u16_be(player_id)
}

/// The frame that announces the departure of the client with the given id.
pub open spec fn client_disconnects_frame_spec(player_id: u16) -> Seq<u8> {
    seq![CLIENT_DISCONNECTS] + u16_be(player_id)
}

/// The frame that kicks the client with the given id.
pub open spec fn kick_frame_spec(player_id: u16) -> Seq<u8> {
    seq![CLIENT_GETS_KICKED] + u16_be(player_id)
}

/// The frame that answers a successful handshake.
pub open spec fn handshake_response_frame_spec(player_id: u16, rule_variation: u16) -> Seq<u8> {
    seq![HAND_SHAKE_RESPONSE] + u16_be(player_id) + u16_be(rule_variation)
}

/// The frame that closes a room: the tag alone.
pub open spec fn server_disconnects_frame_spec() -> Seq<u8> {
    seq![SERVER_DISCONNECTS]
}

/// Builds a frame of one tag byte followed by a big-endian player id.
pub fn tagged_id_frame(tag: u8, player_id: u16) -> (r: Vec<u8>)
    ensures
        r@ == seq![tag] + u16_be(player_id),
{
    let mut out: Vec<u8> = Vec::new();
    out.push(tag);
    proof {
        assert(out@ =~= seq![tag]);
    }
    push_u16_be(&mut out, player_id);
    out
}

/// Builds the `NEW_CLIENT` frame for the given joiner.
pub fn new_client_frame(player_id: u16) -> (r: Vec<u8>)
    ensures
        r@ == new_client_frame_spec(player_id),
{
    tagged_id_frame(NEW_CLIENT, player_id)
}

/// Builds the `CLIENT_DISCONNECTS` frame for the given client.
pub fn client_disconnects_frame(player_id: u16) -> (r: Vec<u8>)
    ensures
        r@ == client_disconnects_frame_spec(player_id),
{
    tagged_id_frame(CLIENT_DISCONNECTS, player_id)
}

/// Builds the `CLIENT_GETS_KICKED` frame for the given target.
pub fn kick_frame(player_id: u16) -> (r: Vec<u8>)
    ensures
        r@ == kick_frame_spec(player_id),
{
    tagged_id_frame(CLIENT_GETS_KICKED, player_id)
}

/// Builds the `HAND_SHAKE_RESPONSE` frame with the assigned player id and
/// the room's rule variation.
pub fn handshake_response_frame(player_id: u16, rule_variation: u16) -> (r: Vec<u8>)
    ensures
        r@ == handshake_response_frame_spec(player_id, rule_variation),
{
    let mut out = tagged_id_frame(HAND_SHAKE_RESPONSE, player_id);
    push_u16_be(&mut out, rule_variation);
    out
}

/// Builds the `SERVER_DISCONNECTS` frame.
pub fn server_disconnects_frame() -> (r: Vec<u8>)
    ensures
        r@ == server_disconnects_frame_spec(),
{
    let mut out: Vec<u8> = Vec::new();
    out.push(SERVER_DISCONNECTS);
    proof {
        assert(out@ =~= seq![SERVER_DISCONNECTS]);
    }
    out
}

/// Builds a `SERVER_ERROR` frame around the UTF-8 bytes of the reason text.
pub fn server_error_frame(reason: &str) -> (r: Vec<u8>)
    ensures
        r@ == seq![SERVER_ERROR] + reason.spec_bytes(),
{
    let mut out: Vec<u8> = Vec::new();
    out.push(SERVER_ERROR);
    proof {
        assert(out@ =~= seq![SERVER_ERROR]);
    }
    let mut body = reason.as_bytes_vec();
    out.append(&mut body);
    proof {
        assert(out@ =~= seq![SERVER_ERROR] + reason.spec_bytes());
    }
    out
}

} // verus!
