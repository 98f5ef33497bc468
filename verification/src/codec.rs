//! The self-delimiting binary form of the join request that opens every
//! session.
//!
//! A join request is the first frame a peer sends to the relay. Its wire
//! form is chosen by this crate and used identically on both ends: each
//! string as a 16-bit big-endian byte length followed by its UTF-8 bytes,
//! then the 16-bit rule variation, then one byte for the room-creation
//! flag (`1` or `0`).

use vstd::prelude::*;
use vstd::string::*;
use vstd::utf8::*;
use crate::protocol::{u16_be, lemma_u16_be_injective, push_u16_be, read_u16_be};

verus! {

/// The request to open or join a room; decoded from the first binary frame
/// of every connection.
pub struct JoinRequest {
    /// Which game to play.
    pub game_id: String,
    /// Which room to open or join.
    pub room_id: String,
    /// The rule variation; interpreted only when a room is opened.
    pub rule_variation: u16,
    /// Whether to open the room and act as its host.
    pub create_room: bool,
}

/// Whether a string fits the wire form, whose length prefix is 16 bits wide.
pub open spec fn fits_wire(s: Seq<char>) -> bool {
    encode_utf8(s).len() <= 0xffff
}

/// A length-prefixed block: two big-endian length bytes, then the bytes.
pub open spec fn str_block(b: Seq<u8>) -> Seq<u8>
    recommends
        b.len() <= 0xffff,
{
    u16_be(b.len() as u16) + b
}

/// The wire form of a join request with the given fields.
pub open spec fn join_request_wire(
    game: Seq<char>,
    room: Seq<char>,
    variation: u16,
    create: bool,
) -> Seq<u8> {
    str_block(encode_utf8(game)) + str_block(encode_utf8(room)) + u16_be(variation) + seq![
        if create {
            1u8
        } else {
            0u8
        },
    ]
}

/// Relies on `String::from_utf8`: it succeeds exactly on valid UTF-8 input
/// and returns the string those bytes encode.
#[verifier::external_body]
pub(crate) fn string_from_utf8(v: Vec<u8>) -> (r: Option<String>)
    ensures
        match r {
            Some(s) => valid_utf8(v@) && s@ == decode_utf8(v@),
            None => !valid_utf8(v@),
        },
{
    match String::from_utf8(v) {
        Ok(s) => Some(s),
        Err(_) => None,
    }
}

/// Appends a length-prefixed string block to `out`; fails exactly when the
/// string's UTF-8 form is longer than the length prefix can say.
fn push_str_block(out: &mut Vec<u8>, s: &str) -> (ok: bool)
    ensures
        ok == fits_wire(s@),
        ok ==> final(out)@ == old(out)@ + str_block(encode_utf8(s@)),
        !ok ==> final(out)@ == old(out)@,
{
    let mut body = s.as_bytes_vec();
    if body.len() > 0xffff {
        return false;
    }
    push_u16_be(out, body.len() as u16);
    out.append(&mut body);
    proof {
        assert(out@ =~= old(out)@ + str_block(encode_utf8(s@)));
    }
    true
}

/// Encodes a join request into its wire form; fails exactly when one of
/// the names does not fit the length prefix.
pub fn encode_join_request(req: &JoinRequest) -> (r: Option<Vec<u8>>)
    ensures
        match r {
            Some(v) => fits_wire(req.game_id@) && fits_wire(req.room_id@) && v@
                == join_request_wire(
                req.game_id@,
                req.room_id@,
                req.rule_variation,
                req.create_room,
            ),
            None => !(fits_wire(req.game_id@) && fits_wire(req.room_id@)),
        },
{
    let mut out: Vec<u8> = Vec::new();
    if !push_str_block(&mut out, self_str(&req.game_id)) {
        return None;
    }
    if !push_str_block(&mut out, self_str(&req.room_id)) {
        return None;
    }
    push_u16_be(&mut out, req.rule_variation);
    if req.create_room {
        out.push(1u8);
    } else {
        out.push(0u8);
    }
    proof {
        assert(out@ =~= join_request_wire(
            req.game_id@,
            req.room_id@,
            req.rule_variation,
            req.create_room,
        ));
    }
    Some(out)
}

/// A name on the wire: its string block, or an empty block where the
/// name does not fit the length prefix.
pub open spec fn name_block(s: Seq<char>) -> Seq<u8> {
    if fits_wire(s) {
        str_block(encode_utf8(s))
    } else {
        str_block(encode_utf8(Seq::<char>::empty()))
    }
}

/// Appends a name block to `out`; an oversized name travels as an empty
/// one.
pub(crate) fn push_name_block(out: &mut Vec<u8>, s: &String)
    ensures
        final(out)@ == old(out)@ + name_block(s@),
{
    if !push_str_block(out, s.as_str()) {
        let empty = String::new();
        let ok = push_str_block(out, empty.as_str());
        proof {
            assert(encode_utf8(Seq::<char>::empty()) =~= Seq::<u8>::empty());
            assert(ok);
        }
    }
}

/// Borrows a string as a slice.
fn self_str(s: &String) -> (r: &str)
    ensures
        r@ == s@,
{
    s.as_str()
}

/// What a string block occupying `pos..end` forces on the bytes there.
pub(crate) proof fn lemma_block_forces(bytes: Seq<u8>, pos: int, s: Seq<char>, end: int)
    requires
        fits_wire(s),
        0 <= pos <= end <= bytes.len(),
        bytes.subrange(pos, end) == str_block(encode_utf8(s)),
    ensures
        end == pos + 2 + encode_utf8(s).len(),
        bytes.subrange(pos, pos + 2) == u16_be(encode_utf8(s).len() as u16),
        bytes.subrange(pos + 2, end) == encode_utf8(s),
        valid_utf8(bytes.subrange(pos + 2, end)),
{
    let blk = str_block(encode_utf8(s));
    assert(end - pos == blk.len());
    assert(bytes.subrange(pos, end).subrange(0, 2) =~= bytes.subrange(pos, pos + 2));
    assert(blk.subrange(0, 2) =~= u16_be(encode_utf8(s).len() as u16));
    assert(bytes.subrange(pos, end).subrange(2, blk.len() as int) =~= bytes.subrange(
        pos + 2,
        end,
    ));
    assert(blk.subrange(2, blk.len() as int) =~= encode_utf8(s));
    encode_utf8_valid_utf8(s);
}

/// Reads the length-prefixed string block at `pos`; `None` exactly when no
/// such block starts there, either because the bytes run out or because
/// the body is not valid UTF-8.
pub(crate) fn read_str_block(bytes: &Vec<u8>, pos: usize) -> (r: Option<(String, usize)>)
    requires
        pos <= bytes@.len(),
    ensures
        match r {
            Some(p) => {
                &&& pos + 2 <= p.1 <= bytes@.len()
                &&& fits_wire(p.0@)
                &&& bytes@.subrange(pos as int, p.1 as int) == str_block(encode_utf8(p.0@))
            },
            None => forall|s: Seq<char>, end: int|
                pos <= end <= bytes@.len() && fits_wire(s) ==> bytes@.subrange(pos as int, end)
                    != str_block(encode_utf8(s)),
        },
{
    let n = bytes.len();
    if n < 2 || pos > n - 2 {
        proof {
            assert forall|s: Seq<char>, end: int|
                pos <= end <= bytes@.len() && fits_wire(s) implies bytes@.subrange(pos as int, end)
                != str_block(encode_utf8(s)) by {
                if bytes@.subrange(pos as int, end) == str_block(encode_utf8(s)) {
                    lemma_block_forces(bytes@, pos as int, s, end);
                }
            }
        }
        return None;
    }
    let len = read_u16_be(bytes, pos) as usize;
    if len > n - pos - 2 {
        proof {
            assert forall|s: Seq<char>, end: int|
                pos <= end <= bytes@.len() && fits_wire(s) implies bytes@.subrange(pos as int, end)
                != str_block(encode_utf8(s)) by {
                if bytes@.subrange(pos as int, end) == str_block(encode_utf8(s)) {
                    lemma_block_forces(bytes@, pos as int, s, end);
                    lemma_u16_be_injective((len as u16), (encode_utf8(s).len() as u16));
                    assert(encode_utf8(s).len() == len);
                }
            }
        }
        return None;
    }
    let body = vstd::slice::slice_to_vec(&bytes.as_slice()[pos + 2..pos + 2 + len]);
    let parsed = string_from_utf8(body);
    match parsed {
        Some(s) => {
            proof {
                decode_utf8_encode_utf8(bytes@.subrange(pos + 2, pos + 2 + len));
                assert(bytes@.subrange(pos as int, pos + 2 + len) =~= str_block(
                    encode_utf8(s@),
                ));
            }
            Some((s, pos + 2 + len))
        },
        None => {
            proof {
                assert forall|s: Seq<char>, end: int|
                    pos <= end <= bytes@.len() && fits_wire(s) implies bytes@.subrange(
                    pos as int,
                    end,
                ) != str_block(encode_utf8(s)) by {
                    if bytes@.subrange(pos as int, end) == str_block(encode_utf8(s)) {
                        lemma_block_forces(bytes@, pos as int, s, end);
                        lemma_u16_be_injective((len as u16), (encode_utf8(s).len() as u16));
                        assert(encode_utf8(s).len() == len);
                        assert(bytes@.subrange(pos + 2, pos + 2 + len) == encode_utf8(s));
                    }
                }
            }
            None
        },
    }
}

/// Decodes a whole frame as a join request; `None` exactly when the frame
/// is not the wire form of any request with names that fit the prefix.
pub fn decode_join_request(bytes: &Vec<u8>) -> (r: Option<JoinRequest>)
    ensures
        match r {
            Some(req) => {
                &&& fits_wire(req.game_id@)
                &&& fits_wire(req.room_id@)
                &&& bytes@ == join_request_wire(
                    req.game_id@,
                    req.room_id@,
                    req.rule_variation,
                    req.create_room,
                )
            },
            None => forall|g: Seq<char>, room: Seq<char>, v: u16, c: bool|
                fits_wire(g) && fits_wire(room) ==> bytes@ != join_request_wire(g, room, v, c),
        },
{
    proof {
        assert(bytes@.subrange(0, bytes@.len() as int) =~= bytes@);
    }
    let n = bytes.len();
    let Some((game_id, p1)) = read_str_block(bytes, 0) else {
        proof {
            assert forall|g: Seq<char>, room: Seq<char>, v: u16, c: bool|
                fits_wire(g) && fits_wire(room) implies bytes@ != join_request_wire(
                g,
                room,
                v,
                c,
            ) by {
                let w = join_request_wire(g, room, v, c);
                if bytes@ == w {
                    let e = str_block(encode_utf8(g)).len() as int;
                    assert(bytes@.subrange(0, e) =~= str_block(encode_utf8(g)));
                }
            }
        }
        return None;
    };
    let Some((room_id, p2)) = read_str_block(bytes, p1) else {
        proof {
            assert forall|g: Seq<char>, room: Seq<char>, v: u16, c: bool|
                fits_wire(g) && fits_wire(room) implies bytes@ != join_request_wire(
                g,
                room,
                v,
                c,
            ) by {
                let w = join_request_wire(g, room, v, c);
                if bytes@ == w {
                    let e1 = str_block(encode_utf8(g)).len() as int;
                    assert(bytes@.subrange(0, e1) =~= str_block(encode_utf8(g)));
                    lemma_str_block_unique(bytes@, game_id@, g, 0);
                    assert(p1 == e1);
                    let e2 = e1 + str_block(encode_utf8(room)).len();
                    assert(bytes@.subrange(e1, e2) =~= str_block(encode_utf8(room)));
                }
            }
        }
        return None;
    };
    if n < 3 || p2 > n - 3 || p2 + 3 < n {
        proof {
            lemma_tail_shape_contra(bytes@, game_id@, room_id@, p1 as int, p2 as int);
        }
        return None;
    }
    let variation = read_u16_be(bytes, p2);
    let flag = bytes[p2 + 2];
    if flag != 0u8 && flag != 1u8 {
        proof {
            lemma_tail_shape_contra(bytes@, game_id@, room_id@, p1 as int, p2 as int);
        }
        return None;
    }
    let req = JoinRequest {
        game_id,
        room_id,
        rule_variation: variation,
        create_room: flag == 1u8,
    };
    proof {
        assert(bytes@ =~= join_request_wire(
            req.game_id@,
            req.room_id@,
            req.rule_variation,
            req.create_room,
        ));
    }
    Some(req)
}

/// Two string blocks that begin at the same place in the same byte
/// sequence hold the same string and end at the same place.
pub(crate) proof fn lemma_str_block_unique(bytes: Seq<u8>, s1: Seq<char>, s2: Seq<char>, pos: int)
    requires
        fits_wire(s1),
        fits_wire(s2),
        0 <= pos,
        pos + str_block(encode_utf8(s1)).len() <= bytes.len(),
        pos + str_block(encode_utf8(s2)).len() <= bytes.len(),
        bytes.subrange(pos, pos + str_block(encode_utf8(s1)).len() as int) == str_block(
            encode_utf8(s1),
        ),
        bytes.subrange(pos, pos + str_block(encode_utf8(s2)).len() as int) == str_block(
            encode_utf8(s2),
        ),
    ensures
        s1 == s2,
        str_block(encode_utf8(s1)).len() == str_block(encode_utf8(s2)).len(),
{
    let b1 = str_block(encode_utf8(s1));
    let b2 = str_block(encode_utf8(s2));
    assert(b1.subrange(0, 2) =~= u16_be(encode_utf8(s1).len() as u16));
    assert(b2.subrange(0, 2) =~= u16_be(encode_utf8(s2).len() as u16));
    assert(bytes.subrange(pos, pos + b1.len() as int).subrange(0, 2) =~= bytes.subrange(
        pos,
        pos + 2,
    ));
    assert(bytes.subrange(pos, pos + b2.len() as int).subrange(0, 2) =~= bytes.subrange(
        pos,
        pos + 2,
    ));
    lemma_u16_be_injective((encode_utf8(s1).len() as u16), (encode_utf8(s2).len() as u16));
    assert(encode_utf8(s1).len() == encode_utf8(s2).len());
    assert(encode_utf8(s1) =~= b1.subrange(2, b1.len() as int));
    assert(encode_utf8(s2) =~= b2.subrange(2, b2.len() as int));
    assert(b1.subrange(2, b1.len() as int) =~= bytes.subrange(pos + 2, pos + b1.len() as int));
    assert(b2.subrange(2, b2.len() as int) =~= bytes.subrange(pos + 2, pos + b2.len() as int));
    assert(encode_utf8(s1) == encode_utf8(s2));
    encode_utf8_decode_utf8(s1);
    encode_utf8_decode_utf8(s2);
}

/// After the two leading string blocks only the variation and the flag may
/// follow: any other shape is no join-request wire form.
proof fn lemma_tail_shape_contra(
    bytes: Seq<u8>,
    game: Seq<char>,
    room: Seq<char>,
    p1: int,
    p2: int,
)
    requires
        fits_wire(game),
        fits_wire(room),
        0 <= p1 <= p2 <= bytes.len(),
        bytes.subrange(0, p1) == str_block(encode_utf8(game)),
        bytes.subrange(p1, p2) == str_block(encode_utf8(room)),
        p2 + 3 != bytes.len() || (p2 + 3 == bytes.len() && bytes[p2 + 2] != 0u8 && bytes[p2 + 2]
            != 1u8),
    ensures
        forall|g: Seq<char>, r: Seq<char>, v: u16, c: bool|
            fits_wire(g) && fits_wire(r) ==> bytes != join_request_wire(g, r, v, c),
{
    assert forall|g: Seq<char>, r: Seq<char>, v: u16, c: bool|
        fits_wire(g) && fits_wire(r) implies bytes != join_request_wire(g, r, v, c) by {
        let w = join_request_wire(g, r, v, c);
        if bytes == w {
            let e1 = str_block(encode_utf8(g)).len() as int;
            assert(bytes.subrange(0, e1) =~= str_block(encode_utf8(g)));
            lemma_str_block_unique(bytes, game, g, 0);
            assert(e1 == p1);
            let e2 = e1 + str_block(encode_utf8(r)).len() as int;
            assert(bytes.subrange(e1, e2) =~= str_block(encode_utf8(r)));
            lemma_str_block_unique(bytes, room, r, p1);
            assert(e2 == p2);
            assert(bytes.len() == p2 + 3);
            let flag = if c {
                1u8
            } else {
                0u8
            };
            assert(bytes[p2 + 2] == flag);
        }
    }
}

/// Decoding inverts encoding: the round trip gives the request back.
pub proof fn lemma_join_request_wire_injective(
    g1: Seq<char>,
    r1: Seq<char>,
    v1: u16,
    c1: bool,
    g2: Seq<char>,
    r2: Seq<char>,
    v2: u16,
    c2: bool,
)
    requires
        fits_wire(g1),
        fits_wire(r1),
        fits_wire(g2),
        fits_wire(r2),
        join_request_wire(g1, r1, v1, c1) == join_request_wire(g2, r2, v2, c2),
    ensures
        g1 == g2,
        r1 == r2,
        v1 == v2,
        c1 == c2,
{
    let w = join_request_wire(g1, r1, v1, c1);
    let e1 = str_block(encode_utf8(g1)).len() as int;
    assert(w.subrange(0, e1) =~= str_block(encode_utf8(g1)));
    let f1 = str_block(encode_utf8(g2)).len() as int;
    assert(w.subrange(0, f1) =~= str_block(encode_utf8(g2)));
    lemma_str_block_unique(w, g1, g2, 0);
    let e2 = e1 + str_block(encode_utf8(r1)).len() as int;
    assert(w.subrange(e1, e2) =~= str_block(encode_utf8(r1)));
    let f2 = e1 + str_block(encode_utf8(r2)).len() as int;
    assert(w.subrange(e1, f2) =~= str_block(encode_utf8(r2)));
    lemma_str_block_unique(w, r1, r2, e1);
    assert(w.subrange(e2, e2 + 2) =~= u16_be(v1));
    assert(w.subrange(e2, e2 + 2) =~= u16_be(v2));
    lemma_u16_be_injective(v1, v2);
    assert(w[e2 + 2] == if c1 {
        1u8
    } else {
        0u8
    });
    assert(w[e2 + 2] == if c2 {
        1u8
    } else {
        0u8
    });
}

} // verus!
