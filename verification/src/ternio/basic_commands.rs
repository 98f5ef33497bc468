//! The game states, actions and deltas of the three-color board game.

use vstd::prelude::*;
use vstd::utf8::*;
use crate::ternio::board_representation::{StoneColor, StonePlacement};
use crate::transport_layer::SerializationCap;

verus! {

/// The phases of a game's life.
#[derive(Clone, Copy, PartialEq, Eq, Structural, Debug)]
pub enum GameState {
    /// Waiting until three players have arrived.
    AwaitingPlayers,
    /// One player assigns the colors to the names.
    AssigningPlayers,
    /// Waiting for the player of the given color to move.
    Move(StoneColor),
    /// The game is over.
    GameOver,
}

impl GameState {
    /// The color whose move it is, while a move is awaited.
    pub fn current_move_color(&self) -> (r: Option<StoneColor>)
        ensures
            match *self {
                GameState::Move(color) => r == Some(color),
                _ => r is None,
            },
    {
        match self {
            GameState::Move(color) => Some(*color),
            _ => None,
        }
    }
}

/// The actions a player can take.
#[derive(Clone)]
pub enum RpcPayload {
    /// Sets the player's own name.
    SetPlayerName(String),
    /// Assigns the colors to the three players (0, 1, 2).
    SetPlayerColors([StoneColor; 3]),
    /// Places a stone.
    MakeMove(StonePlacement),
}

/// The changes a view state can undergo.
#[derive(Clone)]
pub enum DeltaInformation {
    /// Sets the phase (whose move is next, game over, and so on).
    SetGameState(GameState),
    /// Sets the names of the players.
    SetPlayerNames([String; 3]),
    /// Sets the colors of the players.
    SetPlayerColors([StoneColor; 3]),
    /// Performs a move.
    MakeMove(StonePlacement),
}

/// The byte of a stone color.
pub open spec fn color_byte(c: StoneColor) -> u8 {
    match c {
        StoneColor::Red => 0u8,
        StoneColor::Green => 1u8,
        StoneColor::Blue => 2u8,
    }
}

/// The byte of a board coordinate; a coordinate off the board travels
/// as zero.
pub open spec fn pos_byte(v: i8) -> u8 {
    if 0 <= v < 9 {
        v as u8
    } else {
        0u8
    }
}

/// The wire form of a stone placement: the two coordinates, then the
/// color.
pub open spec fn placement_wire(p: StonePlacement) -> Seq<u8> {
    seq![pos_byte(p.field_position.x_coord), pos_byte(p.field_position.y_coord), color_byte(
        p.stone_color,
    )]
}

/// The byte of a game state.
pub open spec fn game_state_byte(s: GameState) -> u8 {
    match s {
        GameState::AwaitingPlayers => 0u8,
        GameState::AssigningPlayers => 1u8,
        GameState::Move(c) => (2 + color_byte(c)) as u8,
        GameState::GameOver => 5u8,
    }
}

/// Appends a color byte.
pub(crate) fn push_color(out: &mut Vec<u8>, c: StoneColor)
    ensures
        final(out)@ == old(out)@ + seq![color_byte(c)],
{
    match c {
        StoneColor::Red => out.push(0),
        StoneColor::Green => out.push(1),
        StoneColor::Blue => out.push(2),
    }
    proof {
        assert(out@ =~= old(out)@ + seq![color_byte(c)]);
    }
}

/// Reads the color byte at `pos`; colors are the bytes below three.
pub(crate) fn read_color(buf: &Vec<u8>, pos: usize) -> (r: Option<StoneColor>)
    requires
        pos < buf@.len(),
    ensures
        match r {
            Some(c) => buf@[pos as int] == color_byte(c),
            None => forall|c: StoneColor| buf@[pos as int] != color_byte(c),
        },
{
    match buf[pos] {
        0 => Some(StoneColor::Red),
        1 => Some(StoneColor::Green),
        2 => Some(StoneColor::Blue),
        _ => {
            proof {
                assert forall|c: StoneColor| buf@[pos as int] != color_byte(c) by {
                    assert(color_byte(c) == 0 || color_byte(c) == 1 || color_byte(c) == 2);
                }
            }
            None
        },
    }
}

/// Appends a placement.
pub(crate) fn push_placement(out: &mut Vec<u8>, p: &StonePlacement)
    ensures
        final(out)@ == old(out)@ + placement_wire(*p),
{
    let x = p.field_position.x_coord;
    let y = p.field_position.y_coord;
    if 0 <= x && x < 9 {
        out.push(x as u8);
    } else {
        out.push(0);
    }
    if 0 <= y && y < 9 {
        out.push(y as u8);
    } else {
        out.push(0);
    }
    push_color(out, p.stone_color);
    proof {
        assert(out@ =~= old(out)@ + placement_wire(*p));
    }
}

/// Reads the placement at `pos`; `None` exactly when no placement's wire
/// form stands there.
pub(crate) fn read_placement(buf: &Vec<u8>, pos: usize) -> (r: Option<(StonePlacement, usize)>)
    requires
        pos <= buf@.len(),
    ensures
        match r {
            Some(p) => p.1 == pos + 3 && p.1 <= buf@.len() && buf@.subrange(pos as int, p.1 as int)
                == placement_wire(p.0),
            None => forall|p: StonePlacement, end: int|
                pos <= end <= buf@.len() ==> buf@.subrange(pos as int, end) != placement_wire(p),
        },
{
    let n = buf.len();
    if n < 3 || pos > n - 3 || buf[pos] > 8 || buf[pos + 1] > 8 {
        proof {
            assert forall|p: StonePlacement, end: int|
                pos <= end <= buf@.len() implies buf@.subrange(pos as int, end)
                != placement_wire(p) by {
                if buf@.subrange(pos as int, end) == placement_wire(p) {
                    assert(buf@.subrange(pos as int, end).len() == end - pos);
                    assert(placement_wire(p).len() == 3);
                    assert(buf@[pos as int] == pos_byte(p.field_position.x_coord));
                    assert(buf@[pos + 1] == pos_byte(p.field_position.y_coord));
                }
            }
        }
        return None;
    }
    let color = read_color(buf, pos + 2);
    let Some(stone_color) = color else {
        proof {
            assert forall|p: StonePlacement, end: int|
                pos <= end <= buf@.len() implies buf@.subrange(pos as int, end)
                != placement_wire(p) by {
                if buf@.subrange(pos as int, end) == placement_wire(p) {
                    assert(buf@.subrange(pos as int, end).len() == end - pos);
                    assert(placement_wire(p).len() == 3);
                    assert(buf@[pos + 2] == color_byte(p.stone_color));
                }
            }
        }
        return None
    };
    let placement = StonePlacement {
        field_position: crate::ternio::board_representation::FieldPosition {
            x_coord: buf[pos] as i8,
            y_coord: buf[pos + 1] as i8,
        },
        stone_color,
    };
    proof {
        assert(buf@.subrange(pos as int, pos + 3) =~= placement_wire(placement));
    }
    Some((placement, pos + 3))
}

impl SerializationCap for RpcPayload {
    /// A tag byte, then the action's body: a name block, three color
    /// bytes, or a placement.
    open spec fn wire(&self) -> Seq<u8> {
        match *self {
            RpcPayload::SetPlayerName(ref n) => seq![0u8] + crate::codec::name_block(n@),
            RpcPayload::SetPlayerColors(cs) => seq![
                1u8,
                color_byte(cs@[0]),
                color_byte(cs@[1]),
                color_byte(cs@[2]),
            ],
            RpcPayload::MakeMove(p) => seq![2u8] + placement_wire(p),
        }
    }

    fn serialize(&self) -> (r: Vec<u8>) {
        let mut out: Vec<u8> = Vec::new();
        match self {
            RpcPayload::SetPlayerName(n) => {
                out.push(0);
                crate::codec::push_name_block(&mut out, n);
            },
            RpcPayload::SetPlayerColors(cs) => {
                out.push(1);
                push_color(&mut out, cs[0]);
                push_color(&mut out, cs[1]);
                push_color(&mut out, cs[2]);
            },
            RpcPayload::MakeMove(p) => {
                out.push(2);
                push_placement(&mut out, p);
            },
        }
        proof {
            assert(out@ =~= self.wire());
        }
        out
    }

    fn deserialize_prefix(buf: &Vec<u8>, pos: usize) -> (r: Option<(Self, usize)>) {
        let n = buf.len();
        if pos >= n {
            proof {
                lemma_no_rpc_wire(buf@, pos as int);
            }
            return None;
        }
        let tag = buf[pos];
        if tag == 0 {
            let block = crate::codec::read_str_block(buf, pos + 1);
            let Some((name, end)) = block else {
                proof {
                    lemma_no_rpc_wire(buf@, pos as int);
                }
                return None
            };
            let payload = RpcPayload::SetPlayerName(name);
            proof {
                assert(buf@.subrange(pos as int, end as int) =~= payload.wire());
            }
            Some((payload, end))
        } else if tag == 1 {
            if n < 4 || pos > n - 4 {
                proof {
                    lemma_no_rpc_wire(buf@, pos as int);
                }
                return None;
            }
            let c0 = read_color(buf, pos + 1);
            let Some(a) = c0 else {
                proof {
                    assert(pos + 1 <= pos + 1 < pos + 4);
                    lemma_no_rpc_wire(buf@, pos as int);
                }
                return None
            };
            let c1 = read_color(buf, pos + 2);
            let Some(b) = c1 else {
                proof {
                    assert(pos + 1 <= pos + 2 < pos + 4);
                    lemma_no_rpc_wire(buf@, pos as int);
                }
                return None
            };
            let c2 = read_color(buf, pos + 3);
            let Some(c) = c2 else {
                proof {
                    assert(pos + 1 <= pos + 3 < pos + 4);
                    lemma_no_rpc_wire(buf@, pos as int);
                }
                return None
            };
            let payload = RpcPayload::SetPlayerColors([a, b, c]);
            proof {
                let cs = [a, b, c];
                assert(cs@ =~= seq![a, b, c]);
                assert(buf@.subrange(pos as int, pos + 4) =~= payload.wire());
            }
            Some((payload, pos + 4))
        } else if tag == 2 {
            let placement = read_placement(buf, pos + 1);
            let Some((p, end)) = placement else {
                proof {
                    lemma_no_rpc_wire(buf@, pos as int);
                }
                return None
            };
            let payload = RpcPayload::MakeMove(p);
            proof {
                assert(buf@.subrange(pos as int, end as int) =~= payload.wire());
            }
            Some((payload, end))
        } else {
            proof {
                lemma_no_rpc_wire(buf@, pos as int);
            }
            None
        }
    }
}

/// When the bytes at `pos` fail the checks the decoder makes, no action's
/// wire form stands there. The hypotheses are what the decoder knows when
/// it gives up; the conclusion is its `None` obligation.
proof fn lemma_no_rpc_wire(bytes: Seq<u8>, pos: int)
    requires
        0 <= pos <= bytes.len(),
        pos < bytes.len() ==> {
            let tag = bytes[pos];
            &&& (tag == 0 ==> forall|s: Seq<char>, end: int|
                #![trigger bytes.subrange(pos + 1, end), crate::codec::str_block(encode_utf8(s))]
                pos + 1 <= end <= bytes.len() && crate::codec::fits_wire(s) ==> bytes.subrange(
                    pos + 1,
                    end,
                ) != crate::codec::str_block(encode_utf8(s)))
            &&& (tag == 1 ==> (pos + 4 > bytes.len() || (forall|c: StoneColor|
                bytes[pos + 1] != #[trigger] color_byte(c)) || (forall|c: StoneColor|
                bytes[pos + 2] != #[trigger] color_byte(c)) || (forall|c: StoneColor|
                bytes[pos + 3] != #[trigger] color_byte(c))))
            &&& (tag == 2 ==> forall|p: StonePlacement, end: int|
                #![trigger bytes.subrange(pos + 1, end), placement_wire(p)]
                pos + 1 <= end <= bytes.len() ==> bytes.subrange(pos + 1, end) != placement_wire(
                    p,
                ))
        },
    ensures
        forall|v: RpcPayload, end: int|
            pos <= end <= bytes.len() ==> bytes.subrange(pos, end) != v.wire(),
{
    assert forall|v: RpcPayload, end: int|
        pos <= end <= bytes.len() implies bytes.subrange(pos, end) != v.wire() by {
        if bytes.subrange(pos, end) == v.wire() {
            assert(bytes.subrange(pos, end).len() == end - pos);
            assert(v.wire().len() >= 1);
            assert(bytes[pos] == v.wire()[0]);
            match v {
                RpcPayload::SetPlayerName(n) => {
                    assert(bytes[pos] == 0);
                    let blk = crate::codec::name_block(n@);
                    assert(bytes.subrange(pos, end).subrange(1, end - pos) =~= bytes.subrange(
                        pos + 1,
                        end,
                    ));
                    assert(v.wire().subrange(1, v.wire().len() as int) =~= blk);
                    assert(bytes.subrange(pos + 1, end) == blk);
                    if crate::codec::fits_wire(n@) {
                        assert(blk == crate::codec::str_block(encode_utf8(n@)));
                    } else {
                        assert(blk == crate::codec::str_block(
                            encode_utf8(Seq::<char>::empty()),
                        ));
                        assert(crate::codec::fits_wire(Seq::<char>::empty())) by {
                            assert(encode_utf8(Seq::<char>::empty()) =~= Seq::<u8>::empty());
                        }
                    }
                },
                RpcPayload::SetPlayerColors(cs) => {
                    assert(bytes[pos] == 1);
                    assert(end - pos == 4);
                    assert(bytes[pos + 1] == color_byte(cs@[0]));
                    assert(bytes[pos + 2] == color_byte(cs@[1]));
                    assert(bytes[pos + 3] == color_byte(cs@[2]));
                },
                RpcPayload::MakeMove(p) => {
                    assert(bytes[pos] == 2);
                    assert(bytes.subrange(pos, end).subrange(1, end - pos) =~= bytes.subrange(
                        pos + 1,
                        end,
                    ));
                    assert(v.wire().subrange(1, v.wire().len() as int) =~= placement_wire(p));
                    assert(bytes.subrange(pos + 1, end) == placement_wire(p));
                },
            }
        }
    }
}

/// Reads the game-state byte at `pos`; the six states are the bytes
/// below six.
pub(crate) fn read_game_state(buf: &Vec<u8>, pos: usize) -> (r: Option<GameState>)
    requires
        pos < buf@.len(),
    ensures
        match r {
            Some(g) => buf@[pos as int] == game_state_byte(g),
            None => forall|g: GameState| buf@[pos as int] != #[trigger] game_state_byte(g),
        },
{
    match buf[pos] {
        0 => Some(GameState::AwaitingPlayers),
        1 => Some(GameState::AssigningPlayers),
        2 => Some(GameState::Move(StoneColor::Red)),
        3 => Some(GameState::Move(StoneColor::Green)),
        4 => Some(GameState::Move(StoneColor::Blue)),
        5 => Some(GameState::GameOver),
        _ => {
            proof {
                assert forall|g: GameState| buf@[pos as int] != #[trigger] game_state_byte(
                    g,
                ) by {
                    assert(game_state_byte(g) <= 5);
                }
            }
            None
        },
    }
}

/// Appends the game-state byte.
pub(crate) fn push_game_state(out: &mut Vec<u8>, s: GameState)
    ensures
        final(out)@ == old(out)@ + seq![game_state_byte(s)],
{
    match s {
        GameState::AwaitingPlayers => out.push(0),
        GameState::AssigningPlayers => out.push(1),
        GameState::Move(StoneColor::Red) => out.push(2),
        GameState::Move(StoneColor::Green) => out.push(3),
        GameState::Move(StoneColor::Blue) => out.push(4),
        GameState::GameOver => out.push(5),
    }
    proof {
        assert(out@ =~= old(out)@ + seq![game_state_byte(s)]);
    }
}

/// The wire form of three names, one block after another.
pub open spec fn names_wire(names: Seq<String>) -> Seq<u8> {
    crate::codec::name_block(names[0]@) + crate::codec::name_block(names[1]@)
        + crate::codec::name_block(names[2]@)
}

/// Appends three name blocks.
pub(crate) fn push_names(out: &mut Vec<u8>, names: &[String; 3])
    ensures
        final(out)@ == old(out)@ + names_wire(names@),
{
    crate::codec::push_name_block(out, &names[0]);
    crate::codec::push_name_block(out, &names[1]);
    crate::codec::push_name_block(out, &names[2]);
    proof {
        assert(out@ =~= old(out)@ + names_wire(names@));
    }
}

/// Reads three name blocks at `pos`; `None` exactly when no three names'
/// wire form stands there.
pub(crate) fn read_names(buf: &Vec<u8>, pos: usize) -> (r: Option<([String; 3], usize)>)
    requires
        pos <= buf@.len(),
    ensures
        match r {
            Some(p) => pos < p.1 <= buf@.len() && buf@.subrange(pos as int, p.1 as int)
                == names_wire(p.0@),
            None => forall|names: Seq<String>, end: int|
                #![trigger buf@.subrange(pos as int, end), names_wire(names)]
                pos <= end <= buf@.len() && names.len() == 3 ==> buf@.subrange(pos as int, end)
                    != names_wire(names),
        },
{
    let b0 = crate::codec::read_str_block(buf, pos);
    let Some((n0, e0)) = b0 else {
        proof {
            lemma_no_names_wire(buf@, pos as int, pos as int, pos as int, 0);
        }
        return None
    };
    let b1 = crate::codec::read_str_block(buf, e0);
    let Some((n1, e1)) = b1 else {
        proof {
            lemma_names_prefix(buf@, pos as int, n0@, e0 as int);
            lemma_no_names_wire(buf@, pos as int, e0 as int, e0 as int, 1);
        }
        return None
    };
    let b2 = crate::codec::read_str_block(buf, e1);
    let Some((n2, e2)) = b2 else {
        proof {
            lemma_names_prefix(buf@, pos as int, n0@, e0 as int);
            lemma_names_prefix(buf@, e0 as int, n1@, e1 as int);
            lemma_no_names_wire(buf@, pos as int, e0 as int, e1 as int, 2);
        }
        return None
    };
    let names = [n0, n1, n2];
    proof {
        assert(names@ =~= seq![names[0], names[1], names[2]]);
        assert(buf@.subrange(pos as int, e2 as int) =~= names_wire(names@));
    }
    Some((names, e2))
}

/// A decoded block is the unique block at its place: any other block
/// starting there has the same bytes and the same end.
proof fn lemma_names_prefix(bytes: Seq<u8>, pos: int, s: Seq<char>, end: int)
    requires
        crate::codec::fits_wire(s),
        0 <= pos <= end <= bytes.len(),
        bytes.subrange(pos, end) == crate::codec::str_block(encode_utf8(s)),
    ensures
        forall|t: Seq<char>, e2: int|
            #![trigger crate::codec::str_block(encode_utf8(t)), bytes.subrange(pos, e2)]
            pos <= e2 <= bytes.len() && crate::codec::fits_wire(t) && bytes.subrange(pos, e2)
                == crate::codec::str_block(encode_utf8(t)) ==> e2 == end,
{
    assert forall|t: Seq<char>, e2: int|
        pos <= e2 <= bytes.len() && crate::codec::fits_wire(t) && #[trigger] bytes.subrange(
            pos,
            e2,
        ) == #[trigger] crate::codec::str_block(encode_utf8(t)) implies e2 == end by {
        crate::codec::lemma_str_block_unique(bytes, s, t, pos);
    }
}

/// When a block fails to parse at the position a three-name wire would
/// put its next block, no such wire stands at `pos`. `hops` says how
/// many blocks already parsed before the failure at `fail_at`; `a1` is
/// where the first parsed block ended.
proof fn lemma_no_names_wire(bytes: Seq<u8>, pos: int, a1: int, fail_at: int, hops: int)
    requires
        0 <= pos <= fail_at <= bytes.len(),
        pos <= a1 <= fail_at,
        0 <= hops <= 2,
        hops == 0 ==> fail_at == pos,
        hops == 1 ==> fail_at == a1,
        // At the failure position no block parses.
        forall|s: Seq<char>, end: int|
            #![trigger bytes.subrange(fail_at, end), crate::codec::str_block(encode_utf8(s))]
            fail_at <= end <= bytes.len() && crate::codec::fits_wire(s) ==> bytes.subrange(
                fail_at,
                end,
            ) != crate::codec::str_block(encode_utf8(s)),
        // Any block at `pos` ends at `a1`, and, with two hops, any block
        // at `a1` ends at `fail_at`.
        hops >= 1 ==> (forall|t: Seq<char>, e2: int|
            #![trigger crate::codec::str_block(encode_utf8(t)), bytes.subrange(pos, e2)]
            pos <= e2 <= bytes.len() && crate::codec::fits_wire(t) && bytes.subrange(pos, e2)
                == crate::codec::str_block(encode_utf8(t)) ==> e2 == a1),
        hops == 2 ==> (forall|t: Seq<char>, e2: int|
            #![trigger crate::codec::str_block(encode_utf8(t)), bytes.subrange(a1, e2)]
            a1 <= e2 <= bytes.len() && crate::codec::fits_wire(t) && bytes.subrange(a1, e2)
                == crate::codec::str_block(encode_utf8(t)) ==> e2 == fail_at),
    ensures
        forall|names: Seq<String>, end: int|
            #![trigger bytes.subrange(pos, end), names_wire(names)]
            pos <= end <= bytes.len() && names.len() == 3 ==> bytes.subrange(pos, end)
                != names_wire(names),
{
    assert forall|names: Seq<String>, end: int|
        pos <= end <= bytes.len() && names.len() == 3 implies #[trigger] bytes.subrange(pos, end)
        != #[trigger] names_wire(names) by {
        if bytes.subrange(pos, end) == names_wire(names) {
            let r0 = fitting_name(names[0]@);
            let r1 = fitting_name(names[1]@);
            let r2 = fitting_name(names[2]@);
            lemma_name_block_fits(names[0]@);
            lemma_name_block_fits(names[1]@);
            lemma_name_block_fits(names[2]@);
            let b0 = crate::codec::str_block(encode_utf8(r0));
            let b1 = crate::codec::str_block(encode_utf8(r1));
            let b2 = crate::codec::str_block(encode_utf8(r2));
            let w = names_wire(names);
            assert(w == b0 + b1 + b2);
            assert(end - pos == w.len());
            let f0 = pos + b0.len();
            assert(bytes.subrange(pos, f0) =~= b0);
            if hops == 0 {
                // Already the first block parses, against the premise.
                assert(bytes.subrange(fail_at, f0) == crate::codec::str_block(encode_utf8(r0)));
            } else {
                assert(f0 == a1);
                let f1 = a1 + b1.len();
                assert(bytes.subrange(pos, end).subrange(a1 - pos, f1 - pos) =~= bytes.subrange(
                    a1,
                    f1,
                ));
                assert(w.subrange(a1 - pos, f1 - pos) =~= b1);
                assert(bytes.subrange(a1, f1) == b1);
                if hops == 1 {
                    // The second block would parse at the failure spot.
                    assert(bytes.subrange(fail_at, f1) == crate::codec::str_block(
                        encode_utf8(r1),
                    ));
                } else {
                    assert(f1 == fail_at);
                    let f2 = fail_at + b2.len();
                    assert(bytes.subrange(pos, end).subrange(fail_at - pos, f2 - pos)
                        =~= bytes.subrange(fail_at, f2));
                    assert(w.subrange(fail_at - pos, f2 - pos) =~= b2);
                    // The third block would parse at the failure spot.
                    assert(bytes.subrange(fail_at, f2) == crate::codec::str_block(
                        encode_utf8(r2),
                    ));
                }
            }
        }
    }
}

/// A name block is at least its two length bytes long.
pub(crate) proof fn lemma_name_block_len(s: Seq<char>)
    ensures
        crate::codec::name_block(s).len() >= 2,
{
    if !crate::codec::fits_wire(s) {
        assert(encode_utf8(Seq::<char>::empty()) =~= Seq::<u8>::empty());
    }
}

/// The fitting character sequence a name travels as: the name, or the
/// empty one.
pub open spec fn fitting_name(s: Seq<char>) -> Seq<char> {
    if crate::codec::fits_wire(s) {
        s
    } else {
        Seq::<char>::empty()
    }
}

/// A name block is the block of the fitting name, which always fits.
proof fn lemma_name_block_fits(s: Seq<char>)
    ensures
        crate::codec::fits_wire(fitting_name(s)),
        crate::codec::name_block(s) == crate::codec::str_block(encode_utf8(fitting_name(s))),
{
    if !crate::codec::fits_wire(s) {
        assert(encode_utf8(Seq::<char>::empty()) =~= Seq::<u8>::empty());
    }
}

impl SerializationCap for DeltaInformation {
    /// A tag byte, then the change's body: a game-state byte, three name
    /// blocks, three color bytes, or a placement.
    open spec fn wire(&self) -> Seq<u8> {
        match *self {
            DeltaInformation::SetGameState(s) => seq![0u8, game_state_byte(s)],
            DeltaInformation::SetPlayerNames(ref ns) => seq![1u8] + names_wire(ns@),
            DeltaInformation::SetPlayerColors(cs) => seq![
                2u8,
                color_byte(cs@[0]),
                color_byte(cs@[1]),
                color_byte(cs@[2]),
            ],
            DeltaInformation::MakeMove(p) => seq![3u8] + placement_wire(p),
        }
    }

    fn serialize(&self) -> (r: Vec<u8>) {
        let mut out: Vec<u8> = Vec::new();
        match self {
            DeltaInformation::SetGameState(s) => {
                out.push(0);
                push_game_state(&mut out, *s);
            },
            DeltaInformation::SetPlayerNames(ns) => {
                out.push(1);
                push_names(&mut out, ns);
            },
            DeltaInformation::SetPlayerColors(cs) => {
                out.push(2);
                push_color(&mut out, cs[0]);
                push_color(&mut out, cs[1]);
                push_color(&mut out, cs[2]);
            },
            DeltaInformation::MakeMove(p) => {
                out.push(3);
                push_placement(&mut out, p);
            },
        }
        proof {
            assert(out@ =~= self.wire());
        }
        out
    }

    fn deserialize_prefix(buf: &Vec<u8>, pos: usize) -> (r: Option<(Self, usize)>) {
        let n = buf.len();
        if pos >= n {
            proof {
                lemma_no_delta_wire(buf@, pos as int);
            }
            return None;
        }
        let tag = buf[pos];
        if tag == 0 {
            if pos + 1 >= n {
                proof {
                    lemma_no_delta_wire(buf@, pos as int);
                }
                return None;
            }
            let state = read_game_state(buf, pos + 1);
            let Some(g) = state else {
                proof {
                    lemma_no_delta_wire(buf@, pos as int);
                }
                return None
            };
            let payload = DeltaInformation::SetGameState(g);
            proof {
                assert(buf@.subrange(pos as int, pos + 2) =~= payload.wire());
            }
            Some((payload, pos + 2))
        } else if tag == 1 {
            let names = read_names(buf, pos + 1);
            let Some((ns, end)) = names else {
                proof {
                    lemma_no_delta_wire(buf@, pos as int);
                }
                return None
            };
            let payload = DeltaInformation::SetPlayerNames(ns);
            proof {
                assert(buf@.subrange(pos as int, end as int) =~= payload.wire());
            }
            Some((payload, end))
        } else if tag == 2 {
            if n < 4 || pos > n - 4 {
                proof {
                    lemma_no_delta_wire(buf@, pos as int);
                }
                return None;
            }
            let c0 = read_color(buf, pos + 1);
            let Some(a) = c0 else {
                proof {
                    lemma_no_delta_wire(buf@, pos as int);
                }
                return None
            };
            let c1 = read_color(buf, pos + 2);
            let Some(b) = c1 else {
                proof {
                    lemma_no_delta_wire(buf@, pos as int);
                }
                return None
            };
            let c2 = read_color(buf, pos + 3);
            let Some(c) = c2 else {
                proof {
                    lemma_no_delta_wire(buf@, pos as int);
                }
                return None
            };
            let payload = DeltaInformation::SetPlayerColors([a, b, c]);
            proof {
                let cs = [a, b, c];
                assert(cs@ =~= seq![a, b, c]);
                assert(buf@.subrange(pos as int, pos + 4) =~= payload.wire());
            }
            Some((payload, pos + 4))
        } else if tag == 3 {
            let placement = read_placement(buf, pos + 1);
            let Some((p, end)) = placement else {
                proof {
                    lemma_no_delta_wire(buf@, pos as int);
                }
                return None
            };
            let payload = DeltaInformation::MakeMove(p);
            proof {
                assert(buf@.subrange(pos as int, end as int) =~= payload.wire());
            }
            Some((payload, end))
        } else {
            proof {
                lemma_no_delta_wire(buf@, pos as int);
            }
            None
        }
    }
}

/// When the bytes at `pos` fail the checks the decoder makes, no
/// change's wire form stands there.
proof fn lemma_no_delta_wire(bytes: Seq<u8>, pos: int)
    requires
        0 <= pos <= bytes.len(),
        pos < bytes.len() ==> {
            let tag = bytes[pos];
            &&& (tag == 0 ==> (pos + 2 > bytes.len() || (forall|g: GameState|
                bytes[pos + 1] != #[trigger] game_state_byte(g))))
            &&& (tag == 1 ==> forall|names: Seq<String>, end: int|
                #![trigger bytes.subrange(pos + 1, end), names_wire(names)]
                pos + 1 <= end <= bytes.len() && names.len() == 3 ==> bytes.subrange(
                    pos + 1,
                    end,
                ) != names_wire(names))
            &&& (tag == 2 ==> (pos + 4 > bytes.len() || (forall|c: StoneColor|
                bytes[pos + 1] != #[trigger] color_byte(c)) || (forall|c: StoneColor|
                bytes[pos + 2] != #[trigger] color_byte(c)) || (forall|c: StoneColor|
                bytes[pos + 3] != #[trigger] color_byte(c))))
            &&& (tag == 3 ==> forall|p: StonePlacement, end: int|
                #![trigger bytes.subrange(pos + 1, end), placement_wire(p)]
                pos + 1 <= end <= bytes.len() ==> bytes.subrange(pos + 1, end) != placement_wire(
                    p,
                ))
        },
    ensures
        forall|v: DeltaInformation, end: int|
            pos <= end <= bytes.len() ==> bytes.subrange(pos, end) != v.wire(),
{
    assert forall|v: DeltaInformation, end: int|
        pos <= end <= bytes.len() implies bytes.subrange(pos, end) != v.wire() by {
        if bytes.subrange(pos, end) == v.wire() {
            assert(bytes.subrange(pos, end).len() == end - pos);
            assert(v.wire().len() >= 1);
            assert(bytes[pos] == v.wire()[0]);
            match v {
                DeltaInformation::SetGameState(g) => {
                    assert(bytes[pos] == 0);
                    assert(end - pos == 2);
                    assert(bytes[pos + 1] == game_state_byte(g));
                },
                DeltaInformation::SetPlayerNames(ns) => {
                    assert(bytes[pos] == 1);
                    assert(bytes.subrange(pos, end).subrange(1, end - pos) =~= bytes.subrange(
                        pos + 1,
                        end,
                    ));
                    assert(v.wire().subrange(1, v.wire().len() as int) =~= names_wire(ns@));
                    assert(bytes.subrange(pos + 1, end) == names_wire(ns@));
                    assert(ns@.len() == 3);
                },
                DeltaInformation::SetPlayerColors(cs) => {
                    assert(bytes[pos] == 2);
                    assert(end - pos == 4);
                    assert(bytes[pos + 1] == color_byte(cs@[0]));
                    assert(bytes[pos + 2] == color_byte(cs@[1]));
                    assert(bytes[pos + 3] == color_byte(cs@[2]));
                },
                DeltaInformation::MakeMove(p) => {
                    assert(bytes[pos] == 3);
                    assert(bytes.subrange(pos, end).subrange(1, end - pos) =~= bytes.subrange(
                        pos + 1,
                        end,
                    ));
                    assert(v.wire().subrange(1, v.wire().len() as int) =~= placement_wire(p));
                    assert(bytes.subrange(pos + 1, end) == placement_wire(p));
                },
            }
        }
    }
}

} // verus!
