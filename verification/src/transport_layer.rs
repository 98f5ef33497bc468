//! The client-side session transport: the state machine that drives the
//! handshake, the per-tick processing of the host and client roles, and
//! intentional disconnect.
//!
//! The machine owns no socket. The embedding loop reads the socket and
//! hands every tick the frames that arrived (or the transport error that
//! ended the connection); the machine hands back the frames to write and
//! keeps all session state — the backend, the timer wheel, the update
//! queue for the frontend, and the queue of outbound game actions.

use vstd::prelude::*;
use vstd::utf8::*;
use crate::codec::{JoinRequest, encode_join_request};
use crate::protocol::{CLIENT_DISCONNECTS, CLIENT_DISCONNECTS_SELF, CLIENT_GETS_KICKED,
    DELTA_UPDATE, FULL_UPDATE, HAND_SHAKE_RESPONSE, NEW_CLIENT, RESET, SERVER_DISCONNECTS,
    SERVER_ERROR, SERVER_RPC, u16_be, u16_of, read_u16_be, kick_frame_spec, kick_frame,
    server_disconnects_frame, server_disconnects_frame_spec};
use crate::timer::Timer;

verus! {

/// A state update handed to the frontend for rendering: a full snapshot
/// is set immediately, an incremental step may be animated.
pub enum ViewStateUpdate<ViewState, DeltaInformation> {
    /// A complete snapshot; the frontend hard-sets its visuals.
    Full(ViewState),
    /// One incremental change; the frontend may animate it.
    Incremental(DeltaInformation),
}

/// The lifecycle of a session:
/// `Disconnected -> AwaitingHandshake -> ExecutingHandshake -> Connected`,
/// falling back to `Disconnected` on any error or disconnect.
#[derive(Clone, PartialEq, Debug)]
pub enum ConnectionState {
    /// Not connected; the string holds the reason if an error led here.
    Disconnected {
        /// Why the last connection ended, if one did.
        error_string: Option<String>,
    },
    /// The connection is opening; the handshake has not been sent.
    AwaitingHandshake,
    /// The handshake was sent; waiting for the relay's answer.
    ExecutingHandshake,
    /// The session is live.
    Connected {
        /// Whether this peer hosts the game and runs the backend.
        is_server: bool,
        /// The id of this peer; the host is always 0.
        player_id: u16,
        /// The rule variation of the room.
        rule_set: u16,
    },
}

/// A command the game backend hands the transport to act on.
pub enum BackendCommand<DeltaInformation> {
    /// An incremental state change for every frontend.
    Delta(DeltaInformation),
    /// Discard transient state everywhere and hard-set the view state.
    ResetViewState,
    /// Remove the named player from the session.
    KickPlayer {
        /// The player to disconnect.
        player: u16,
    },
    /// Arrange a `timer_triggered` call after the duration, in the ticks
    /// the embedder counts in; a timer with the same id is replaced.
    SetTimer {
        /// The timer to set.
        timer_id: u16,
        /// The time until it fires.
        duration: u64,
    },
    /// Cancel the named timer; nothing happens if it is gone.
    CancelTimer {
        /// The timer to cancel.
        timer_id: u16,
    },
    /// Close the whole room and disconnect everyone.
    TerminateRoom,
}

/// What the relay's handshake answer grants.
pub struct GameSetting {
    /// The id assigned to this peer.
    pub player_id: u16,
    /// The rule variation of the room.
    pub rule_variation: u16,
}

/// An event the host's inbox delivers.
pub enum ToServerCommands<ServerRpcPayload> {
    /// The named client joined the room.
    ClientJoin(u16),
    /// The named client left the room.
    ClientLeft(u16),
    /// The named client sent a game action.
    Rpc(u16, ServerRpcPayload),
}

/// A value with a self-delimiting wire form, so that a concatenation of
/// encoded values can be decoded value by value.
pub trait SerializationCap: Sized {
    /// The wire form of this value.
    spec fn wire(&self) -> Seq<u8>;

    /// Encodes the value; the result is exactly its wire form.
    fn serialize(&self) -> (r: Vec<u8>)
        ensures
            r@ == self.wire(),
    ;

    /// Decodes the value whose wire form starts at `pos`. `None` comes
    /// exactly when no value's wire form starts there.
    fn deserialize_prefix(buf: &Vec<u8>, pos: usize) -> (r: Option<(Self, usize)>)
        requires
            pos <= buf@.len(),
        ensures
            match r {
                Some(p) => pos < p.1 <= buf@.len() && buf@.subrange(pos as int, p.1 as int)
                    == p.0.wire(),
                None => forall|v: Self, end: int|
                    pos <= end <= buf@.len() ==> buf@.subrange(pos as int, end) != v.wire(),
            },
    ;
}

/// The capability set the transport expects of a game backend: it is
/// purely event-driven, owns the authoritative view state, and emits
/// commands the transport drains every tick.
pub trait BackEndArchitecture<ServerRpcPayload, DeltaInformation, ViewState>: Sized {
    /// Starts the game logic under the given rule variation.
    fn new(rule_variation: u16) -> Self;

    /// Called when a player connects to the room.
    fn player_arrival(&mut self, player: u16);

    /// Called when a player leaves the room.
    fn player_departure(&mut self, player: u16);

    /// Called with every game action a player sends.
    fn inform_rpc(&mut self, player: u16, payload: ServerRpcPayload);

    /// Called when a timer set through `SetTimer` fires.
    fn timer_triggered(&mut self, timer_id: u16);

    /// The complete current state, used to synchronize clients.
    fn get_view_state(&self) -> &ViewState;

    /// Hands over and clears the commands emitted since the last drain.
    fn drain_commands(&mut self) -> Vec<BackendCommand<DeltaInformation>>;
}

/// Why the transport dropped a connection on its own account.
#[derive(PartialEq, Eq, Structural, Clone, Copy, Debug)]
pub enum TransportFault {
    /// The peer sent an empty or truncated frame.
    MalformedFrame,
    /// A frame carried a tag this role does not accept.
    UnknownMessage,
    /// A game payload could not be decoded.
    UndecodablePayload,
}

/// Whether the frame is a well-formed id-carrying frame with this tag.
pub open spec fn id_frame(frame: Seq<u8>, tag: u8, id: u16) -> bool {
    frame.len() >= 3 && frame[0] == tag && frame.subrange(1, 3) == u16_be(id)
}

/// Whether the command is what the frame says, under the host inbox
/// rules: the tag, the spliced-in id, and (for an action) a payload
/// whose wire form opens the frame's body.
pub open spec fn frame_commands<R: SerializationCap>(
    frame: Seq<u8>,
    c: ToServerCommands<R>,
) -> bool {
    match c {
        ToServerCommands::ClientJoin(id) => id_frame(frame, NEW_CLIENT, id),
        ToServerCommands::ClientLeft(id) => id_frame(frame, CLIENT_DISCONNECTS, id),
        ToServerCommands::Rpc(id, payload) => id_frame(frame, SERVER_RPC, id) && 3
            + payload.wire().len() <= frame.len() && frame.subrange(
            3,
            3 + payload.wire().len() as int,
        ) == payload.wire(),
    }
}

/// Whether one frame obeys the relay-to-host rules: one of the three
/// inbox tags, the spliced-in id, and (for an action) a body that opens
/// with some payload's wire form.
pub open spec fn inbox_frame_ok<R: SerializationCap>(f: Seq<u8>) -> bool {
    f.len() >= 3 && (f[0] == NEW_CLIENT || f[0] == CLIENT_DISCONNECTS || (f[0] == SERVER_RPC
        && exists|p: R, end: int|
        #![trigger f.subrange(3, end), p.wire()]
        3 <= end <= f.len() && f.subrange(3, end) == p.wire()))
}

/// Whether every frame of the batch obeys the relay-to-host rules.
pub open spec fn all_inbox_ok<R: SerializationCap>(frames: Seq<Vec<u8>>) -> bool {
    forall|i: int| 0 <= i < frames.len() ==> inbox_frame_ok::<R>((#[trigger] frames[i])@)
}

/// The first frame, from `i` on, that breaks the relay-to-host rules;
/// the length when none does.
pub open spec fn first_bad_inbox<R: SerializationCap>(frames: Seq<Vec<u8>>, i: int) -> int
    decreases frames.len() - i,
    when 0 <= i <= frames.len()
{
    if i >= frames.len() {
        i
    } else if !inbox_frame_ok::<R>(frames[i]@) {
        i
    } else {
        first_bad_inbox::<R>(frames, i + 1)
    }
}

/// When the frames up to `i` obey the rules and the one at `i` does not
/// (or there is none), `i` is the first offender (or the length).
proof fn lemma_first_bad_inbox<R: SerializationCap>(frames: Seq<Vec<u8>>, k: int, i: int)
    requires
        0 <= k <= i <= frames.len(),
        forall|j: int| k <= j < i ==> inbox_frame_ok::<R>((#[trigger] frames[j])@),
        i == frames.len() || !inbox_frame_ok::<R>(frames[i]@),
    ensures
        first_bad_inbox::<R>(frames, k) == i,
    decreases i - k,
{
    if k < i {
        lemma_first_bad_inbox::<R>(frames, k + 1, i);
    }
}

/// Parses everything the host inbox delivered this tick. It succeeds
/// exactly when every frame obeys the relay-to-host rules; each frame
/// then becomes exactly one event, in order. Otherwise the first
/// offending frame decides the refusal, and a `SERVER_ERROR` frame's
/// UTF-8 text is carried out as the reason.
pub fn server_receive_commands_for<R: SerializationCap>(frames: &Vec<Vec<u8>>) -> (r: Result<
    Vec<ToServerCommands<R>>,
    (TransportFault, Option<String>),
>)
    ensures
        r is Ok <==> all_inbox_ok::<R>(frames@),
        match r {
            Ok(cmds) => cmds@.len() == frames@.len() && forall|i: int|
                0 <= i < cmds@.len() ==> frame_commands(frames@[i]@, #[trigger] cmds@[i]),
            Err(e) => ({
                let b = first_bad_inbox::<R>(frames@, 0);
                &&& 0 <= b < frames@.len()
                &&& !inbox_frame_ok::<R>(frames@[b]@)
                &&& (frames@[b]@.len() >= 1 && frames@[b]@[0] == SERVER_ERROR
                    ==> error_frame_with_text(frames@[b]@, e.1))
            }),
        },
{
    let n = frames.len();
    let mut result: Vec<ToServerCommands<R>> = Vec::new();
    let mut i: usize = 0;
    #[verifier::loop_isolation(false)]
    while i < n
        invariant
            i <= n,
            result@.len() == i,
            forall|j: int| 0 <= j < i ==> frame_commands(frames@[j]@, #[trigger] result@[j]),
            forall|j: int| 0 <= j < i ==> inbox_frame_ok::<R>((#[trigger] frames@[j])@),
        decreases n - i,
    {
        let frame = &frames[i];
        let flen = frame.len();
        if flen == 0 {
            proof {
                lemma_first_bad_inbox::<R>(frames@, 0, i as int);
            }
            return Err((TransportFault::MalformedFrame, None));
        }
        let tag = frame[0];
        if tag == SERVER_ERROR {
            let text = error_text_of(frame);
            proof {
                lemma_first_bad_inbox::<R>(frames@, 0, i as int);
            }
            return Err((TransportFault::UnknownMessage, Some(text)));
        } else if tag == NEW_CLIENT {
            if flen < 3 {
                proof {
                    lemma_first_bad_inbox::<R>(frames@, 0, i as int);
                }
                return Err((TransportFault::MalformedFrame, None));
            }
            let id = read_u16_be(frame, 1);
            result.push(ToServerCommands::ClientJoin(id));
        } else if tag == CLIENT_DISCONNECTS {
            if flen < 3 {
                proof {
                    lemma_first_bad_inbox::<R>(frames@, 0, i as int);
                }
                return Err((TransportFault::MalformedFrame, None));
            }
            let id = read_u16_be(frame, 1);
            result.push(ToServerCommands::ClientLeft(id));
        } else if tag == SERVER_RPC {
            if flen < 3 {
                proof {
                    lemma_first_bad_inbox::<R>(frames@, 0, i as int);
                }
                return Err((TransportFault::MalformedFrame, None));
            }
            let id = read_u16_be(frame, 1);
            // The body opens with one encoded payload; what follows it is
            // not interpreted.
            let decoded = R::deserialize_prefix(frame, 3);
            let Some((payload, consumed)) = decoded else {
                proof {
                    lemma_first_bad_inbox::<R>(frames@, 0, i as int);
                }
                return Err((TransportFault::UndecodablePayload, None));
            };
            proof {
                assert(frame@.subrange(3, consumed as int) == payload.wire());
                assert(inbox_frame_ok::<R>(frame@));
            }
            result.push(ToServerCommands::Rpc(id, payload));
        } else {
            proof {
                lemma_first_bad_inbox::<R>(frames@, 0, i as int);
            }
            return Err((TransportFault::UnknownMessage, None));
        }
        i = i + 1;
    }
    Ok(result)
}

/// The reason text of a `SERVER_ERROR` frame; a fixed note when the bytes
/// are not UTF-8.
fn error_text_of(frame: &Vec<u8>) -> (r: String)
    requires
        frame@.len() >= 1,
    ensures
        valid_utf8(frame@.skip(1)) ==> r@ == decode_utf8(frame@.skip(1)),
{
    let n = frame.len();
    let body = vstd::slice::slice_to_vec(&frame.as_slice()[1..n]);
    proof {
        assert(frame@.subrange(1, n as int) =~= frame@.skip(1));
    }
    let parsed = crate::codec::string_from_utf8(body);
    match parsed {
        Some(s) => s,
        None => "Unreadable error message received.".to_owned(),
    }
}

/// Whether the frame is a well-formed handshake answer.
pub open spec fn handshake_answer_ok(frame: Seq<u8>) -> bool {
    frame.len() >= 5 && frame[0] == HAND_SHAKE_RESPONSE
}

/// The player id a handshake answer grants.
pub open spec fn granted_player_id(frame: Seq<u8>) -> u16 {
    u16_of(frame[1], frame[2])
}

/// The rule variation a handshake answer grants.
pub open spec fn granted_rule_variation(frame: Seq<u8>) -> u16 {
    u16_of(frame[3], frame[4])
}

/// Whether the frame is a `SERVER_ERROR` whose text the session stores.
pub open spec fn error_frame_with_text(frame: Seq<u8>, text: Option<String>) -> bool {
    frame.len() >= 1 && frame[0] == SERVER_ERROR && (valid_utf8(frame.skip(1)) ==> (
    text matches Some(t) && t@ == decode_utf8(frame.skip(1))))
}

/// Parses the relay's answer during the handshake: a well-formed
/// `HAND_SHAKE_RESPONSE` grants the session — the two granted values are
/// exactly its byte pairs — a `SERVER_ERROR` carries the refusal text,
/// anything else is a protocol violation.
pub fn update_connecting(frame: &Vec<u8>) -> (r: Result<GameSetting, (TransportFault, Option<
    String,
>)>)
    ensures
        match r {
            Ok(g) => handshake_answer_ok(frame@) && g.player_id == granted_player_id(frame@)
                && g.rule_variation == granted_rule_variation(frame@),
            Err(e) => !handshake_answer_ok(frame@) && (frame@.len() >= 1 && frame@[0]
                == SERVER_ERROR ==> error_frame_with_text(frame@, e.1)),
        },
{
    let n = frame.len();
    if n == 0 {
        return Err((TransportFault::MalformedFrame, None));
    }
    let tag = frame[0];
    if tag == SERVER_ERROR {
        let text = error_text_of(frame);
        return Err((TransportFault::UnknownMessage, Some(text)));
    }
    if tag != HAND_SHAKE_RESPONSE {
        return Err((TransportFault::UnknownMessage, None));
    }
    if n < 5 {
        return Err((TransportFault::MalformedFrame, None));
    }
    let player_id = read_u16_be(frame, 1);
    let rule_variation = read_u16_be(frame, 3);
    Ok(GameSetting { player_id, rule_variation })
}

/// Whether the commands contain a room termination.
pub open spec fn has_terminate<D>(cmds: Seq<BackendCommand<D>>) -> bool {
    exists|i: int| 0 <= i < cmds.len() && cmds[i] is TerminateRoom
}

/// The commands before the first room termination; all of them when there
/// is none. Commands after a termination are never acted on.
pub open spec fn prefix_before_terminate<D>(cmds: Seq<BackendCommand<D>>) -> Seq<
    BackendCommand<D>,
>
    decreases cmds.len(),
{
    if cmds.len() == 0 {
        seq![]
    } else if cmds[0] is TerminateRoom {
        seq![]
    } else {
        seq![cmds[0]] + prefix_before_terminate(cmds.drop_first())
    }
}

/// One timer operation of a tick, in command order.
#[derive(PartialEq, Eq, Structural, Clone, Copy, Debug)]
pub enum TimerOp {
    /// Start the timer, replacing one under the same id.
    Start {
        /// The timer to set.
        timer_id: u16,
        /// The time until it fires.
        duration: u64,
    },
    /// Cancel the timer.
    Cancel {
        /// The timer to cancel.
        timer_id: u16,
    },
}

/// The timer operations the commands ask for, in order.
pub open spec fn timer_ops_of<D>(cmds: Seq<BackendCommand<D>>) -> Seq<TimerOp>
    decreases cmds.len(),
{
    if cmds.len() == 0 {
        seq![]
    } else {
        timer_ops_of(cmds.drop_last()) + match cmds.last() {
            BackendCommand::SetTimer { timer_id, duration } => seq![
                TimerOp::Start { timer_id, duration },
            ],
            BackendCommand::CancelTimer { timer_id } => seq![TimerOp::Cancel { timer_id }],
            _ => seq![],
        }
    }
}

/// The players the commands kick, in order.
pub open spec fn kicks_of<D>(cmds: Seq<BackendCommand<D>>) -> Seq<u16>
    decreases cmds.len(),
{
    if cmds.len() == 0 {
        seq![]
    } else {
        kicks_of(cmds.drop_last()) + match cmds.last() {
            BackendCommand::KickPlayer { player } => seq![player],
            _ => seq![],
        }
    }
}

/// The deltas the commands carry, in order.
pub open spec fn deltas_of<D>(cmds: Seq<BackendCommand<D>>) -> Seq<D>
    decreases cmds.len(),
{
    if cmds.len() == 0 {
        seq![]
    } else {
        deltas_of(cmds.drop_last()) + match cmds.last() {
            BackendCommand::Delta(d) => seq![d],
            _ => seq![],
        }
    }
}

/// Whether the commands ask for a view-state reset.
pub open spec fn has_reset<D>(cmds: Seq<BackendCommand<D>>) -> bool {
    exists|i: int| 0 <= i < cmds.len() && cmds[i] is ResetViewState
}

/// A drained command list, partitioned for the host tick.
pub struct CommandDispatch<DeltaInformation> {
    /// Whether the room is to be terminated; later commands are dropped.
    pub terminate: bool,
    /// The timer operations, in command order.
    pub timer_ops: Vec<TimerOp>,
    /// The players to kick, in order.
    pub kicks: Vec<u16>,
    /// Whether this tick resets the view state; deltas are then dropped.
    pub reset: bool,
    /// The deltas to pass on, in order.
    pub deltas: Vec<DeltaInformation>,
}

/// When the first `i` commands hold no termination and the command at `i`
/// is one (or there is none at all), the acted-on prefix is exactly those
/// `i` commands.
proof fn lemma_prefix_before_terminate<D>(cmds: Seq<BackendCommand<D>>, i: int)
    requires
        0 <= i <= cmds.len(),
        forall|j: int| 0 <= j < i ==> !(#[trigger] cmds[j] is TerminateRoom),
        i == cmds.len() || cmds[i] is TerminateRoom,
    ensures
        prefix_before_terminate(cmds) == cmds.take(i),
        has_terminate(cmds) == (i < cmds.len()),
    decreases cmds.len(),
{
    if cmds.len() == 0 {
        assert(cmds.take(i) =~= Seq::<BackendCommand<D>>::empty());
    } else if i == 0 {
        assert(cmds.take(0) =~= Seq::<BackendCommand<D>>::empty());
        if i < cmds.len() {
            assert(has_terminate(cmds));
        }
    } else {
        let rest = cmds.drop_first();
        assert forall|j: int| 0 <= j < i - 1 implies !(#[trigger] rest[j] is TerminateRoom) by {
            assert(rest[j] == cmds[j + 1]);
        }
        lemma_prefix_before_terminate(rest, i - 1);
        assert(prefix_before_terminate(cmds) == seq![cmds[0]] + rest.take(i - 1));
        assert(seq![cmds[0]] + rest.take(i - 1) =~= cmds.take(i));
        if i < cmds.len() {
            assert(rest[i - 1] is TerminateRoom);
            assert(cmds[i] is TerminateRoom);
        } else {
            if has_terminate(cmds) {
                let k = choose|k: int| 0 <= k < cmds.len() && cmds[k] is TerminateRoom;
                assert(false);
            }
        }
    }
}

/// Partitions a drained command list: everything up to the first room
/// termination is split into timer operations, kicks, deltas and the
/// reset flag, exactly in order; the rest is dropped.
#[verifier::rlimit(50)]
pub fn process_backend_commands<D>(commands: &mut Vec<BackendCommand<D>>) -> (r: CommandDispatch<
    D,
>)
    ensures
        ({
            let pre = prefix_before_terminate((*old(commands))@);
            &&& r.terminate == has_terminate((*old(commands))@)
            &&& r.timer_ops@ == timer_ops_of(pre)
            &&& r.kicks@ == kicks_of(pre)
            &&& r.reset == has_reset(pre)
            &&& r.deltas@ == deltas_of(pre)
        }),
{
    let ghost all = (*old(commands))@;
    let mut timer_ops: Vec<TimerOp> = Vec::new();
    let mut kicks: Vec<u16> = Vec::new();
    let mut deltas: Vec<D> = Vec::new();
    let mut reset: bool = false;
    let ghost mut i: int = 0;
    proof {
        assert(all.take(0) =~= Seq::<BackendCommand<D>>::empty());
    }
    #[verifier::loop_isolation(false)]
    loop
        invariant
            0 <= i <= all.len(),
            (*commands)@ =~= all.skip(i),
            forall|j: int| 0 <= j < i ==> !(#[trigger] all[j] is TerminateRoom),
            timer_ops@ == timer_ops_of(all.take(i)),
            kicks@ == kicks_of(all.take(i)),
            deltas@ == deltas_of(all.take(i)),
            reset == has_reset(all.take(i)),
        decreases all.len() - i,
    {
        if commands.len() == 0 {
            proof {
                assert(i == all.len());
                lemma_prefix_before_terminate(all, i);
                assert(all.take(i) =~= all);
            }
            return CommandDispatch { terminate: false, timer_ops, kicks, reset, deltas };
        }
        let c = commands.remove(0);
        proof {
            assert(c == all[i]);
            assert(all.take(i + 1).drop_last() =~= all.take(i));
            assert(all.take(i + 1).last() == all[i]);
        }
        match c {
            BackendCommand::TerminateRoom => {
                proof {
                    lemma_prefix_before_terminate(all, i);
                }
                return CommandDispatch { terminate: true, timer_ops, kicks, reset, deltas };
            },
            BackendCommand::SetTimer { timer_id, duration } => {
                timer_ops.push(TimerOp::Start { timer_id, duration });
            },
            BackendCommand::CancelTimer { timer_id } => {
                timer_ops.push(TimerOp::Cancel { timer_id });
            },
            BackendCommand::KickPlayer { player } => {
                kicks.push(player);
            },
            BackendCommand::ResetViewState => {
                reset = true;
                proof {
                    assert(has_reset(all.take(i + 1)));
                }
            },
            BackendCommand::Delta(d) => {
                deltas.push(d);
            },
        }
        proof {
            if !reset {
                if has_reset(all.take(i + 1)) {
                    let k = choose|k: int|
                        0 <= k < all.take(i + 1).len() && #[trigger] all.take(i + 1)[k]
                            is ResetViewState;
                    assert(all.take(i)[k] is ResetViewState);
                }
            } else {
                if has_reset(all.take(i)) {
                    let k = choose|k: int|
                        0 <= k < i && all.take(i)[k] is ResetViewState;
                    assert(all.take(i + 1)[k] is ResetViewState);
                } else {
                    assert(all.take(i + 1)[i] is ResetViewState || has_reset(all.take(i)));
                }
            }
            assert((*commands)@ =~= all.skip(i + 1));
            i = i + 1;
        }
    }
}

/// The concatenation of the wire forms of the values, in order.
pub open spec fn wires_concat<D: SerializationCap>(ds: Seq<D>) -> Seq<u8>
    decreases ds.len(),
{
    if ds.len() == 0 {
        seq![]
    } else {
        wires_concat(ds.drop_last()) + ds.last().wire()
    }
}

/// The concatenation of the parts, in order.
pub open spec fn flat_concat<T>(parts: Seq<Seq<T>>) -> Seq<T>
    decreases parts.len(),
{
    if parts.len() == 0 {
        Seq::empty()
    } else {
        flat_concat(parts.drop_last()) + parts.last()
    }
}

/// What one cleanly digested broadcast frame adds to the frontend queue:
/// a delta bundle becomes one incremental update per encoded delta, in
/// order and covering the whole payload; a full sync or reset becomes
/// one snapshot whose wire form opens the payload.
pub open spec fn client_digest<ViewState: SerializationCap, DeltaInformation: SerializationCap>(
    frame: Seq<u8>,
    added: Seq<ViewStateUpdate<ViewState, DeltaInformation>>,
) -> bool {
    &&& frame.len() >= 1
    &&& if frame[0] == DELTA_UPDATE {
        &&& forall|k: int| 0 <= k < added.len() ==> (#[trigger] added[k]) is Incremental
        &&& wires_concat(
            added.map_values(
                |u: ViewStateUpdate<ViewState, DeltaInformation>| u->Incremental_0,
            ),
        ) == frame.skip(1)
    } else if frame[0] == FULL_UPDATE || frame[0] == RESET {
        &&& added.len() == 1
        &&& added[0] is Full
        &&& exists|end: int|
            1 <= end <= frame.len() && #[trigger] frame.subrange(1, end)
                == added[0]->Full_0.wire()
    } else {
        false
    }
}

/// The timer entries after the operations were applied in order.
pub open spec fn timer_ops_applied(entries: Seq<(u16, u64)>, ops: Seq<TimerOp>) -> Seq<(
    u16,
    u64,
)>
    decreases ops.len(),
{
    if ops.len() == 0 {
        entries
    } else {
        let prev = timer_ops_applied(entries, ops.drop_last());
        match ops.last() {
            TimerOp::Start { timer_id, duration } => crate::timer::spec_set(
                prev,
                timer_id,
                duration,
            ),
            TimerOp::Cancel { timer_id } => crate::timer::remove_id(prev, timer_id),
        }
    }
}

/// Applies one tick's timer operations to the wheel, in command order: a
/// start replaces any timer under its id, a cancel removes it.
pub fn apply_timer_ops(timer: &mut Timer, ops: &Vec<TimerOp>)
    ensures
        final(timer).entries() == timer_ops_applied(old(timer).entries(), ops@),
{
    let n = ops.len();
    let mut i: usize = 0;
    #[verifier::loop_isolation(false)]
    while i < n
        invariant
            i <= n,
            timer.entries() == timer_ops_applied(old(timer).entries(), ops@.take(i as int)),
        decreases n - i,
    {
        proof {
            assert(ops@.take(i + 1).drop_last() =~= ops@.take(i as int));
            assert(ops@.take(i + 1).last() == ops@[i as int]);
        }
        match ops[i] {
            TimerOp::Start { timer_id, duration } => {
                timer.start_timer(timer_id, duration);
            },
            TimerOp::Cancel { timer_id } => {
                timer.cancel_timer(timer_id);
            },
        }
        i = i + 1;
    }
    proof {
        assert(ops@.take(n as int) =~= ops@);
    }
}

/// Whether the frame at index `i` is nonempty and carries the tag.
pub open spec fn tagged(fs: Seq<Vec<u8>>, i: int, tag: u8) -> bool {
    fs[i]@.len() > 0 && fs[i]@[0] == tag
}

/// What a host tick may put on the broadcast: only legal host-to-client
/// frames; at most one reset, one delta bundle and one full sync; and a
/// reset coalesces the tick — beside it no delta and no full sync leaves.
pub open spec fn host_frames_wf(fs: Seq<Vec<u8>>) -> bool {
    &&& forall|i: int| 0 <= i < fs.len() ==> (#[trigger] fs[i]@).len() > 0
    &&& forall|i: int|
        0 <= i < fs.len() ==> ((#[trigger] fs[i]@)[0] == CLIENT_GETS_KICKED || fs[i]@[0]
            == SERVER_DISCONNECTS || fs[i]@[0] == RESET || fs[i]@[0] == DELTA_UPDATE || fs[i]@[0]
            == FULL_UPDATE)
    &&& forall|i: int, j: int|
        0 <= i < fs.len() && 0 <= j < fs.len() && #[trigger] tagged(fs, i, RESET)
            && #[trigger] tagged(fs, j, RESET) ==> i == j
    &&& forall|i: int, j: int|
        0 <= i < fs.len() && 0 <= j < fs.len() && #[trigger] tagged(fs, i, DELTA_UPDATE)
            && #[trigger] tagged(fs, j, DELTA_UPDATE) ==> i == j
    &&& forall|i: int, j: int|
        0 <= i < fs.len() && 0 <= j < fs.len() && #[trigger] tagged(fs, i, FULL_UPDATE)
            && #[trigger] tagged(fs, j, FULL_UPDATE) ==> i == j
    &&& (exists|i: int| 0 <= i < fs.len() && #[trigger] tagged(fs, i, RESET)) ==> (forall|j: int|
        0 <= j < fs.len() ==> !(#[trigger] tagged(fs, j, DELTA_UPDATE)) && !tagged(
            fs,
            j,
            FULL_UPDATE,
        ))
}

/// What one call of `update` hands back to the embedding loop.
pub struct TickOutput {
    /// The frames to write to the socket, in order.
    pub frames: Vec<Vec<u8>>,
    /// Frames from the inbound batch that this tick did not digest; the
    /// embedder puts them in front of the next batch.
    pub unconsumed: Vec<Vec<u8>>,
}

/// The host-only half of a session: the backend, its timer wheel, and
/// the count of remote players.
struct ServerContext<Backend> {
    /// The game logic.
    back_end: Backend,
    /// The timer wheel the backend's timer commands drive.
    timer: Timer,
    /// How many remote players are subscribed; the local player is not
    /// counted.
    amount_of_remote_players: u16,
}

/// The central coordinator between frontend, backend and the network.
/// The embedding loop owns the socket and calls `update` every frame
/// with what arrived; the machine answers with what to send.
pub struct TransportLayer<ServerRpcPayload, DeltaInformation, Backend, ViewState> where
    ServerRpcPayload: SerializationCap,
    DeltaInformation: SerializationCap,
    ViewState: SerializationCap + Clone,
    Backend: BackEndArchitecture<ServerRpcPayload, DeltaInformation, ViewState>,
 {
    /// The host-only state; present exactly while connected as the host.
    server_context: Option<ServerContext<Backend>>,
    /// The updates queued for the frontend, oldest first.
    state_info_que: Vec<ViewStateUpdate<ViewState, DeltaInformation>>,
    /// The game actions queued by the frontend, oldest first.
    rpc_que: Vec<ServerRpcPayload>,
    /// Where in its lifecycle the session stands.
    connection_state: ConnectionState,
    /// The join request to send once the transport is ready.
    pending_join_request: Option<JoinRequest>,
    /// The relay's address, for the embedding loop to connect to.
    connection_string: String,
    /// The name of the game, as the relay's catalog lists it.
    game_name: String,
}

impl<ServerRpcPayload, DeltaInformation, Backend, ViewState> TransportLayer<
    ServerRpcPayload,
    DeltaInformation,
    Backend,
    ViewState,
> where
    ServerRpcPayload: SerializationCap,
    DeltaInformation: SerializationCap,
    ViewState: SerializationCap + Clone,
    Backend: BackEndArchitecture<ServerRpcPayload, DeltaInformation, ViewState>,
 {
    /// Where in its lifecycle the session stands.
    pub closed spec fn state(self) -> ConnectionState {
        self.connection_state
    }

    /// The updates queued for the frontend, oldest first.
    pub closed spec fn updates(self) -> Seq<ViewStateUpdate<ViewState, DeltaInformation>> {
        self.state_info_que@
    }

    /// The game actions queued by the frontend, oldest first.
    pub closed spec fn rpcs(self) -> Seq<ServerRpcPayload> {
        self.rpc_que@
    }

    /// The join request that opens the pending connection.
    pub closed spec fn pending(self) -> Option<JoinRequest> {
        self.pending_join_request
    }

    /// The machine's internal consistency: a connected host has its
    /// context, and a connection being opened has its join request.
    pub closed spec fn wf(self) -> bool {
        &&& (self.connection_state matches ConnectionState::Connected { is_server: true, .. }
            ==> self.server_context is Some)
        &&& (self.connection_state is AwaitingHandshake ==> self.pending_join_request is Some)
        &&& (self.connection_state is ExecutingHandshake ==> self.pending_join_request is Some)
    }

    /// A fresh, disconnected transport layer for the given relay address
    /// and game name.
    pub fn generate_transport_layer(connection_string: String, game_name: String) -> (r: Self)
        ensures
            r.wf(),
            r.state() == (ConnectionState::Disconnected { error_string: None }),
            r.updates().len() == 0,
            r.rpcs().len() == 0,
    {
        TransportLayer {
            server_context: None,
            state_info_que: Vec::new(),
            rpc_que: Vec::new(),
            connection_state: ConnectionState::Disconnected { error_string: None },
            pending_join_request: None,
            connection_string,
            game_name,
        }
    }

    /// The current connection state, for the frontend to branch on.
    pub fn connection_state(&self) -> (r: &ConnectionState)
        ensures
            *r == self.state(),
    {
        &self.connection_state
    }

    /// The relay address, as a spec value.
    pub closed spec fn address(self) -> String {
        self.connection_string
    }

    /// The relay address this layer was created for.
    pub fn connection_address(&self) -> (r: &String)
        ensures
            r == self.address(),
    {
        &self.connection_string
    }

    /// Queues a game action: the host tick hands it to the backend as
    /// player 0, a client tick sends it to the relay.
    pub fn register_server_rpc(&mut self, payload: ServerRpcPayload)
        ensures
            final(self).rpcs() == old(self).rpcs().push(payload),
            final(self).updates() == old(self).updates(),
            final(self).state() == old(self).state(),
            final(self).wf() == old(self).wf(),
    {
        self.rpc_que.push(payload);
    }

    /// Hands the frontend the oldest pending update, if any.
    pub fn get_next_update(&mut self) -> (r: Option<
        ViewStateUpdate<ViewState, DeltaInformation>,
    >)
        ensures
            old(self).updates().len() == 0 ==> r is None && final(self).updates()
                == old(self).updates(),
            old(self).updates().len() > 0 ==> r == Some(old(self).updates()[0])
                && final(self).updates() == old(self).updates().drop_first(),
            final(self).state() == old(self).state(),
            final(self).rpcs() == old(self).rpcs(),
            final(self).wf() == old(self).wf(),
    {
        if self.state_info_que.len() == 0 {
            None
        } else {
            let first = self.state_info_que.remove(0);
            proof {
                assert(final(self).state_info_que@ =~= old(self).state_info_que@.drop_first());
            }
            Some(first)
        }
    }

    /// Begins hosting: remembers a room-creating join request and waits
    /// for the embedding loop to open the connection.
    pub fn start_game_server(&mut self, room_name: String, rule_variation: u16)
        requires
            old(self).state() is Disconnected,
        ensures
            final(self).wf(),
            final(self).state() is AwaitingHandshake,
            match final(self).pending() {
                Some(req) => req.game_id@ == old(self).game_name()@ && req.room_id@ == room_name@
                    && req.rule_variation == rule_variation && req.create_room,
                None => false,
            },
            final(self).updates() == old(self).updates(),
            final(self).rpcs() == old(self).rpcs(),
    {
        self.connection_initialize(room_name, rule_variation, true);
    }

    /// Begins joining: remembers a room-joining join request and waits
    /// for the embedding loop to open the connection.
    pub fn start_game_client(&mut self, room_name: String)
        requires
            old(self).state() is Disconnected,
        ensures
            final(self).wf(),
            final(self).state() is AwaitingHandshake,
            match final(self).pending() {
                Some(req) => req.game_id@ == old(self).game_name()@ && req.room_id@ == room_name@
                    && req.rule_variation == 0 && !req.create_room,
                None => false,
            },
            final(self).updates() == old(self).updates(),
            final(self).rpcs() == old(self).rpcs(),
    {
        self.connection_initialize(room_name, 0, false);
    }

    /// The name of the game, as handed to `generate_transport_layer`.
    pub closed spec fn game_name(self) -> String {
        self.game_name
    }

    /// Remembers the join request and enters the opening state.
    fn connection_initialize(&mut self, room_name: String, rule_variation: u16, is_server: bool)
        requires
            old(self).state() is Disconnected,
        ensures
            final(self).wf(),
            final(self).state() is AwaitingHandshake,
            match final(self).pending() {
                Some(req) => req.game_id@ == old(self).game_name()@ && req.room_id@ == room_name@
                    && req.rule_variation == rule_variation && req.create_room == is_server,
                None => false,
            },
            final(self).updates() == old(self).updates(),
            final(self).rpcs() == old(self).rpcs(),
    {
        self.server_context = None;
        self.pending_join_request = Some(
            JoinRequest {
                game_id: self.game_name.clone(),
                room_id: room_name,
                rule_variation,
                create_room: is_server,
            },
        );
        self.connection_state = ConnectionState::AwaitingHandshake;
    }

    /// Leaves the current game on purpose: while connected, hands back
    /// the departure frame to send and forgets the session; otherwise
    /// nothing happens.
    pub fn disconnect(&mut self) -> (r: Option<Vec<u8>>)
        requires
            old(self).wf(),
        ensures
            final(self).wf(),
            match old(self).state() {
                ConnectionState::Connected { is_server, .. } => {
                    &&& final(self).state() matches ConnectionState::Disconnected {
                        error_string: Some(e),
                    } && e@ == "Disconnected from server"@
                    &&& match r {
                        Some(frame) => if is_server {
                            frame@ == seq![SERVER_DISCONNECTS]
                        } else {
                            frame@ == seq![CLIENT_DISCONNECTS_SELF]
                        },
                        None => false,
                    }
                },
                _ => r is None && final(self).state() == old(self).state(),
            },
    {
        let is_server = match &self.connection_state {
            ConnectionState::Connected { is_server, .. } => *is_server,
            _ => {
                return None;
            },
        };
        let mut frame: Vec<u8> = Vec::new();
        if is_server {
            frame.push(SERVER_DISCONNECTS);
        } else {
            frame.push(CLIENT_DISCONNECTS_SELF);
        }
        proof {
            if is_server {
                assert(frame@ =~= seq![SERVER_DISCONNECTS]);
            } else {
                assert(frame@ =~= seq![CLIENT_DISCONNECTS_SELF]);
            }
        }
        self.mark_error("Disconnected from server".to_owned());
        self.server_context = None;
        Some(frame)
    }

    /// Ends the session with the given reason and drops all connection
    /// state.
    fn mark_error(&mut self, error: String)
        ensures
            final(self).wf(),
            final(self).state() matches ConnectionState::Disconnected { error_string: Some(e) }
                && e == error,
            final(self).updates() == old(self).updates(),
            final(self).rpcs() == old(self).rpcs(),
    {
        self.connection_state = ConnectionState::Disconnected { error_string: Some(error) };
        self.server_context = None;
        self.pending_join_request = None;
    }

    /// Advances the session by one frame. `delta_time` counts the ticks
    /// since the last call in the embedder's unit; `inbound` carries the
    /// binary frames the socket delivered since then, or the transport
    /// error that ended the connection. The output holds the frames to
    /// write and what of the inbound batch is still undigested.
    ///
    /// While disconnected nothing happens. While the handshake runs, the
    /// first inbound frame decides between `Connected` and
    /// `Disconnected`. A connected host runs the host tick: timers fire,
    /// queued actions and inbound events reach the backend, and the
    /// drained commands leave as broadcast frames, coalesced so that a
    /// reset tick emits no delta and no full sync beside the one reset. A
    /// connected client sends one RPC frame per queued action and turns
    /// inbound frames into frontend updates.
    pub fn update(&mut self, delta_time: u64, inbound: Result<Vec<Vec<u8>>, String>) -> (r:
        TickOutput)
        requires
            old(self).wf(),
        ensures
            final(self).wf(),
            final(self).updates().len() >= old(self).updates().len(),
            final(self).updates().take(old(self).updates().len() as int) == old(self).updates(),
            old(self).state() is Disconnected ==> final(self).state() == old(self).state()
                && r.frames@.len() == 0,
            // A transport failure ends the session with the reported
            // reason.
            !(old(self).state() is Disconnected) ==> match inbound {
                Err(e) => final(self).state() == (ConnectionState::Disconnected {
                    error_string: Some(e),
                }),
                Ok(_) => true,
            },
            // Opening: the join request leaves as the one frame and the
            // handshake is under way; a request that cannot travel ends
            // the session instead.
            (old(self).state() is AwaitingHandshake && inbound is Ok) ==> match old(
                self,
            ).pending() {
                Some(req) => if crate::codec::fits_wire(req.game_id@) && crate::codec::fits_wire(
                    req.room_id@,
                ) {
                    &&& final(self).state() is ExecutingHandshake
                    &&& r.frames@.len() == 1
                    &&& r.frames@[0]@ == crate::codec::join_request_wire(
                        req.game_id@,
                        req.room_id@,
                        req.rule_variation,
                        req.create_room,
                    )
                } else {
                    final(self).state() is Disconnected
                },
                None => false,
            },
            // The relay's answer decides the session: a well-formed
            // grant connects with exactly its id and rule set, anything
            // else ends the session.
            (old(self).state() is ExecutingHandshake) ==> match inbound {
                Ok(frames) => frames@.len() > 0 ==> match old(self).pending() {
                    Some(req) => if handshake_answer_ok(frames@[0]@) {
                        final(self).state() == (ConnectionState::Connected {
                            is_server: req.create_room,
                            player_id: granted_player_id(frames@[0]@),
                            rule_set: granted_rule_variation(frames@[0]@),
                        })
                    } else {
                        final(self).state() matches ConnectionState::Disconnected {
                            error_string: Some(_),
                        }
                    },
                    None => false,
                },
                Err(_) => true,
            },
            (old(self).state() matches ConnectionState::Connected { is_server: true, .. })
                ==> match inbound {
                Ok(frames) => {
                    &&& host_frames_wf(r.frames@)
                    &&& final(self).rpcs().len() == 0
                    &&& ((exists|i: int|
                        0 <= i < r.frames@.len() && #[trigger] tagged(r.frames@, i, RESET))
                        ==> final(self).updates().len() == old(self).updates().len() + 1
                            && final(self).updates().last() is Full)
                    // A frame outside the relay-to-host rules ends the
                    // session; lawful frames leave it standing, unless
                    // the backend terminated the room.
                    &&& (!all_inbox_ok::<ServerRpcPayload>(frames@) ==> (final(self).state()
                        matches ConnectionState::Disconnected { error_string: Some(_) })
                        && r.frames@.len() == 0)
                    &&& (all_inbox_ok::<ServerRpcPayload>(frames@) ==> (final(self).state()
                        == old(self).state() || (final(self).state()
                        matches ConnectionState::Disconnected { error_string: Some(_) })))
                },
                Err(_) => true,
            },
            (old(self).state() matches ConnectionState::Connected { is_server: false, .. })
                ==> match inbound {
                Ok(frames) => {
                    &&& r.frames@.len() == old(self).rpcs().len()
                    &&& (forall|i: int|
                        0 <= i < r.frames@.len() ==> (#[trigger] r.frames@[i])@ == seq![
                            SERVER_RPC,
                        ] + old(self).rpcs()[i].wire())
                    &&& final(self).rpcs().len() == 0
                    // A survived tick digested every frame into the
                    // frontend queue; an error frame at the head ends
                    // the session with its reason.
                    &&& (final(self).state() == old(self).state() ==> exists|
                        adds: Seq<Seq<ViewStateUpdate<ViewState, DeltaInformation>>>,
                    |
                        adds.len() == frames@.len() && final(self).updates() == old(
                            self,
                        ).updates() + #[trigger] flat_concat(adds) && (forall|j: int|
                            0 <= j < adds.len() ==> client_digest(
                                frames@[j]@,
                                #[trigger] adds[j],
                            )))
                    &&& (frames@.len() > 0 && frames@[0]@.len() >= 1 && frames@[0]@[0]
                        == SERVER_ERROR ==> (final(self).state()
                        matches ConnectionState::Disconnected { error_string: Some(e) } && (
                        valid_utf8(frames@[0]@.skip(1)) ==> e@ == decode_utf8(
                            frames@[0]@.skip(1),
                        ))))
                },
                Err(_) => true,
            },
    {
        match inbound {
            Err(e) => {
                match &self.connection_state {
                    ConnectionState::Disconnected { .. } => {},
                    _ => {
                        self.mark_error(e);
                    },
                }
                TickOutput { frames: Vec::new(), unconsumed: Vec::new() }
            },
            Ok(frames) => {
                let state_kind = match &self.connection_state {
                    ConnectionState::Disconnected { .. } => 0u8,
                    ConnectionState::AwaitingHandshake => 1u8,
                    ConnectionState::ExecutingHandshake => 2u8,
                    ConnectionState::Connected { is_server: true, .. } => 3u8,
                    ConnectionState::Connected { is_server: false, .. } => 4u8,
                };
                if state_kind == 1 {
                    self.connection_update_awaiting()
                } else if state_kind == 2 {
                    self.connection_update_handshake(frames)
                } else if state_kind == 3 {
                    self.update_server(delta_time, &frames)
                } else if state_kind == 4 {
                    self.update_client(&frames)
                } else {
                    TickOutput { frames: Vec::new(), unconsumed: Vec::new() }
                }
            },
        }
    }

    /// Sends the pending join request; the handshake is then under way.
    fn connection_update_awaiting(&mut self) -> (r: TickOutput)
        requires
            old(self).wf(),
            old(self).state() is AwaitingHandshake,
        ensures
            final(self).wf(),
            final(self).updates() == old(self).updates(),
            final(self).rpcs() == old(self).rpcs(),
            r.unconsumed@.len() == 0,
            match old(self).pending() {
                Some(req) => if crate::codec::fits_wire(req.game_id@) && crate::codec::fits_wire(
                    req.room_id@,
                ) {
                    &&& final(self).state() is ExecutingHandshake
                    &&& final(self).pending() == old(self).pending()
                    &&& r.frames@.len() == 1
                    &&& r.frames@[0]@ == crate::codec::join_request_wire(
                        req.game_id@,
                        req.room_id@,
                        req.rule_variation,
                        req.create_room,
                    )
                } else {
                    final(self).state() is Disconnected && r.frames@.len() == 0
                },
                None => false,
            },
    {
        let encoded = match &self.pending_join_request {
            Some(req) => encode_join_request(req),
            None => None,
        };
        match encoded {
            Some(bytes) => {
                self.connection_state = ConnectionState::ExecutingHandshake;
                let mut frames: Vec<Vec<u8>> = Vec::new();
                frames.push(bytes);
                TickOutput { frames, unconsumed: Vec::new() }
            },
            None => {
                self.mark_error("Problem in serialization".to_owned());
                TickOutput { frames: Vec::new(), unconsumed: Vec::new() }
            },
        }
    }

    /// Digests the relay's answer to the handshake: the first inbound
    /// frame decides. A well-formed answer connects the session with
    /// exactly the granted id and rule set — the host additionally gets
    /// its backend and one snapshot for the frontend — and the remaining
    /// frames are left for the connected state; a refusal or a foreign
    /// frame ends the session with the carried reason; no frame leaves
    /// the state as it was.
    fn connection_update_handshake(&mut self, frames: Vec<Vec<u8>>) -> (r: TickOutput)
        requires
            old(self).wf(),
            old(self).state() is ExecutingHandshake,
        ensures
            final(self).wf(),
            final(self).updates().len() >= old(self).updates().len(),
            final(self).updates().take(old(self).updates().len() as int) == old(self).updates(),
            final(self).rpcs() == old(self).rpcs(),
            r.frames@.len() == 0,
            frames@.len() == 0 ==> final(self).state() == old(self).state()
                && final(self).updates() == old(self).updates() && r.unconsumed@.len() == 0,
            frames@.len() > 0 ==> match old(self).pending() {
                Some(req) => {
                    let first = frames@[0]@;
                    if handshake_answer_ok(first) {
                        &&& final(self).state() == (ConnectionState::Connected {
                            is_server: req.create_room,
                            player_id: granted_player_id(first),
                            rule_set: granted_rule_variation(first),
                        })
                        &&& (req.create_room ==> final(self).updates().len()
                            == old(self).updates().len() + 1 && final(self).updates().last()
                            is Full)
                        &&& (!req.create_room ==> final(self).updates() == old(self).updates())
                        &&& r.unconsumed@.len() == frames@.len() - 1
                        &&& forall|i: int|
                            0 <= i < r.unconsumed@.len() ==> (#[trigger] r.unconsumed@[i])@
                                == frames@[i + 1]@
                    } else {
                        &&& final(self).state() matches ConnectionState::Disconnected {
                            error_string: Some(e),
                        } && (first.len() >= 1 && first[0] == SERVER_ERROR && valid_utf8(
                            first.skip(1),
                        ) ==> e@ == decode_utf8(first.skip(1)))
                        &&& final(self).updates() == old(self).updates()
                        &&& r.unconsumed@.len() == 0
                    }
                },
                None => false,
            },
    {
        if frames.len() == 0 {
            return TickOutput { frames: Vec::new(), unconsumed: Vec::new() };
        }
        let outcome = update_connecting(&frames[0]);
        match outcome {
            Ok(setting) => {
                let is_server = match &self.pending_join_request {
                    Some(req) => req.create_room,
                    None => false,
                };
                self.connection_state = ConnectionState::Connected {
                    is_server,
                    player_id: setting.player_id,
                    rule_set: setting.rule_variation,
                };
                if is_server {
                    let mut back_end = Backend::new(setting.rule_variation);
                    back_end.player_arrival(0);
                    let snapshot = back_end.get_view_state().clone();
                    self.state_info_que.push(ViewStateUpdate::Full(snapshot));
                    self.server_context = Some(
                        ServerContext {
                            back_end,
                            timer: Timer::new(),
                            amount_of_remote_players: 0,
                        },
                    );
                }
                let mut unconsumed: Vec<Vec<u8>> = Vec::new();
                let n = frames.len();
                let mut i: usize = 1;
                #[verifier::loop_isolation(false)]
                while i < n
                    invariant
                        1 <= i <= n,
                        unconsumed@.len() == i - 1,
                        forall|k: int|
                            0 <= k < i - 1 ==> (#[trigger] unconsumed@[k])@ == frames@[k + 1]@,
                    decreases n - i,
                {
                    let copy = copy_frame(&frames[i]);
                    unconsumed.push(copy);
                    i = i + 1;
                }
                proof {
                    assert(final(self).updates().take(old(self).updates().len() as int) =~= old(
                        self,
                    ).updates());
                }
                TickOutput { frames: Vec::new(), unconsumed }
            },
            Err((_, text)) => {
                let reason = match text {
                    Some(t) => t,
                    None => "Unknown message received in handshake".to_owned(),
                };
                self.mark_error(reason);
                TickOutput { frames: Vec::new(), unconsumed: Vec::new() }
            },
        }
    }
    /// The host tick: fires due timers into the backend, hands it the
    /// queued local actions as player 0 and the inbound events, then
    /// drains its commands. Kicks leave first; a termination closes the
    /// room; a reset tick broadcasts one `RESET` and nothing else of the
    /// state; otherwise the deltas leave as one `DELTA_UPDATE` bundle and
    /// a tick that saw a joiner ends with one full sync.
    fn update_server(&mut self, delta_time: u64, frames: &Vec<Vec<u8>>) -> (r: TickOutput)
        requires
            old(self).wf(),
            old(self).state() matches ConnectionState::Connected { is_server: true, .. },
        ensures
            final(self).wf(),
            final(self).updates().len() >= old(self).updates().len(),
            final(self).updates().take(old(self).updates().len() as int) == old(self).updates(),
            host_frames_wf(r.frames@),
            // A reset tick hands the frontend exactly one update: the
            // snapshot; every delta of the tick stays unsent.
            (exists|i: int| 0 <= i < r.frames@.len() && #[trigger] tagged(r.frames@, i, RESET))
                ==> final(self).updates().len() == old(self).updates().len() + 1
                    && final(self).updates().last() is Full,
            final(self).rpcs().len() == 0,
            r.unconsumed@.len() == 0,
            // A frame outside the relay-to-host rules ends the session
            // with the first offender's reason; nothing is broadcast.
            !all_inbox_ok::<ServerRpcPayload>(frames@) ==> ({
                let b = first_bad_inbox::<ServerRpcPayload>(frames@, 0);
                &&& final(self).state() matches ConnectionState::Disconnected {
                    error_string: Some(e),
                } && (frames@[b]@.len() >= 1 && frames@[b]@[0] == SERVER_ERROR && valid_utf8(
                    frames@[b]@.skip(1),
                ) ==> e@ == decode_utf8(frames@[b]@.skip(1)))
                &&& r.frames@.len() == 0
                &&& final(self).updates() == old(self).updates()
            }),
            // With lawful input the session stays as it was, unless the
            // backend terminated the room.
            all_inbox_ok::<ServerRpcPayload>(frames@) ==> (final(self).state()
                == old(self).state() || (final(self).state()
                matches ConnectionState::Disconnected { error_string: Some(e) } && e@
                == "Critical player left."@)),
    {
        proof {
            assert(old(self).server_context is Some);
        }
        let taken = self.server_context.take();
        let Some(mut ctx) = taken else {
            proof {
                assert(false);
            }
            return TickOutput { frames: Vec::new(), unconsumed: Vec::new() };
        };

        // 1. Timers that ran out trigger the backend.
        let expired = ctx.timer.update_and_get_list(delta_time);
        let en = expired.len();
        let mut ti: usize = 0;
        #[verifier::loop_isolation(false)]
        while ti < en
            invariant
                en == expired@.len(),
                ti <= en,
            decreases en - ti,
        {
            ctx.back_end.timer_triggered(expired[ti]);
            ti = ti + 1;
        }

        // 2. Local actions reach the backend as player 0.
        #[verifier::loop_isolation(false)]
        while self.rpc_que.len() > 0
            invariant
                self.state_info_que@ == old(self).state_info_que@,
                self.connection_state == old(self).connection_state,
                self.pending_join_request == old(self).pending_join_request,
            decreases self.rpc_que@.len(),
        {
            let payload = self.rpc_que.remove(0);
            ctx.back_end.inform_rpc(0, payload);
        }

        // 3. Inbound events reach the backend; a bad frame ends the
        // session.
        let parsed = server_receive_commands_for::<ServerRpcPayload>(frames);
        let mut client_joined = false;
        match parsed {
            Err((fault, text)) => {
                let reason = fault_reason(fault, text);
                self.mark_error(reason);
                return TickOutput { frames: Vec::new(), unconsumed: Vec::new() };
            },
            Ok(commands) => {
                let mut commands = commands;
                #[verifier::loop_isolation(false)]
                while commands.len() > 0
                    invariant
                        self.state_info_que@.len() >= old(self).state_info_que@.len(),
                        self.state_info_que@.take(old(self).state_info_que@.len() as int) == old(
                            self,
                        ).state_info_que@,
                        self.rpc_que@.len() == 0,
                    decreases commands@.len(),
                {
                    let command = commands.remove(0);
                    match command {
                        ToServerCommands::ClientJoin(client) => {
                            client_joined = true;
                            ctx.back_end.player_arrival(client);
                            if ctx.amount_of_remote_players < u16::MAX {
                                ctx.amount_of_remote_players = ctx.amount_of_remote_players + 1;
                            }
                        },
                        ToServerCommands::ClientLeft(client) => {
                            ctx.back_end.player_departure(client);
                            if ctx.amount_of_remote_players > 0 {
                                ctx.amount_of_remote_players = ctx.amount_of_remote_players - 1;
                            }
                        },
                        ToServerCommands::Rpc(client, payload) => {
                            ctx.back_end.inform_rpc(client, payload);
                        },
                    }
                }
            },
        }

        // 4. The backend's commands are drained and partitioned.
        let mut drained = ctx.back_end.drain_commands();
        let dispatch = process_backend_commands(&mut drained);

        // 5. Timer operations apply in command order.
        apply_timer_ops(&mut ctx.timer, &dispatch.timer_ops);

        // 6. The dispatch decides what leaves and what the frontend
        // gets; the exact mapping is this helper's contract.
        let terminated = dispatch.terminate;
        let out = self.emit_host_output(
            dispatch,
            ctx.back_end.get_view_state(),
            ctx.amount_of_remote_players,
            client_joined,
        );
        if !terminated {
            self.server_context = Some(ctx);
        }
        TickOutput { frames: out, unconsumed: Vec::new() }
    }

    /// Turns one tick's dispatch into the broadcast frames and the local
    /// updates, exactly: kicks leave first, each as its own frame, and
    /// only while someone is subscribed. A termination then closes the
    /// room — one `SERVER_DISCONNECTS`, the session falls to
    /// `Disconnected` with the critical-player reason, and the frontend
    /// gets nothing. A reset sends one `RESET` carrying the encoded view
    /// state (with subscribers) and hands the frontend one snapshot;
    /// every delta stays unsent. Otherwise the deltas go to the frontend
    /// in command order and travel as one `DELTA_UPDATE` whose payload is
    /// the concatenation of their wire forms, sent only if any exist and
    /// someone is subscribed; a tick that saw a joiner ends with one
    /// `FULL_UPDATE` carrying the encoded view state.
    fn emit_host_output(
        &mut self,
        dispatch: CommandDispatch<DeltaInformation>,
        view: &ViewState,
        remote: u16,
        client_joined: bool,
    ) -> (r: Vec<Vec<u8>>)
        ensures
            final(self).rpcs() == old(self).rpcs(),
            !dispatch.terminate ==> final(self).pending() == old(self).pending(),
            host_frames_wf(r@),
            (exists|i: int| 0 <= i < r@.len() && #[trigger] tagged(r@, i, RESET))
                ==> final(self).updates().len() == old(self).updates().len() + 1
                    && final(self).updates().last() is Full,
            final(self).updates().take(old(self).updates().len() as int) == old(self).updates(),
            ({
                let kick_count = if remote > 0 {
                    dispatch.kicks@.len() as int
                } else {
                    0int
                };
                &&& forall|i: int|
                    0 <= i < kick_count ==> (#[trigger] r@[i])@ == kick_frame_spec(
                        dispatch.kicks@[i],
                    )
                &&& if dispatch.terminate {
                    &&& r@.len() == kick_count + 1
                    &&& r@[kick_count]@ == server_disconnects_frame_spec()
                    &&& final(self).state() matches ConnectionState::Disconnected {
                        error_string: Some(e),
                    } && e@ == "Critical player left."@
                    &&& final(self).updates() == old(self).updates()
                } else if dispatch.reset {
                    &&& r@.len() == kick_count + (if remote > 0 {
                        1int
                    } else {
                        0int
                    })
                    &&& (remote > 0 ==> r@[kick_count]@ == seq![RESET] + view.wire())
                    &&& final(self).state() == old(self).state()
                    &&& final(self).updates().len() == old(self).updates().len() + 1
                    &&& final(self).updates().last() is Full
                } else {
                    let has_delta = remote > 0 && dispatch.deltas@.len() > 0;
                    let has_full = remote > 0 && client_joined;
                    let delta_count = if has_delta {
                        1int
                    } else {
                        0int
                    };
                    &&& r@.len() == kick_count + delta_count + (if has_full {
                        1int
                    } else {
                        0int
                    })
                    &&& (has_delta ==> r@[kick_count]@ == seq![DELTA_UPDATE] + wires_concat(
                        dispatch.deltas@,
                    ))
                    &&& (has_full ==> r@[kick_count + delta_count]@ == seq![FULL_UPDATE]
                        + view.wire())
                    &&& final(self).state() == old(self).state()
                    &&& final(self).updates() == old(self).updates()
                        + dispatch.deltas@.map_values(
                        |d: DeltaInformation| ViewStateUpdate::<ViewState, DeltaInformation>::Incremental(d),
                    )
                }
            }),
    {
        // Kicks leave first, and only while someone is subscribed.
        let mut out: Vec<Vec<u8>> = Vec::new();
        if remote > 0 {
            let kicks = &dispatch.kicks;
            let kn = kicks.len();
            let mut ki: usize = 0;
            #[verifier::loop_isolation(false)]
            while ki < kn
                invariant
                    ki <= kn,
                    out@.len() == ki,
                    forall|m: int|
                        0 <= m < out@.len() ==> (#[trigger] out@[m])@ == kick_frame_spec(
                            kicks@[m],
                        ),
                decreases kn - ki,
            {
                out.push(kick_frame(kicks[ki]));
                ki = ki + 1;
            }
        }
        let ghost kick_count = out@.len() as int;
        proof {
            assert(forall|m: int|
                0 <= m < kick_count ==> (#[trigger] out@[m])@.len() > 0 && out@[m]@[0]
                    == CLIENT_GETS_KICKED);
        }

        // A termination closes the room for everyone.
        if dispatch.terminate {
            out.push(server_disconnects_frame());
            self.mark_error("Critical player left.".to_owned());
            proof {
                lemma_host_frames_single_tail(out@, kick_count, SERVER_DISCONNECTS);
            }
            return out;
        }

        // A reset coalesces the tick: one RESET frame carries the final
        // state and every delta of this tick stays home.
        if dispatch.reset {
            if remote > 0 {
                let mut frame: Vec<u8> = Vec::new();
                frame.push(RESET);
                let mut body = view.serialize();
                frame.append(&mut body);
                proof {
                    assert(frame@ =~= seq![RESET] + view.wire());
                }
                out.push(frame);
            }
            let snapshot = view.clone();
            self.state_info_que.push(ViewStateUpdate::Full(snapshot));
            proof {
                lemma_host_frames_single_tail(out@, kick_count, RESET);
                assert(final(self).updates().take(old(self).updates().len() as int) =~= old(
                    self,
                ).updates());
            }
            return out;
        }

        // The deltas go home one by one and travel as a single bundle.
        let mut deltas = dispatch.deltas;
        let ghost all_deltas = deltas@;
        let had_deltas = deltas.len() > 0;
        let mut delta_payload: Vec<u8> = Vec::new();
        let ghost mut done: Seq<DeltaInformation> = Seq::empty();
        proof {
            assert(wires_concat(done) =~= Seq::<u8>::empty());
            assert(self.state_info_que@ =~= old(self).state_info_que@ + done.map_values(
                |d: DeltaInformation| ViewStateUpdate::<ViewState, DeltaInformation>::Incremental(d),
            ));
        }
        #[verifier::loop_isolation(false)]
        while deltas.len() > 0
            invariant
                done + deltas@ =~= all_deltas,
                delta_payload@ == wires_concat(done),
                self.state_info_que@ == old(self).state_info_que@ + done.map_values(
                    |d: DeltaInformation| ViewStateUpdate::<ViewState, DeltaInformation>::Incremental(d),
                ),
                self.rpc_que@ == old(self).rpc_que@,
                self.connection_state == old(self).connection_state,
                self.pending_join_request == old(self).pending_join_request,
            decreases deltas@.len(),
        {
            let delta = deltas.remove(0);
            let mut bytes = delta.serialize();
            delta_payload.append(&mut bytes);
            proof {
                let done2 = done.push(delta);
                assert(done2.drop_last() =~= done);
                assert(delta_payload@ =~= wires_concat(done2));
            }
            self.state_info_que.push(ViewStateUpdate::Incremental(delta));
            proof {
                done = done.push(delta);
                assert(self.state_info_que@ =~= old(self).state_info_que@ + done.map_values(
                    |d: DeltaInformation| ViewStateUpdate::<ViewState, DeltaInformation>::Incremental(d),
                ));
                assert(done + deltas@ =~= all_deltas);
            }
        }
        proof {
            assert(done =~= all_deltas);
        }
        if remote > 0 {
            if had_deltas {
                let mut frame: Vec<u8> = Vec::new();
                frame.push(DELTA_UPDATE);
                frame.append(&mut delta_payload);
                proof {
                    assert(frame@ =~= seq![DELTA_UPDATE] + wires_concat(all_deltas));
                }
                out.push(frame);
            }
            if client_joined {
                let mut frame: Vec<u8> = Vec::new();
                frame.push(FULL_UPDATE);
                let mut body = view.serialize();
                frame.append(&mut body);
                proof {
                    assert(frame@ =~= seq![FULL_UPDATE] + view.wire());
                }
                out.push(frame);
            }
        }
        proof {
            assert(out@.len() <= kick_count + 2);
            assert(forall|m: int|
                kick_count <= m < out@.len() ==> (#[trigger] out@[m])@.len() > 0 && (out@[m]@[0]
                    == DELTA_UPDATE || out@[m]@[0] == FULL_UPDATE));
            assert(forall|m: int, l: int|
                kick_count <= m < l < out@.len() ==> (#[trigger] out@[m])@[0] == DELTA_UPDATE && (
                #[trigger] out@[l])@[0] == FULL_UPDATE);
            lemma_host_frames_delta_tail(out@, kick_count);
            assert(final(self).updates().take(old(self).updates().len() as int) =~= old(
                self,
            ).updates());
        }
        out
    }

    /// The client tick: every queued action leaves as one RPC frame, in
    /// order; then every inbound frame is digested into frontend updates
    /// — a delta bundle becomes its incremental updates, a full sync or
    /// reset one snapshot — until a frame refuses to digest, which ends
    /// the session with the carried reason.
    fn update_client(&mut self, frames: &Vec<Vec<u8>>) -> (r: TickOutput)
        requires
            old(self).wf(),
            old(self).state() matches ConnectionState::Connected { is_server: false, .. },
        ensures
            final(self).wf(),
            final(self).updates().len() >= old(self).updates().len(),
            final(self).updates().take(old(self).updates().len() as int) == old(self).updates(),
            r.frames@.len() == old(self).rpcs().len(),
            forall|i: int|
                0 <= i < r.frames@.len() ==> (#[trigger] r.frames@[i])@ == seq![SERVER_RPC] + old(
                    self,
                ).rpcs()[i].wire(),
            final(self).rpcs().len() == 0,
            r.unconsumed@.len() == 0,
            final(self).state() == old(self).state() || final(self).state()
                matches ConnectionState::Disconnected { error_string: Some(_) },
            // A session that survived the tick digested every frame.
            final(self).state() == old(self).state() ==> exists|
                adds: Seq<Seq<ViewStateUpdate<ViewState, DeltaInformation>>>,
            |
                adds.len() == frames@.len() && final(self).updates() == old(self).updates()
                    + #[trigger] flat_concat(adds) && (forall|j: int|
                    0 <= j < adds.len() ==> client_digest(frames@[j]@, #[trigger] adds[j])),
            // An error frame at the head of the batch ends the session
            // with its reason.
            frames@.len() > 0 && frames@[0]@.len() >= 1 && frames@[0]@[0] == SERVER_ERROR ==> (
            final(self).state() matches ConnectionState::Disconnected { error_string: Some(e) }
                && (valid_utf8(frames@[0]@.skip(1)) ==> e@ == decode_utf8(frames@[0]@.skip(1)))),
    {
        let ghost orig_rpcs = self.rpc_que@;
        let mut out: Vec<Vec<u8>> = Vec::new();
        #[verifier::loop_isolation(false)]
        while self.rpc_que.len() > 0
            invariant
                out@.len() + self.rpc_que@.len() == orig_rpcs.len(),
                self.rpc_que@ =~= orig_rpcs.skip(out@.len() as int),
                forall|j: int|
                    0 <= j < out@.len() ==> (#[trigger] out@[j])@ == seq![SERVER_RPC]
                        + orig_rpcs[j].wire(),
                self.state_info_que@ == old(self).state_info_que@,
                self.connection_state == old(self).connection_state,
                self.pending_join_request == old(self).pending_join_request,
            decreases self.rpc_que@.len(),
        {
            let payload = self.rpc_que.remove(0);
            let mut frame: Vec<u8> = Vec::new();
            frame.push(SERVER_RPC);
            let mut body = payload.serialize();
            frame.append(&mut body);
            proof {
                assert(frame@ =~= seq![SERVER_RPC] + payload.wire());
                assert(payload == orig_rpcs[out@.len() as int]);
            }
            out.push(frame);
            proof {
                assert(self.rpc_que@ =~= orig_rpcs.skip(out@.len() as int));
            }
        }

        let n = frames.len();
        let mut i: usize = 0;
        let ghost mut adds: Seq<Seq<ViewStateUpdate<ViewState, DeltaInformation>>> =
            Seq::empty();
        proof {
            assert(self.state_info_que@ =~= old(self).state_info_que@ + flat_concat(adds));
        }
        #[verifier::loop_isolation(false)]
        while i < n
            invariant
                i <= n,
                adds.len() == i,
                self.state_info_que@ == old(self).state_info_que@ + flat_concat(adds),
                forall|j: int| 0 <= j < i ==> client_digest(frames@[j]@, #[trigger] adds[j]),
                self.rpc_que@.len() == 0,
                self.connection_state == old(self).connection_state,
                self.wf(),
            decreases n - i,
        {
            let ghost before = self.state_info_que@;
            let outcome = self.client_apply_frame(&frames[i]);
            if let Err((fault, text)) = outcome {
                proof {
                    // A frame the digestion refuses was never digested
                    // earlier, so an error frame at the head fails first.
                    if frames@[0]@.len() >= 1 && frames@[0]@[0] == SERVER_ERROR {
                        if i > 0 {
                            assert(client_digest(frames@[0]@, adds[0]));
                            assert(false);
                        }
                    }
                }
                let reason = fault_reason(fault, text);
                self.mark_error(reason);
                proof {
                    assert(final(self).updates().take(old(self).updates().len() as int) =~= old(
                        self,
                    ).updates());
                }
                return TickOutput { frames: out, unconsumed: Vec::new() };
            }
            proof {
                let ext = self.state_info_que@.skip(before.len() as int);
                assert(self.state_info_que@ =~= before + ext);
                let adds2 = adds.push(ext);
                assert(adds2.drop_last() =~= adds);
                assert(self.state_info_que@ =~= old(self).state_info_que@ + flat_concat(adds2));
                adds = adds2;
            }
            i = i + 1;
        }
        proof {
            assert(final(self).updates().take(old(self).updates().len() as int) =~= old(
                self,
            ).updates());
            if frames@.len() > 0 && frames@[0]@.len() >= 1 && frames@[0]@[0] == SERVER_ERROR {
                assert(client_digest(frames@[0]@, adds[0]));
                assert(false);
            }
        }
        TickOutput { frames: out, unconsumed: Vec::new() }
    }

    /// Turns one broadcast frame into frontend updates: a `DELTA_UPDATE`
    /// payload is decoded as a concatenation of deltas, each queued in
    /// order; a `FULL_UPDATE` or `RESET` queues one snapshot; a
    /// `SERVER_ERROR` or anything else is refused.
    fn client_apply_frame(&mut self, frame: &Vec<u8>) -> (r: Result<(), (
        TransportFault,
        Option<String>,
    )>)
        ensures
            final(self).connection_state == old(self).connection_state,
            final(self).rpc_que@ == old(self).rpc_que@,
            final(self).server_context is Some <==> old(self).server_context is Some,
            final(self).pending_join_request == old(self).pending_join_request,
            final(self).updates().len() >= old(self).updates().len(),
            final(self).updates().take(old(self).updates().len() as int) == old(self).updates(),
            match r {
                Ok(()) => client_digest(
                    frame@,
                    final(self).updates().skip(old(self).updates().len() as int),
                ),
                Err(e) => final(self).updates() == old(self).updates() && (frame@.len() >= 1
                    && frame@[0] == SERVER_ERROR ==> error_frame_with_text(frame@, e.1)),
            },
    {
        let flen = frame.len();
        if flen == 0 {
            return Err((TransportFault::MalformedFrame, None));
        }
        let tag = frame[0];
        if tag == SERVER_ERROR {
            let text = error_text_of(frame);
            return Err((TransportFault::UnknownMessage, Some(text)));
        }
        if tag == DELTA_UPDATE {
            let base = self.state_info_que.len();
            let ghost mut ds: Seq<DeltaInformation> = Seq::empty();
            let mut pos: usize = 1;
            proof {
                assert(wires_concat(ds) =~= frame@.subrange(1, 1));
                assert(self.state_info_que@.skip(old(self).state_info_que@.len() as int)
                    =~= ds.map_values(
                    |u: DeltaInformation| ViewStateUpdate::<ViewState, DeltaInformation>::Incremental(u),
                ));
                assert(self.state_info_que@.take(old(self).state_info_que@.len() as int)
                    =~= old(self).state_info_que@);
            }
            #[verifier::loop_isolation(false)]
            while pos < flen
                invariant
                    1 <= pos <= flen,
                    self.state_info_que@.len() == old(self).state_info_que@.len() + ds.len(),
                    self.state_info_que@.take(old(self).state_info_que@.len() as int) == old(
                        self,
                    ).state_info_que@,
                    self.state_info_que@.skip(old(self).state_info_que@.len() as int)
                        == ds.map_values(
                        |u: DeltaInformation| ViewStateUpdate::<ViewState, DeltaInformation>::Incremental(u),
                    ),
                    wires_concat(ds) == frame@.subrange(1, pos as int),
                    self.connection_state == old(self).connection_state,
                    self.rpc_que@ == old(self).rpc_que@,
                    self.server_context is Some <==> old(self).server_context is Some,
                    self.pending_join_request == old(self).pending_join_request,
                decreases flen - pos,
            {
                let decoded = DeltaInformation::deserialize_prefix(frame, pos);
                let Some((delta, next)) = decoded else {
                    // A half-decoded bundle is withdrawn: the session ends
                    // and the frontend keeps nothing of this frame.
                    self.state_info_que.truncate(base);
                    proof {
                        assert(self.state_info_que@ =~= old(self).state_info_que@);
                    }
                    return Err((TransportFault::UndecodablePayload, None));
                };
                proof {
                    let ds2 = ds.push(delta);
                    assert(ds2.drop_last() =~= ds);
                    assert(wires_concat(ds2) =~= frame@.subrange(1, next as int));
                }
                let ghost prev_queue = self.state_info_que@;
                let ghost prev_ds = ds;
                self.state_info_que.push(ViewStateUpdate::Incremental(delta));
                proof {
                    ds = ds.push(delta);
                    let n0 = old(self).state_info_que@.len() as int;
                    let mapped = ds.map_values(
                        |u: DeltaInformation| ViewStateUpdate::<ViewState, DeltaInformation>::Incremental(u),
                    );
                    let prev_mapped = prev_ds.map_values(
                        |u: DeltaInformation| ViewStateUpdate::<ViewState, DeltaInformation>::Incremental(u),
                    );
                    assert forall|k: int| 0 <= k < mapped.len() implies self.state_info_que@.skip(
                        n0,
                    )[k] == mapped[k] by {
                        if k < prev_ds.len() {
                            assert(self.state_info_que@[n0 + k] == prev_queue[n0 + k]);
                            assert(prev_queue.skip(n0)[k] == prev_mapped[k]);
                        } else {
                            assert(self.state_info_que@[n0 + k]
                                == ViewStateUpdate::<ViewState, DeltaInformation>::Incremental(
                                delta,
                            ));
                        }
                    }
                    assert(self.state_info_que@.skip(n0) =~= mapped);
                    assert(self.state_info_que@.take(n0) =~= old(self).state_info_que@);
                }
                pos = next;
            }
            proof {
                assert(frame@.subrange(1, flen as int) =~= frame@.skip(1));
                let ext = final(self).updates().skip(old(self).updates().len() as int);
                assert(ext =~= ds.map_values(
                    |u: DeltaInformation| ViewStateUpdate::<ViewState, DeltaInformation>::Incremental(u),
                ));
                assert(ext.map_values(
                    |u: ViewStateUpdate<ViewState, DeltaInformation>| u->Incremental_0,
                ) =~= ds);
            }
            return Ok(());
        }
        if tag == FULL_UPDATE || tag == RESET {
            let decoded = ViewState::deserialize_prefix(frame, 1);
            let Some((state, consumed)) = decoded else {
                return Err((TransportFault::UndecodablePayload, None));
            };
            proof {
                assert(frame@.subrange(1, consumed as int) == state.wire());
            }
            self.state_info_que.push(ViewStateUpdate::Full(state));
            proof {
                assert(final(self).updates().take(old(self).updates().len() as int) =~= old(
                    self,
                ).updates());
                assert(final(self).updates().skip(old(self).updates().len() as int)
                    =~= seq![ViewStateUpdate::<ViewState, DeltaInformation>::Full(state)]);
            }
            return Ok(());
        }
        Err((TransportFault::UnknownMessage, None))
    }
}

/// The reason text for a transport fault, preferring what the peer said.
fn fault_reason(fault: TransportFault, text: Option<String>) -> (r: String)
    ensures
        text matches Some(t) ==> r == t,
{
    match text {
        Some(t) => t,
        None => match fault {
            TransportFault::MalformedFrame => "Malformed message received.".to_owned(),
            TransportFault::UnknownMessage => "Unknown message received.".to_owned(),
            TransportFault::UndecodablePayload => "Failed to decode payload.".to_owned(),
        },
    }
}

/// Frames of which the first `k` are kicks and at most one more follows,
/// with a tag that is neither a delta nor a full sync, satisfy the host
/// frame rules.
proof fn lemma_host_frames_single_tail(fs: Seq<Vec<u8>>, k: int, tail_tag: u8)
    requires
        0 <= k <= fs.len() <= k + 1,
        forall|m: int|
            0 <= m < k ==> (#[trigger] fs[m])@.len() > 0 && fs[m]@[0] == CLIENT_GETS_KICKED,
        forall|m: int| k <= m < fs.len() ==> (#[trigger] fs[m])@.len() > 0 && fs[m]@[0] == tail_tag,
        tail_tag == SERVER_DISCONNECTS || tail_tag == RESET,
    ensures
        host_frames_wf(fs),
{
    assert forall|i: int, j: int|
        0 <= i < fs.len() && 0 <= j < fs.len() && #[trigger] tagged(fs, i, DELTA_UPDATE)
            && #[trigger] tagged(fs, j, DELTA_UPDATE) implies i == j by {}
}

/// Frames of which the first `k` are kicks, followed by at most one
/// delta bundle and then at most one full sync, satisfy the host frame
/// rules.
proof fn lemma_host_frames_delta_tail(fs: Seq<Vec<u8>>, k: int)
    requires
        0 <= k <= fs.len() <= k + 2,
        forall|m: int|
            0 <= m < k ==> (#[trigger] fs[m])@.len() > 0 && fs[m]@[0] == CLIENT_GETS_KICKED,
        forall|m: int|
            k <= m < fs.len() ==> (#[trigger] fs[m])@.len() > 0 && (fs[m]@[0] == DELTA_UPDATE
                || fs[m]@[0] == FULL_UPDATE),
        forall|m: int, l: int|
            k <= m < l < fs.len() ==> (#[trigger] fs[m])@[0] == DELTA_UPDATE && (#[trigger] fs[l])@[0]
                == FULL_UPDATE,
    ensures
        host_frames_wf(fs),
{
}

/// Copies one frame.
fn copy_frame(f: &Vec<u8>) -> (r: Vec<u8>)
    ensures
        r@ == f@,
{
    vstd::slice::slice_to_vec(f.as_slice())
}

} // verus!
