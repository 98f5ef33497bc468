//! Per-connection routing rules of the relay.
//!
//! Each surviving connection runs two tasks: one reads from the socket
//! and forwards inward, the other reads from internal channels and writes
//! to the socket. The decisions of those tasks — which tags are legal in
//! which direction, how an RPC frame is rewritten, and the per-subscriber
//! sync gate — live here as pure functions on frames; the tasks
//! themselves perform the socket and channel work around them.

use vstd::prelude::*;
use crate::protocol::{CLIENT_DISCONNECTS, CLIENT_DISCONNECTS_SELF, CLIENT_GETS_KICKED,
    DELTA_UPDATE, FULL_UPDATE, NEW_CLIENT, RESET, SERVER_DISCONNECTS, SERVER_RPC, u16_be,
    read_u16_be, push_u16_be, lemma_u16_be_injective};

verus! {

/// Why a connection is torn down by the router.
#[derive(PartialEq, Eq, Structural, Clone, Copy, Debug)]
pub enum RelayFault {
    /// An empty frame arrived.
    EmptyFrame,
    /// The host sent a tag that may not travel host-to-client.
    IllegalHostCommand,
    /// The host inbox held a tag that may not travel client-to-host.
    IllegalInternalCommand,
    /// A client sent a tag that may not travel client-to-relay.
    IllegalClientCommand,
    /// A `CLIENT_GETS_KICKED` frame was too short to name its target.
    MalformedKick,
    /// A broadcast frame carried a tag no subscriber accepts.
    IllegalBroadcastCommand,
}

/// What to do with a frame the host sent to the relay.
pub enum HostInbound {
    /// Rebroadcast the frame verbatim to the room's fan-out.
    Broadcast,
    /// The host leaves on purpose; the caller tears the room down.
    Disconnect,
    /// A protocol violation; the caller tears the connection down.
    Fatal(RelayFault),
}

/// What to do with a frame a client sent to the relay.
pub enum ClientInbound {
    /// Forward the rewritten frame to the host's inbox.
    ForwardToHost(Vec<u8>),
    /// The client leaves on purpose; the caller cleans up.
    Disconnect,
    /// A protocol violation; the caller tears the connection down.
    Fatal(RelayFault),
}

/// What the sync gate does with one broadcast frame for one subscriber.
#[derive(PartialEq, Eq, Structural, Clone, Copy, Debug)]
pub enum GateAction {
    /// Write the frame to this subscriber's socket.
    Forward,
    /// Drop the frame for this subscriber.
    Drop,
    /// The room closed; terminate this subscriber.
    RoomClosed,
    /// This subscriber was kicked; terminate it.
    Kicked,
    /// A protocol violation; terminate this subscriber.
    Fatal(RelayFault),
}

/// Accepts a host frame per the host-to-relay rules: `SERVER_DISCONNECTS`
/// ends the room; kick, delta, full and reset frames are rebroadcast
/// verbatim; everything else, and any empty frame, is fatal.
pub fn host_inbound_step(frame: &Vec<u8>) -> (r: HostInbound)
    ensures
        frame@.len() == 0 ==> r is Fatal && r->Fatal_0 == RelayFault::EmptyFrame,
        frame@.len() > 0 && frame@[0] == SERVER_DISCONNECTS ==> r is Disconnect,
        frame@.len() > 0 && (frame@[0] == CLIENT_GETS_KICKED || frame@[0] == DELTA_UPDATE
            || frame@[0] == FULL_UPDATE || frame@[0] == RESET) ==> r is Broadcast,
        frame@.len() > 0 && !(frame@[0] == SERVER_DISCONNECTS || frame@[0] == CLIENT_GETS_KICKED
            || frame@[0] == DELTA_UPDATE || frame@[0] == FULL_UPDATE || frame@[0] == RESET)
            ==> r is Fatal && r->Fatal_0 == RelayFault::IllegalHostCommand,
{
    if frame.len() == 0 {
        return HostInbound::Fatal(RelayFault::EmptyFrame);
    }
    let tag = frame[0];
    if tag == SERVER_DISCONNECTS {
        HostInbound::Disconnect
    } else if tag == CLIENT_GETS_KICKED || tag == DELTA_UPDATE || tag == FULL_UPDATE || tag
        == RESET {
        HostInbound::Broadcast
    } else {
        HostInbound::Fatal(RelayFault::IllegalHostCommand)
    }
}

/// Accepts an inbox frame per the relay-to-host rules: only `NEW_CLIENT`,
/// `CLIENT_DISCONNECTS` and `SERVER_RPC` may reach the host.
pub fn host_outbound_step(frame: &Vec<u8>) -> (r: Option<RelayFault>)
    ensures
        r is None <==> frame@.len() > 0 && (frame@[0] == NEW_CLIENT || frame@[0]
            == CLIENT_DISCONNECTS || frame@[0] == SERVER_RPC),
        frame@.len() == 0 ==> r == Some(RelayFault::EmptyFrame),
        frame@.len() > 0 && !(frame@[0] == NEW_CLIENT || frame@[0] == CLIENT_DISCONNECTS
            || frame@[0] == SERVER_RPC) ==> r == Some(RelayFault::IllegalInternalCommand),
{
    if frame.len() == 0 {
        return Some(RelayFault::EmptyFrame);
    }
    let tag = frame[0];
    if tag == NEW_CLIENT || tag == CLIENT_DISCONNECTS || tag == SERVER_RPC {
        None
    } else {
        Some(RelayFault::IllegalInternalCommand)
    }
}

/// Accepts a client frame per the client-to-relay rules. An RPC frame is
/// rewritten with the subscriber's id spliced in after the tag, so the
/// host learns which peer produced it; `CLIENT_DISCONNECTS_SELF` ends the
/// connection cleanly; everything else is fatal.
pub fn client_inbound_step(frame: &Vec<u8>, player_id: u16) -> (r: ClientInbound)
    ensures
        frame@.len() == 0 ==> r is Fatal && r->Fatal_0 == RelayFault::EmptyFrame,
        frame@.len() > 0 && frame@[0] == SERVER_RPC ==> r is ForwardToHost && r->ForwardToHost_0@
            == seq![SERVER_RPC] + u16_be(player_id) + frame@.skip(1),
        frame@.len() > 0 && frame@[0] == CLIENT_DISCONNECTS_SELF ==> r is Disconnect,
        frame@.len() > 0 && !(frame@[0] == SERVER_RPC || frame@[0] == CLIENT_DISCONNECTS_SELF)
            ==> r is Fatal && r->Fatal_0 == RelayFault::IllegalClientCommand,
{
    let n = frame.len();
    if n == 0 {
        return ClientInbound::Fatal(RelayFault::EmptyFrame);
    }
    let tag = frame[0];
    if tag == SERVER_RPC {
        let mut msg: Vec<u8> = Vec::new();
        msg.push(SERVER_RPC);
        proof {
            assert(msg@ =~= seq![SERVER_RPC]);
        }
        push_u16_be(&mut msg, player_id);
        let mut payload = vstd::slice::slice_to_vec(&frame.as_slice()[1..n]);
        msg.append(&mut payload);
        proof {
            assert(msg@ =~= seq![SERVER_RPC] + u16_be(player_id) + frame@.skip(1));
        }
        ClientInbound::ForwardToHost(msg)
    } else if tag == CLIENT_DISCONNECTS_SELF {
        ClientInbound::Disconnect
    } else {
        ClientInbound::Fatal(RelayFault::IllegalClientCommand)
    }
}

/// The sync gate on one broadcast frame: what happens to the subscriber
/// with the given id in the given sync state, and its sync state after.
pub open spec fn gate_step(frame: Seq<u8>, is_synced: bool, player_id: u16) -> (GateAction, bool) {
    if frame.len() == 0 {
        (GateAction::Fatal(RelayFault::EmptyFrame), is_synced)
    } else if frame[0] == SERVER_DISCONNECTS {
        (GateAction::RoomClosed, is_synced)
    } else if frame[0] == CLIENT_GETS_KICKED {
        if frame.len() < 3 {
            (GateAction::Fatal(RelayFault::MalformedKick), is_synced)
        } else if frame.subrange(1, 3) == u16_be(player_id) {
            (GateAction::Kicked, is_synced)
        } else {
            (GateAction::Drop, is_synced)
        }
    } else if frame[0] == DELTA_UPDATE {
        (
            if is_synced {
                GateAction::Forward
            } else {
                GateAction::Drop
            },
            is_synced,
        )
    } else if frame[0] == FULL_UPDATE {
        (
            if is_synced {
                GateAction::Drop
            } else {
                GateAction::Forward
            },
            true,
        )
    } else if frame[0] == RESET {
        (GateAction::Forward, true)
    } else {
        (GateAction::Fatal(RelayFault::IllegalBroadcastCommand), is_synced)
    }
}

/// Applies the sync gate to one broadcast frame.
pub fn client_outbound_step(frame: &Vec<u8>, is_synced: bool, player_id: u16) -> (r: (
    GateAction,
    bool,
))
    ensures
        r == gate_step(frame@, is_synced, player_id),
{
    let n = frame.len();
    if n == 0 {
        return (GateAction::Fatal(RelayFault::EmptyFrame), is_synced);
    }
    let tag = frame[0];
    if tag == SERVER_DISCONNECTS {
        (GateAction::RoomClosed, is_synced)
    } else if tag == CLIENT_GETS_KICKED {
        if n < 3 {
            (GateAction::Fatal(RelayFault::MalformedKick), is_synced)
        } else {
            let meant_client = read_u16_be(frame, 1);
            if meant_client == player_id {
                (GateAction::Kicked, is_synced)
            } else {
                proof {
                    lemma_u16_be_injective(meant_client, player_id);
                }
                (GateAction::Drop, is_synced)
            }
        }
    } else if tag == DELTA_UPDATE {
        (
            if is_synced {
                GateAction::Forward
            } else {
                GateAction::Drop
            },
            is_synced,
        )
    } else if tag == FULL_UPDATE {
        (
            if is_synced {
                GateAction::Drop
            } else {
                GateAction::Forward
            },
            true,
        )
    } else if tag == RESET {
        (GateAction::Forward, true)
    } else {
        (GateAction::Fatal(RelayFault::IllegalBroadcastCommand), is_synced)
    }
}

/// The frames the sync gate forwards to one subscriber out of a broadcast
/// sequence, processed in order; a terminating action ends the run.
pub open spec fn gate_run(frames: Seq<Seq<u8>>, is_synced: bool, player_id: u16) -> Seq<Seq<u8>>
    decreases frames.len(),
{
    if frames.len() == 0 {
        seq![]
    } else {
        let (action, synced) = gate_step(frames[0], is_synced, player_id);
        match action {
            GateAction::Forward => seq![frames[0]] + gate_run(
                frames.drop_first(),
                synced,
                player_id,
            ),
            GateAction::Drop => gate_run(frames.drop_first(), synced, player_id),
            _ => seq![],
        }
    }
}

/// The sync gate law: out of any broadcast sequence, a subscriber that
/// starts unsynced never receives a `DELTA_UPDATE` before it has received
/// a `FULL_UPDATE` or a `RESET`.
pub proof fn lemma_sync_gate(frames: Seq<Seq<u8>>, player_id: u16)
    ensures
        ({
            let out = gate_run(frames, false, player_id);
            forall|i: int|
                0 <= i < out.len() && out[i].len() > 0 && out[i][0] == DELTA_UPDATE
                    ==> exists|j: int|
                    0 <= j < i && out[j].len() > 0 && (out[j][0] == FULL_UPDATE || out[j][0]
                        == RESET)
        }),
    decreases frames.len(),
{
    let out = gate_run(frames, false, player_id);
    if frames.len() == 0 {
    } else {
        let (action, synced) = gate_step(frames[0], false, player_id);
        match action {
            GateAction::Forward => {
                // An unsynced subscriber never has a delta forwarded, so the
                // first forwarded frame is a full update or a reset, and it
                // precedes everything that follows.
                assert(frames[0].len() > 0 && (frames[0][0] == FULL_UPDATE || frames[0][0]
                    == RESET));
                assert(out[0] == frames[0]);
                assert forall|i: int|
                    0 <= i < out.len() && out[i].len() > 0 && out[i][0] == DELTA_UPDATE
                    implies exists|j: int|
                    0 <= j < i && out[j].len() > 0 && (out[j][0] == FULL_UPDATE || out[j][0]
                        == RESET) by {
                    assert(i != 0);
                    assert(0 <= 0 < i && out[0].len() > 0 && (out[0][0] == FULL_UPDATE
                        || out[0][0] == RESET));
                }
            },
            GateAction::Drop => {
                assert(synced == false);
                lemma_sync_gate(frames.drop_first(), player_id);
                assert(out == gate_run(frames.drop_first(), false, player_id));
            },
            _ => {},
        }
    }
}

/// The RPC identity law: the frame the relay forwards for a client's RPC
/// names exactly that client, and the host reads back the same id and the
/// same payload the client sent.
pub proof fn lemma_rpc_identity(player_id: u16, payload: Seq<u8>)
    ensures
        ({
            let w = seq![SERVER_RPC] + u16_be(player_id) + payload;
            &&& w.len() == 3 + payload.len()
            &&& w[0] == SERVER_RPC
            &&& w.subrange(1, 3) == u16_be(player_id)
            &&& w.skip(3) == payload
            &&& forall|other: u16| w.subrange(1, 3) == u16_be(other) ==> other == player_id
        }),
{
    let w = seq![SERVER_RPC] + u16_be(player_id) + payload;
    assert(w.subrange(1, 3) =~= u16_be(player_id));
    assert(w.skip(3) =~= payload);
    assert forall|other: u16| w.subrange(1, 3) == u16_be(other) implies other == player_id by {
        lemma_u16_be_injective(other, player_id);
    }
}

} // verus!
