//! The per-connection routing rules and the sync gate.

use relay_hub::relay::{
    client_inbound_step, client_outbound_step, host_inbound_step, host_outbound_step,
    ClientInbound, GateAction, HostInbound, RelayFault,
};

#[test]
fn host_frames_are_filtered_by_tag() {
    // Kick, delta, full and reset frames are rebroadcast.
    for tag in [1u8, 2, 3, 4] {
        let frame = vec![tag, 9, 9];
        assert!(matches!(host_inbound_step(&frame), HostInbound::Broadcast));
    }
    // The closing tag ends the room.
    assert!(matches!(
        host_inbound_step(&vec![0]),
        HostInbound::Disconnect
    ));
    // Anything else, and the empty frame, is fatal.
    assert!(matches!(
        host_inbound_step(&vec![7]),
        HostInbound::Fatal(RelayFault::IllegalHostCommand)
    ));
    assert!(matches!(
        host_inbound_step(&vec![]),
        HostInbound::Fatal(RelayFault::EmptyFrame)
    ));
}

#[test]
fn host_inbox_accepts_only_inward_tags() {
    assert!(host_outbound_step(&vec![0, 0, 1]).is_none());
    assert!(host_outbound_step(&vec![1, 0, 1]).is_none());
    assert!(host_outbound_step(&vec![2, 0, 1, 42]).is_none());
    assert_eq!(
        host_outbound_step(&vec![5, 65]),
        Some(RelayFault::IllegalInternalCommand)
    );
    assert_eq!(host_outbound_step(&vec![]), Some(RelayFault::EmptyFrame));
}

#[test]
fn rpc_identity_is_injected() {
    // The client sent a bare RPC; the relay splices in its id so the
    // host knows who acted.
    let frame = vec![2u8, 0x42];
    let step = client_inbound_step(&frame, 1);
    match step {
        ClientInbound::ForwardToHost(msg) => {
            assert_eq!(msg, vec![2, 0, 1, 0x42]);
        }
        _ => panic!("an RPC frame is forwarded"),
    }
    // A larger id lands in both bytes, big-endian.
    let step = client_inbound_step(&vec![2u8], 0x1234);
    match step {
        ClientInbound::ForwardToHost(msg) => assert_eq!(msg, vec![2, 0x12, 0x34]),
        _ => panic!("an RPC frame is forwarded"),
    }
    assert!(matches!(
        client_inbound_step(&vec![3], 1),
        ClientInbound::Disconnect
    ));
    assert!(matches!(
        client_inbound_step(&vec![0, 1], 1),
        ClientInbound::Fatal(RelayFault::IllegalClientCommand)
    ));
}

#[test]
fn sync_gate_holds_deltas_until_a_full_update() {
    let pid = 3u16;
    let mut synced = false;
    // A delta before any full update is dropped silently.
    let (action, s) = client_outbound_step(&vec![2, 9], synced, pid);
    assert_eq!(action, GateAction::Drop);
    synced = s;
    // The first full update is forwarded and marks the subscriber
    // synced.
    let (action, s) = client_outbound_step(&vec![3, 1, 2], synced, pid);
    assert_eq!(action, GateAction::Forward);
    assert!(s);
    synced = s;
    // From then on deltas pass.
    let (action, s) = client_outbound_step(&vec![2, 9], synced, pid);
    assert_eq!(action, GateAction::Forward);
    synced = s;
    // A redundant full update for a synced subscriber is dropped.
    let (action, s) = client_outbound_step(&vec![3, 1, 2], synced, pid);
    assert_eq!(action, GateAction::Drop);
    assert!(s);
}

#[test]
fn sync_gate_reset_always_passes_and_syncs() {
    let (action, synced) = client_outbound_step(&vec![4, 7], false, 1);
    assert_eq!(action, GateAction::Forward);
    assert!(synced);
}

#[test]
fn sync_gate_kick_hits_only_its_target() {
    // The kick names player 2: player 2 is terminated, player 1 drops
    // the frame and stays.
    let kick = vec![1u8, 0, 2];
    let (action, _) = client_outbound_step(&kick, true, 2);
    assert_eq!(action, GateAction::Kicked);
    let (action, synced) = client_outbound_step(&kick, true, 1);
    assert_eq!(action, GateAction::Drop);
    assert!(synced);
    // A kick too short to name its target is fatal.
    let (action, _) = client_outbound_step(&vec![1u8, 0], true, 1);
    assert_eq!(action, GateAction::Fatal(RelayFault::MalformedKick));
}

#[test]
fn sync_gate_terminal_frames() {
    let (action, _) = client_outbound_step(&vec![0u8], true, 1);
    assert_eq!(action, GateAction::RoomClosed);
    let (action, _) = client_outbound_step(&vec![9u8], true, 1);
    assert_eq!(
        action,
        GateAction::Fatal(RelayFault::IllegalBroadcastCommand)
    );
    let (action, _) = client_outbound_step(&vec![], true, 1);
    assert_eq!(action, GateAction::Fatal(RelayFault::EmptyFrame));
}
