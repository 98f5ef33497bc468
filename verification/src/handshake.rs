//! The handshake that opens every connection.
//!
//! The first binary frame of a connection is decoded as a join request,
//! the requested game is checked against the catalog, and the room is
//! created or joined. Every refusal names its exact condition; the caller
//! turns it into a `SERVER_ERROR` frame and closes the socket.

use vstd::prelude::*;
use crate::codec::{JoinRequest, decode_join_request, join_request_wire, fits_wire};
use crate::lobby::{AppState, JoinGrant, LobbyError, fresh_room, joined_room, room_full,
    ids_exhausted, catalog_lookup};
use crate::protocol::{new_client_frame, new_client_frame_spec, client_disconnects_frame,
    client_disconnects_frame_spec, server_disconnects_frame, server_disconnects_frame_spec,
    handshake_response_frame, handshake_response_frame_spec};

verus! {

/// Why a handshake was refused.
#[derive(PartialEq, Eq, Structural, Clone, Copy, Debug)]
pub enum HandshakeError {
    /// The first frame was not the wire form of a join request.
    MalformedRequest,
    /// The requested game is not in the catalog.
    UnknownGame,
    /// A room with this key already exists, so none can be created.
    RoomExists,
    /// No room with this key exists, so none can be joined.
    RoomMissing,
    /// The room is at its player quota.
    RoomFull,
    /// The room has no client ids left.
    OutOfIds,
}

/// The validated join request together with the game's quota.
pub struct InitialConnectionResult {
    /// Whether the peer wants to open the room and act as its host.
    pub is_server: bool,
    /// Which game to play.
    pub game_id: String,
    /// Which room to open or join.
    pub room_id: String,
    /// The rule variation; interpreted only when a room is opened.
    pub rule_variation: u16,
    /// The quota of the game (0 = no limit).
    pub max_players: u16,
}

/// What a finished handshake establishes for the connection.
pub struct HandshakeResult {
    /// The id of this peer within the room; the host is always 0.
    pub player_id: u16,
    /// The game of the room.
    pub game_id: String,
    /// The name of the room.
    pub room_id: String,
    /// The rule variation of the room.
    pub rule_variation: u16,
    /// Whether this peer hosts the room.
    pub is_server: bool,
}

/// What the cleanup of a departing connection needs to know.
pub struct DisconnectData {
    /// The id of the departing peer.
    pub player_id: u16,
    /// The game of the room.
    pub game_id: String,
    /// The name of the room.
    pub room_id: String,
    /// Whether the departing peer hosted the room.
    pub is_server: bool,
}

impl DisconnectData {
    /// Keeps from a handshake result what the cleanup will need.
    pub fn from(value: &HandshakeResult) -> (r: DisconnectData)
        ensures
            r.player_id == value.player_id,
            r.game_id@ == value.game_id@,
            r.room_id@ == value.room_id@,
            r.is_server == value.is_server,
    {
        DisconnectData {
            player_id: value.player_id,
            game_id: value.game_id.clone(),
            room_id: value.room_id.clone(),
            is_server: value.is_server,
        }
    }
}

/// Decodes the first frame and validates the game against the catalog.
/// Fails exactly on a malformed frame or an unlisted game.
pub fn get_initial_query(state: &AppState, raw: &Vec<u8>) -> (r: Result<
    InitialConnectionResult,
    HandshakeError,
>)
    ensures
        match r {
            Ok(init) => {
                &&& raw@ == join_request_wire(
                    init.game_id@,
                    init.room_id@,
                    init.rule_variation,
                    init.is_server,
                )
                &&& catalog_lookup(state.configs@, init.game_id@) == Some(init.max_players)
                &&& fits_wire(init.game_id@)
                &&& fits_wire(init.room_id@)
            },
            Err(HandshakeError::MalformedRequest) => forall|
                g: Seq<char>,
                room: Seq<char>,
                v: u16,
                c: bool,
            |
                fits_wire(g) && fits_wire(room) ==> raw@ != join_request_wire(g, room, v, c),
            Err(HandshakeError::UnknownGame) => exists|
                g: Seq<char>,
                room: Seq<char>,
                v: u16,
                c: bool,
            |
                raw@ == join_request_wire(g, room, v, c) && catalog_lookup(state.configs@, g)
                    is None,
            Err(_) => false,
        },
{
    let decoded = decode_join_request(raw);
    let Some(req) = decoded else { return Err(HandshakeError::MalformedRequest) };
    let JoinRequest { game_id, room_id, rule_variation, create_room } = req;
    let quota = state.max_players_of(&game_id);
    let Some(max_players) = quota else { return Err(HandshakeError::UnknownGame) };
    Ok(InitialConnectionResult { is_server: create_room, game_id, room_id, rule_variation,
        max_players })
}

/// Opens a new room for a host. The response owes the host id 0 and echoes
/// the rule variation the host asked for.
pub fn process_handshake_server(state: &mut AppState, initial_result: InitialConnectionResult)
    -> (r: Result<HandshakeResult, HandshakeError>)
    requires
        old(state).wf(),
        initial_result.is_server,
    ensures
        final(state).wf(),
        final(state).configs@ == old(state).configs@,
        match r {
            Ok(res) => {
                &&& !old(state).has_room(initial_result.game_id@, initial_result.room_id@)
                &&& final(state).rooms@ == old(state).rooms@.push(
                    crate::lobby::RoomEntry {
                        game_id: initial_result.game_id,
                        room_id: initial_result.room_id,
                        room: fresh_room(initial_result.rule_variation),
                    },
                )
                &&& res.player_id == 0
                &&& res.rule_variation == initial_result.rule_variation
                &&& res.game_id@ == initial_result.game_id@
                &&& res.room_id@ == initial_result.room_id@
                &&& res.is_server
            },
            Err(e) => {
                &&& e == HandshakeError::RoomExists
                &&& old(state).has_room(initial_result.game_id@, initial_result.room_id@)
                &&& final(state).rooms@ == old(state).rooms@
            },
        },
{
    let InitialConnectionResult { game_id, room_id, rule_variation, .. } = initial_result;
    let game_copy = game_id.clone();
    let room_copy = room_id.clone();
    let created = state.create_room(game_id, room_id, rule_variation);
    match created {
        Ok(()) => Ok(HandshakeResult {
            player_id: 0,
            game_id: game_copy,
            room_id: room_copy,
            rule_variation,
            is_server: true,
        }),
        Err(_) => Err(HandshakeError::RoomExists),
    }
}

/// Joins an existing room for a client: assigns the next id, counts the
/// joiner, and hands back the `NEW_CLIENT` frame owed to the host's inbox.
/// Each refusal comes exactly on the condition its variant names.
pub fn process_handshake_client(state: &mut AppState, initial_result: InitialConnectionResult)
    -> (r: Result<(HandshakeResult, Vec<u8>), HandshakeError>)
    requires
        old(state).wf(),
        !initial_result.is_server,
    ensures
        final(state).wf(),
        final(state).configs@ == old(state).configs@,
        match r {
            Ok(p) => {
                let room = old(state).room_at(initial_result.game_id@, initial_result.room_id@);
                let i = old(state).room_index(initial_result.game_id@, initial_result.room_id@);
                &&& old(state).has_room(initial_result.game_id@, initial_result.room_id@)
                &&& !room_full(room, initial_result.max_players)
                &&& !ids_exhausted(room)
                &&& p.0.player_id == room.next_client_id
                &&& p.0.player_id >= 1
                &&& p.0.rule_variation == room.rule_variation
                &&& p.0.game_id@ == initial_result.game_id@
                &&& p.0.room_id@ == initial_result.room_id@
                &&& !p.0.is_server
                &&& p.1@ == new_client_frame_spec(p.0.player_id)
                &&& final(state).rooms@ == old(state).rooms@.update(
                    i,
                    crate::lobby::RoomEntry {
                        game_id: old(state).rooms@[i].game_id,
                        room_id: old(state).rooms@[i].room_id,
                        room: joined_room(room),
                    },
                )
            },
            Err(e) => {
                &&& final(state).rooms@ == old(state).rooms@
                &&& (e == HandshakeError::RoomMissing <==> !old(state).has_room(
                    initial_result.game_id@,
                    initial_result.room_id@,
                ))
                &&& (e == HandshakeError::RoomFull <==> old(state).has_room(
                    initial_result.game_id@,
                    initial_result.room_id@,
                ) && room_full(
                    old(state).room_at(initial_result.game_id@, initial_result.room_id@),
                    initial_result.max_players,
                ))
                &&& (e == HandshakeError::OutOfIds <==> old(state).has_room(
                    initial_result.game_id@,
                    initial_result.room_id@,
                ) && !room_full(
                    old(state).room_at(initial_result.game_id@, initial_result.room_id@),
                    initial_result.max_players,
                ) && ids_exhausted(
                    old(state).room_at(initial_result.game_id@, initial_result.room_id@),
                ))
                &&& (e == HandshakeError::RoomMissing || e == HandshakeError::RoomFull || e
                    == HandshakeError::OutOfIds)
            },
        },
{
    let InitialConnectionResult { game_id, room_id, max_players, .. } = initial_result;
    let joined = state.join_room(&game_id, &room_id, max_players);
    match joined {
        Ok(grant) => {
            let frame = new_client_frame(grant.player_id);
            Ok((
                HandshakeResult {
                    player_id: grant.player_id,
                    game_id,
                    room_id,
                    rule_variation: grant.rule_variation,
                    is_server: false,
                },
                frame,
            ))
        },
        Err(LobbyError::Missing) => Err(HandshakeError::RoomMissing),
        Err(LobbyError::Full) => Err(HandshakeError::RoomFull),
        Err(LobbyError::IdExhausted) => Err(HandshakeError::OutOfIds),
        Err(LobbyError::AlreadyExists) => Err(HandshakeError::RoomMissing),
    }
}

/// Builds the `HAND_SHAKE_RESPONSE` frame that confirms the connection.
pub fn inform_client_of_connection(status: &HandshakeResult) -> (r: Vec<u8>)
    ensures
        r@ == handshake_response_frame_spec(status.player_id, status.rule_variation),
{
    handshake_response_frame(status.player_id, status.rule_variation)
}

/// Cleans the lobby up for a departing connection and hands back the frame
/// owed to the other side: a departing host destroys its room and owes the
/// broadcast a `SERVER_DISCONNECTS`; a departing client is counted out (a
/// no-op if the room is already gone) and owes the host inbox a
/// `CLIENT_DISCONNECTS` with its id.
pub fn shutdown_connection(state: &mut AppState, disconnect_data: &DisconnectData) -> (frame:
    Vec<u8>)
    requires
        old(state).wf(),
    ensures
        final(state).wf(),
        final(state).configs@ == old(state).configs@,
        disconnect_data.is_server ==> {
            &&& frame@ == server_disconnects_frame_spec()
            &&& !final(state).has_room(disconnect_data.game_id@, disconnect_data.room_id@)
            &&& (old(state).has_room(disconnect_data.game_id@, disconnect_data.room_id@)
                ==> final(state).rooms@ == old(state).rooms@.remove(
                old(state).room_index(disconnect_data.game_id@, disconnect_data.room_id@),
            ))
            &&& (!old(state).has_room(disconnect_data.game_id@, disconnect_data.room_id@)
                ==> final(state).rooms@ == old(state).rooms@)
        },
        !disconnect_data.is_server ==> {
            &&& frame@ == client_disconnects_frame_spec(disconnect_data.player_id)
            &&& (!old(state).has_room(disconnect_data.game_id@, disconnect_data.room_id@)
                ==> final(state).rooms@ == old(state).rooms@)
            &&& (old(state).has_room(disconnect_data.game_id@, disconnect_data.room_id@) ==> {
                let i = old(state).room_index(disconnect_data.game_id@, disconnect_data.room_id@);
                final(state).rooms@ == old(state).rooms@.update(
                    i,
                    crate::lobby::RoomEntry {
                        game_id: old(state).rooms@[i].game_id,
                        room_id: old(state).rooms@[i].room_id,
                        room: crate::lobby::left_room(old(state).rooms@[i].room),
                    },
                )
            })
        },
{
    if disconnect_data.is_server {
        state.destroy_room(&disconnect_data.game_id, &disconnect_data.room_id);
        server_disconnects_frame()
    } else {
        state.leave_room(&disconnect_data.game_id, &disconnect_data.room_id);
        client_disconnects_frame(disconnect_data.player_id)
    }
}

/// The rule variation makes the round trip: the host opens a room asking
/// for a variation, and every joiner of that room is granted exactly that
/// variation, as long as the room entry is unchanged.
pub proof fn lemma_rule_variation_round_trip(
    s0: AppState,
    s1: AppState,
    game_id: String,
    room_id: String,
    rule_variation: u16,
)
    requires
        s0.wf(),
        !s0.has_room(game_id@, room_id@),
        s1.rooms@ == s0.rooms@.push(
            crate::lobby::RoomEntry { game_id, room_id, room: fresh_room(rule_variation) },
        ),
    ensures
        s1.has_room(game_id@, room_id@),
        s1.room_at(game_id@, room_id@) == fresh_room(rule_variation),
        s1.room_at(game_id@, room_id@).rule_variation == rule_variation,
{
    let entry = crate::lobby::RoomEntry { game_id, room_id, room: fresh_room(rule_variation) };
    let n = s0.rooms@.len() as int;
    assert(s1.rooms@[n] == entry);
    assert(crate::lobby::entry_has_key(s1.rooms@[n], game_id@, room_id@));
    assert(s1.has_room(game_id@, room_id@));
    let j = s1.room_index(game_id@, room_id@);
    if j != n {
        assert(s0.rooms@[j] == s1.rooms@[j]);
        assert(s0.has_room(game_id@, room_id@));
    }
}

} // verus!
