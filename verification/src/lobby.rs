//! Rooms and the game catalog.
//!
//! The lobby is the in-memory registry of active rooms, keyed by the pair
//! of game id and room id, together with the catalog that maps each game
//! to its player quota. All operations work in one critical section on
//! plain data; channels and sockets live with the caller.

use vstd::prelude::*;

verus! {

/// One game of the catalog.
pub struct GameEntry {
    /// The name of the game.
    pub name: String,
    /// The maximum number of players (0 = no limit).
    pub max_players: u16,
}

/// The bookkeeping of one active room.
#[derive(Clone, Copy)]
pub struct Room {
    /// The id the next joiner receives; counted up from 1. The host is 0.
    pub next_client_id: u16,
    /// The number of currently connected players, the host included.
    pub amount_of_players: u16,
    /// The rule variation the host chose at creation.
    pub rule_variation: u16,
}

/// A room under its key.
pub struct RoomEntry {
    /// The game this room belongs to.
    pub game_id: String,
    /// The name of the room within the game.
    pub room_id: String,
    /// The room's counters.
    pub room: Room,
}

/// The process-wide state of the relay: all rooms and the game catalog.
pub struct AppState {
    /// The active rooms; at most one entry per key.
    pub rooms: Vec<RoomEntry>,
    /// The catalog of games with their player quotas.
    pub configs: Vec<GameEntry>,
}

/// Why a lobby operation was refused.
#[derive(PartialEq, Eq, Structural, Clone, Copy, Debug)]
pub enum LobbyError {
    /// A room with this key already exists.
    AlreadyExists,
    /// No room with this key exists.
    Missing,
    /// The room is at its player quota.
    Full,
    /// The room has no client ids left.
    IdExhausted,
}

/// What a successful join hands back to the joiner.
#[derive(Clone, Copy)]
pub struct JoinGrant {
    /// The id assigned to the joiner.
    pub player_id: u16,
    /// The rule variation of the room.
    pub rule_variation: u16,
}

/// The largest client id that may still be assigned.
pub const MAX_CLIENT_ID: u16 = 32700;

/// Whether the entry carries the given key.
pub open spec fn entry_has_key(e: RoomEntry, game: Seq<char>, room: Seq<char>) -> bool {
    e.game_id@ == game && e.room_id@ == room
}

/// The counters of a freshly created room: the host is counted, and the
/// first joiner will become player 1.
pub open spec fn fresh_room(rule_variation: u16) -> Room {
    Room { next_client_id: 1u16, amount_of_players: 1u16, rule_variation }
}

/// A room after one successful join.
pub open spec fn joined_room(r: Room) -> Room {
    Room {
        next_client_id: (r.next_client_id + 1) as u16,
        amount_of_players: (r.amount_of_players + 1) as u16,
        rule_variation: r.rule_variation,
    }
}

/// A room after one leave; the count never goes below zero.
pub open spec fn left_room(r: Room) -> Room {
    Room {
        next_client_id: r.next_client_id,
        amount_of_players: if r.amount_of_players > 0 {
            (r.amount_of_players - 1) as u16
        } else {
            0u16
        },
        rule_variation: r.rule_variation,
    }
}

/// Whether a join is refused because the room is at its quota.
pub open spec fn room_full(r: Room, max_players: u16) -> bool {
    max_players != 0 && r.amount_of_players >= max_players
}

/// Whether a join is refused because the ids ran out.
pub open spec fn ids_exhausted(r: Room) -> bool {
    r.next_client_id > MAX_CLIENT_ID
}

/// The id counter starts at 1 and the player count never runs ahead of
/// it: the host is 0, and every counted player besides the host consumed
/// one id.
pub open spec fn room_counts_ok(r: Room) -> bool {
    1 <= r.next_client_id && r.amount_of_players <= r.next_client_id
}

impl AppState {
    /// The rooms hold at most one entry per key.
    pub open spec fn rooms_unique(self) -> bool {
        forall|i: int, j: int|
            0 <= i < j < self.rooms@.len() ==> !(self.rooms@[i].game_id@ == self.rooms@[j].game_id@
                && self.rooms@[i].room_id@ == self.rooms@[j].room_id@)
    }

    /// The lobby invariant: unique keys and well-formed counters.
    pub open spec fn wf(self) -> bool {
        self.rooms_unique() && forall|i: int|
            0 <= i < self.rooms@.len() ==> room_counts_ok(#[trigger] self.rooms@[i].room)
    }

    /// Whether a room with the given key exists.
    pub open spec fn has_room(self, game: Seq<char>, room: Seq<char>) -> bool {
        exists|i: int| 0 <= i < self.rooms@.len() && entry_has_key(self.rooms@[i], game, room)
    }

    /// The index of the room with the given key.
    pub open spec fn room_index(self, game: Seq<char>, room: Seq<char>) -> int {
        choose|i: int| 0 <= i < self.rooms@.len() && entry_has_key(self.rooms@[i], game, room)
    }

    /// The room stored under the given key.
    pub open spec fn room_at(self, game: Seq<char>, room: Seq<char>) -> Room {
        self.rooms@[self.room_index(game, room)].room
    }

    /// An empty lobby with an empty catalog.
    pub fn new() -> (r: AppState)
        ensures
            r.rooms@.len() == 0,
            r.configs@.len() == 0,
            r.wf(),
    {
        AppState { rooms: Vec::new(), configs: Vec::new() }
    }

    /// Finds the room with the given key.
    fn find_room(&self, game_id: &String, room_id: &String) -> (r: Option<usize>)
        ensures
            match r {
                Some(i) => i < self.rooms@.len() && entry_has_key(
                    self.rooms@[i as int],
                    game_id@,
                    room_id@,
                ),
                None => !self.has_room(game_id@, room_id@),
            },
    {
        let n = self.rooms.len();
        let mut i: usize = 0;
        while i < n
            invariant
                n == self.rooms@.len(),
                i <= n,
                forall|j: int|
                    0 <= j < i ==> !entry_has_key(self.rooms@[j], game_id@, room_id@),
            decreases n - i,
        {
            let e = &self.rooms[i];
            if e.game_id == *game_id && e.room_id == *room_id {
                return Some(i);
            }
            i = i + 1;
        }
        None
    }

    /// Atomically inserts a new room under the key if none exists, with the
    /// host already counted; refused exactly when the key is taken.
    pub fn create_room(
        &mut self,
        game_id: String,
        room_id: String,
        rule_variation: u16,
    ) -> (r: Result<(), LobbyError>)
        requires
            old(self).wf(),
        ensures
            final(self).wf(),
            final(self).configs@ == old(self).configs@,
            match r {
                Ok(()) => !old(self).has_room(game_id@, room_id@) && final(self).rooms@ == old(
                    self,
                ).rooms@.push(
                    RoomEntry { game_id, room_id, room: fresh_room(rule_variation) },
                ),
                Err(e) => e == LobbyError::AlreadyExists && old(self).has_room(
                    game_id@,
                    room_id@,
                ) && final(self).rooms@ == old(self).rooms@,
            },
    {
        if self.find_room(&game_id, &room_id).is_some() {
            return Err(LobbyError::AlreadyExists);
        }
        let entry = RoomEntry { game_id, room_id, room: fresh_room_exec(rule_variation) };
        self.rooms.push(entry);
        Ok(())
    }

    /// Atomically assigns the next id and counts the joiner; each refusal
    /// comes exactly on the condition its variant names.
    pub fn join_room(&mut self, game_id: &String, room_id: &String, max_players: u16) -> (r:
        Result<JoinGrant, LobbyError>)
        requires
            old(self).wf(),
        ensures
            final(self).wf(),
            final(self).configs@ == old(self).configs@,
            match r {
                Ok(grant) => {
                    let i = old(self).room_index(game_id@, room_id@);
                    let room = old(self).room_at(game_id@, room_id@);
                    &&& old(self).has_room(game_id@, room_id@)
                    &&& !room_full(room, max_players)
                    &&& !ids_exhausted(room)
                    &&& grant.player_id == room.next_client_id
                    &&& grant.rule_variation == room.rule_variation
                    &&& final(self).rooms@ == old(self).rooms@.update(
                        i,
                        RoomEntry {
                            game_id: old(self).rooms@[i].game_id,
                            room_id: old(self).rooms@[i].room_id,
                            room: joined_room(room),
                        },
                    )
                },
                Err(e) => {
                    &&& final(self).rooms@ == old(self).rooms@
                    &&& (e == LobbyError::Missing <==> !old(self).has_room(game_id@, room_id@))
                    &&& (e == LobbyError::Full <==> old(self).has_room(game_id@, room_id@)
                        && room_full(old(self).room_at(game_id@, room_id@), max_players))
                    &&& (e == LobbyError::IdExhausted <==> old(self).has_room(game_id@, room_id@)
                        && !room_full(old(self).room_at(game_id@, room_id@), max_players)
                        && ids_exhausted(old(self).room_at(game_id@, room_id@)))
                    &&& (e == LobbyError::Missing || e == LobbyError::Full || e
                        == LobbyError::IdExhausted)
                },
            },
    {
        let found = self.find_room(game_id, room_id);
        let Some(i) = found else { return Err(LobbyError::Missing) };
        proof {
            lemma_unique_index(*self, game_id@, room_id@, i as int);
        }
        let room = self.rooms[i].room;
        if max_players != 0 && room.amount_of_players >= max_players {
            return Err(LobbyError::Full);
        }
        if room.next_client_id > MAX_CLIENT_ID {
            return Err(LobbyError::IdExhausted);
        }
        let grant = JoinGrant {
            player_id: room.next_client_id,
            rule_variation: room.rule_variation,
        };
        let entry = &mut self.rooms[i];
        entry.room.next_client_id = room.next_client_id + 1;
        entry.room.amount_of_players = room.amount_of_players + 1;
        Ok(grant)
    }

    /// Counts one client out of the room; a no-op if the room is gone, and
    /// the count never goes below zero.
    pub fn leave_room(&mut self, game_id: &String, room_id: &String)
        requires
            old(self).wf(),
        ensures
            final(self).wf(),
            final(self).configs@ == old(self).configs@,
            !old(self).has_room(game_id@, room_id@) ==> final(self).rooms@ == old(self).rooms@,
            old(self).has_room(game_id@, room_id@) ==> {
                let i = old(self).room_index(game_id@, room_id@);
                final(self).rooms@ == old(self).rooms@.update(
                    i,
                    RoomEntry {
                        game_id: old(self).rooms@[i].game_id,
                        room_id: old(self).rooms@[i].room_id,
                        room: left_room(old(self).rooms@[i].room),
                    },
                )
            },
    {
        let found = self.find_room(game_id, room_id);
        let Some(i) = found else { return };
        proof {
            lemma_unique_index(*self, game_id@, room_id@, i as int);
        }
        let room = self.rooms[i].room;
        let entry = &mut self.rooms[i];
        if room.amount_of_players > 0 {
            entry.room.amount_of_players = room.amount_of_players - 1;
        }
        proof {
            assert(final(self).rooms@ =~= old(self).rooms@.update(
                i as int,
                RoomEntry {
                    game_id: old(self).rooms@[i as int].game_id,
                    room_id: old(self).rooms@[i as int].room_id,
                    room: left_room(old(self).rooms@[i as int].room),
                },
            ));
        }
    }

    /// Removes the room under the key; a no-op if the room is gone.
    pub fn destroy_room(&mut self, game_id: &String, room_id: &String)
        requires
            old(self).wf(),
        ensures
            final(self).wf(),
            final(self).configs@ == old(self).configs@,
            !final(self).has_room(game_id@, room_id@),
            !old(self).has_room(game_id@, room_id@) ==> final(self).rooms@ == old(self).rooms@,
            old(self).has_room(game_id@, room_id@) ==> final(self).rooms@ == old(
                self,
            ).rooms@.remove(old(self).room_index(game_id@, room_id@)),
    {
        let found = self.find_room(game_id, room_id);
        let Some(i) = found else { return };
        proof {
            lemma_unique_index(*self, game_id@, room_id@, i as int);
        }
        self.rooms.remove(i);
        proof {
            assert forall|j: int|
                0 <= j < final(self).rooms@.len() implies !entry_has_key(
                final(self).rooms@[j],
                game_id@,
                room_id@,
            ) by {
                if j < i as int {
                    assert(final(self).rooms@[j] == old(self).rooms@[j]);
                } else {
                    assert(final(self).rooms@[j] == old(self).rooms@[j + 1]);
                }
            }
        }
    }

    /// Replaces the game catalog wholesale; existing rooms are unaffected.
    pub fn replace_catalog(&mut self, entries: Vec<GameEntry>)
        ensures
            final(self).rooms@ == old(self).rooms@,
            final(self).configs@ == entries@,
    {
        self.configs = entries;
    }

    /// The quota of the named game, if the catalog lists it; of several
    /// entries with one name the last one counts, as a wholesale reload
    /// would have kept it.
    pub fn max_players_of(&self, game_id: &String) -> (r: Option<u16>)
        ensures
            r == catalog_lookup(self.configs@, game_id@),
    {
        let n = self.configs.len();
        let mut i: usize = n;
        proof {
            assert(self.configs@.take(n as int) =~= self.configs@);
        }
        while i > 0
            invariant
                n == self.configs@.len(),
                i <= n,
                catalog_lookup(self.configs@, game_id@) == catalog_lookup(
                    self.configs@.take(i as int),
                    game_id@,
                ),
            decreases i,
        {
            i = i - 1;
            let e = &self.configs[i];
            proof {
                assert(self.configs@.take(i + 1).last() == self.configs@[i as int]);
                assert(self.configs@.take(i + 1).drop_last() =~= self.configs@.take(i as int));
            }
            if e.name == *game_id {
                return Some(e.max_players);
            }
        }
        proof {
            assert(self.configs@.take(0) =~= Seq::<GameEntry>::empty());
        }
        None
    }
}

/// The quota the catalog gives a game: the last entry under the name wins.
pub open spec fn catalog_lookup(entries: Seq<GameEntry>, name: Seq<char>) -> Option<u16>
    decreases entries.len(),
{
    if entries.len() == 0 {
        None
    } else if entries.last().name@ == name {
        Some(entries.last().max_players)
    } else {
        catalog_lookup(entries.drop_last(), name)
    }
}

/// Builds the counters of a fresh room.
fn fresh_room_exec(rule_variation: u16) -> (r: Room)
    ensures
        r == fresh_room(rule_variation),
{
    Room { next_client_id: 1, amount_of_players: 1, rule_variation }
}

/// In a lobby without duplicate keys an index that matches a key is the
/// room index of that key.
pub proof fn lemma_unique_index(s: AppState, game: Seq<char>, room: Seq<char>, i: int)
    requires
        s.rooms_unique(),
        0 <= i < s.rooms@.len(),
        entry_has_key(s.rooms@[i], game, room),
    ensures
        s.has_room(game, room),
        s.room_index(game, room) == i,
{
    assert(s.has_room(game, room));
    let j = s.room_index(game, room);
    if i < j {
        assert(false);
    } else if j < i {
        assert(false);
    }
}

/// The lobby holds at most one room per key: two matching indexes are one.
pub proof fn lemma_room_uniqueness(s: AppState, game: Seq<char>, room: Seq<char>, i: int, j: int)
    requires
        s.rooms_unique(),
        0 <= i < s.rooms@.len(),
        0 <= j < s.rooms@.len(),
        entry_has_key(s.rooms@[i], game, room),
        entry_has_key(s.rooms@[j], game, room),
    ensures
        i == j,
{
    if i < j {
        assert(false);
    } else if j < i {
        assert(false);
    }
}

/// A room after `n` successful joins.
pub open spec fn joins_applied(room: Room, n: nat) -> Room
    decreases n,
{
    if n == 0 {
        room
    } else {
        joined_room(joins_applied(room, (n - 1) as nat))
    }
}

/// Each join moves the id counter up by exactly one.
pub proof fn lemma_joins_count(room: Room, n: nat)
    requires
        room.next_client_id + n <= u16::MAX,
    ensures
        joins_applied(room, n).next_client_id == room.next_client_id + n,
    decreases n,
{
    if n > 0 {
        lemma_joins_count(room, (n - 1) as nat);
    }
}

/// Within a room, successive joiners receive strictly increasing ids:
/// whatever a join hands out is larger than what every earlier join
/// handed out, so no id is ever reused. A join grants the counter's
/// value, a leave never touches the counter, and the counter stays in
/// range by the id ceiling.
pub proof fn lemma_player_id_monotonic(room: Room, earlier: nat, later: nat)
    requires
        earlier < later,
        room.next_client_id + later <= u16::MAX,
    ensures
        joins_applied(room, earlier).next_client_id < joins_applied(room, later).next_client_id,
        left_room(joins_applied(room, earlier)).next_client_id == joins_applied(
            room,
            earlier,
        ).next_client_id,
{
    lemma_joins_count(room, earlier);
    lemma_joins_count(room, later);
}

/// One room event: a successful join or a leave of a present client.
pub enum RoomEvent {
    /// A client joined.
    Join,
    /// A client left.
    Leave,
}

/// The number of joins in the events.
pub open spec fn count_joins(es: Seq<RoomEvent>) -> int
    decreases es.len(),
{
    if es.len() == 0 {
        0
    } else {
        count_joins(es.drop_last()) + if es.last() is Join {
            1int
        } else {
            0int
        }
    }
}

/// The number of leaves in the events.
pub open spec fn count_leaves(es: Seq<RoomEvent>) -> int
    decreases es.len(),
{
    if es.len() == 0 {
        0
    } else {
        count_leaves(es.drop_last()) + if es.last() is Leave {
            1int
        } else {
            0int
        }
    }
}

/// The room after the given events were applied in order.
pub open spec fn apply_room_events(room: Room, es: Seq<RoomEvent>) -> Room
    decreases es.len(),
{
    if es.len() == 0 {
        room
    } else {
        let prev = apply_room_events(room, es.drop_last());
        match es.last() {
            RoomEvent::Join => joined_room(prev),
            RoomEvent::Leave => left_room(prev),
        }
    }
}

/// Player-count conservation: starting from a fresh room, the player count
/// equals one for the host plus the successful joins minus the leaves, as
/// long as no one leaves who has not joined and the counters stay in range.
pub proof fn lemma_player_count_conservation(rule_variation: u16, es: Seq<RoomEvent>)
    requires
        forall|k: int|
            0 <= k <= es.len() ==> #[trigger] count_leaves(es.take(k)) <= count_joins(es.take(k)),
        1 + count_joins(es) <= u16::MAX,
        1 + es.len() <= u16::MAX,
    ensures
        apply_room_events(fresh_room(rule_variation), es).amount_of_players == 1 + count_joins(es)
            - count_leaves(es),
    decreases es.len(),
{
    if es.len() == 0 {
    } else {
        let pre = es.drop_last();
        assert forall|k: int|
            0 <= k <= pre.len() implies #[trigger] count_leaves(pre.take(k)) <= count_joins(
            pre.take(k),
        ) by {
            assert(pre.take(k) =~= es.take(k));
        }
        assert(count_joins(es) == count_joins(pre) + if es.last() is Join {
            1int
        } else {
            0int
        });
        assert(count_leaves(es) == count_leaves(pre) + if es.last() is Leave {
            1int
        } else {
            0int
        });
        lemma_player_count_conservation(rule_variation, pre);
        let prev = apply_room_events(fresh_room(rule_variation), pre);
        if es.last() is Leave {
            assert(count_leaves(es.take(es.len() as int)) <= count_joins(
                es.take(es.len() as int),
            ));
            assert(es.take(es.len() as int) =~= es);
            assert(count_leaves(es) <= count_joins(es));
            assert(prev.amount_of_players >= 1);
        } else {
            lemma_counts_nonneg(pre);
            assert(prev.amount_of_players + 1 <= u16::MAX);
        }
    }
}

/// Both event counts are counts: never negative.
proof fn lemma_counts_nonneg(es: Seq<RoomEvent>)
    ensures
        count_joins(es) >= 0,
        count_leaves(es) >= 0,
    decreases es.len(),
{
    if es.len() > 0 {
        lemma_counts_nonneg(es.drop_last());
    }
}

} // verus!
