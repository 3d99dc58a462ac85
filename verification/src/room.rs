use crate::codes::RoomCode;
use crate::game::{fresh_game, Game};
use crate::message::{OutgoingMessage, RemoveReason};
use crate::room_manager::{
    Availability, OnRoomClosed, RoomConfig, RoomUnavailablityReason, UpdateRoomMatchAvailability,
};
use crate::session::RestoreState;
use crate::{SessionRef, TransientId};
use vstd::prelude::*;

verus! {

/// One occupied seat: the member's transient id and the endpoint frames for
/// them are delivered to.
#[derive(Clone, Copy, PartialEq, Eq, Structural, Debug)]
pub struct PlayerInRoom {
    pub addr: SessionRef,
    pub transient_id: TransientId,
}

/// Game-level options chosen at room creation.
#[derive(Clone, Copy, PartialEq, Eq, Structural, Debug)]
pub struct GameConfigOptions {
    pub mode: crate::game::GameMode,
}

impl Default for GameConfigOptions {
    fn default() -> (r: Self)
        ensures
            r == (GameConfigOptions { mode: crate::game::GameMode::Standard }),
    {
        GameConfigOptions { mode: crate::game::GameMode::Standard }
    }
}

/// Why a join request was refused.
#[derive(Clone, Copy, PartialEq, Eq, Structural, Debug)]
pub enum JoinRoomError {
    RoomFull,
    GameInProgress,
    AlreadyInRoom,
    RoomNotFound,
    InvalidCode,
    InternalServerError,
}

/// Why a start request was refused.
#[derive(Clone, Copy, PartialEq, Eq, Structural, Debug)]
pub enum StartGameError {
    GameAlreadyRunning,
    NotLeader,
}

/// Evict a member, telling them why.
#[derive(Clone, Copy, PartialEq, Eq, Structural, Debug)]
pub struct RemovePlayer {
    pub transient_id: TransientId,
    pub reason: RemoveReason,
}

/// Shut the room down.
#[derive(Clone, Copy, PartialEq, Eq, Structural, Debug)]
pub struct CloseRoom;

/// Admit the given session as a new member.
#[derive(Clone, Copy, PartialEq, Eq, Debug)]
pub struct AddPlayer(pub (TransientId, SessionRef));

/// A member reconnected on a new stream: rewire their seat to the new
/// session without disturbing the seat index.
#[derive(Clone, Copy, PartialEq, Eq, Debug)]
pub struct ClientReconnection {
    pub replacee: TransientId,
    pub replacer: (TransientId, SessionRef),
}

/// A member asks to start the game.
#[derive(Clone, Copy, PartialEq, Eq, Structural, Debug)]
pub struct RequestStart(pub TransientId);

/// How many seats of the roster are occupied.
pub open spec fn num_some(s: Seq<Option<PlayerInRoom>>) -> int
    decreases s.len(),
{
    if s.len() == 0 {
        0
    } else {
        num_some(s.drop_last()) + if s.last() is Some {
            1int
        } else {
            0int
        }
    }
}

proof fn lemma_num_some_update(s: Seq<Option<PlayerInRoom>>, i: int, v: Option<PlayerInRoom>)
    requires
        0 <= i < s.len(),
    ensures
        num_some(s.update(i, v)) == num_some(s) - (if s[i] is Some {
            1int
        } else {
            0int
        }) + (if v is Some {
            1int
        } else {
            0int
        }),
    decreases s.len(),
{
    if i == s.len() - 1 {
        assert(s.update(i, v).drop_last() =~= s.drop_last());
    } else {
        assert(s.update(i, v).drop_last() =~= s.drop_last().update(i, v));
        lemma_num_some_update(s.drop_last(), i, v);
    }
}

proof fn lemma_num_some_push(s: Seq<Option<PlayerInRoom>>, v: Option<PlayerInRoom>)
    ensures
        num_some(s.push(v)) == num_some(s) + if v is Some {
            1int
        } else {
            0int
        },
{
    assert(s.push(v).drop_last() =~= s);
}

/// The frames a fan-out of `msg` produces: one per occupied seat, in seat
/// order.
pub open spec fn fanout_of(players: Seq<Option<PlayerInRoom>>, msg: OutgoingMessage) -> Seq<
    (SessionRef, OutgoingMessage),
>
    decreases players.len(),
{
    if players.len() == 0 {
        Seq::empty()
    } else {
        let rest = fanout_of(players.drop_last(), msg);
        match players.last() {
            Some(p) => rest.push((p.addr, msg)),
            None => rest,
        }
    }
}

/// The first seat index at or after `i` that is unoccupied.
pub open spec fn first_none_from(s: Seq<Option<PlayerInRoom>>, i: int) -> Option<int>
    decreases s.len() - i,
{
    if i < 0 || i >= s.len() {
        None
    } else if s[i] is None {
        Some(i)
    } else {
        first_none_from(s, i + 1)
    }
}

proof fn lemma_first_none_found(s: Seq<Option<PlayerInRoom>>, from: int, found: int)
    requires
        0 <= from <= found < s.len(),
        s[found] is None,
        forall|j: int| from <= j < found ==> s[j] is Some,
    ensures
        first_none_from(s, from) == Some(found),
    decreases found - from,
{
    if from < found {
        lemma_first_none_found(s, from + 1, found);
    }
}

proof fn lemma_first_none_none(s: Seq<Option<PlayerInRoom>>, from: int)
    requires
        0 <= from,
        forall|j: int| from <= j < s.len() ==> s[j] is Some,
    ensures
        first_none_from(s, from) is None,
    decreases s.len() - from,
{
    if from < s.len() {
        lemma_first_none_none(s, from + 1);
    }
}

/// A lobby and the game it may be running. Membership is a seat vector plus
/// a transient-id-to-seat map; a member's seat index is stable for the whole
/// membership, which turn order depends on.
pub struct Room {
    pub players: Vec<Option<PlayerInRoom>>,
    pub id_map: Vec<(TransientId, usize)>,
    pub game: Option<Game>,
    pub code: RoomCode,
    pub game_config: GameConfigOptions,
    pub room_config: RoomConfig,
    pub leader: TransientId,
    pub player_count: usize,
}

impl Room {
    /// Seat map entry `k` points at a matching occupied seat.
    pub open spec fn entry_wf(self, k: int) -> bool {
        &&& self.id_map@[k].1 < self.players@.len()
        &&& self.players@[self.id_map@[k].1 as int] matches Some(p) && p.transient_id
            == self.id_map@[k].0
    }

    /// The room's membership invariant: the seat map and the seat vector
    /// describe the same members, one seat each, and `player_count` counts
    /// the occupied seats.
    pub open spec fn wf(self) -> bool {
        &&& forall|k: int| 0 <= k < self.id_map@.len() ==> #[trigger] self.entry_wf(k)
        &&& forall|k1: int, k2: int|
            0 <= k1 < self.id_map@.len() && 0 <= k2 < self.id_map@.len() && k1 != k2 ==> (
            #[trigger] self.id_map@[k1]).0 != (#[trigger] self.id_map@[k2]).0 && self.id_map@[k1].1
                != self.id_map@[k2].1
        &&& forall|i: int|
            0 <= i < self.players@.len() && (#[trigger] self.players@[i]) is Some ==> exists|k: int|
                0 <= k < self.id_map@.len() && (#[trigger] self.id_map@[k]).0
                    == self.players@[i]->Some_0.transient_id && self.id_map@[k].1 as int == i
        &&& self.player_count == self.id_map@.len()
        &&& self.player_count == num_some(self.players@)
        &&& match self.game {
            Some(g) => g.state.player_data@.len() == self.players@.len() && forall|i: int|
                0 <= i < self.players@.len() && (#[trigger] self.players@[i]) is Some
                    ==> g.state.player_data@[i] is Some,
            None => true,
        }
    }

    /// True when the member with transient id `t` is in the room.
    pub open spec fn has_member(self, t: TransientId) -> bool {
        exists|k: int| 0 <= k < self.id_map@.len() && (#[trigger] self.id_map@[k]).0 == t
    }

    /// Position in the seat map of the entry for member `t`.
    pub open spec fn entry_of(self, t: TransientId) -> int {
        choose|k: int| 0 <= k < self.id_map@.len() && (#[trigger] self.id_map@[k]).0 == t
    }

    /// The seat index member `t` occupies.
    pub open spec fn slot_of(self, t: TransientId) -> int {
        self.id_map@[self.entry_of(t)].1 as int
    }

    /// The fan-out of `msg` to every member of this room.
    pub open spec fn spec_fanout(self, msg: OutgoingMessage) -> Seq<(SessionRef, OutgoingMessage)> {
        fanout_of(self.players@, msg)
    }

    /// A member's seat holds a matching player entry.
    pub proof fn lemma_member_slot_consistent(self, t: TransientId)
        requires
            self.wf(),
            self.has_member(t),
        ensures
            0 <= self.slot_of(t) < self.players@.len(),
            self.players@[self.slot_of(t)] matches Some(p) && p.transient_id == t,
    {
        let k = self.entry_of(t);
        assert(self.entry_wf(k));
    }

    /// Opens a room with `leader` seated alone at seat 0.
    pub fn new(code: RoomCode, leader: (TransientId, SessionRef), room_config: RoomConfig) -> (r:
        Room)
        ensures
            r.wf(),
            r.code == code,
            r.leader == leader.0,
            r.players@ == seq![Some(PlayerInRoom { addr: leader.1, transient_id: leader.0 })],
            r.has_member(leader.0),
            r.slot_of(leader.0) == 0,
            r.player_count == 1,
            r.game is None,
            r.room_config == room_config,
            r.game_config == (GameConfigOptions { mode: crate::game::GameMode::Standard }),
    {
        let (transient_id, addr) = leader;
        let player = PlayerInRoom { addr, transient_id };
        let mut players: Vec<Option<PlayerInRoom>> = Vec::new();
        players.push(Some(player));
        let mut id_map: Vec<(TransientId, usize)> = Vec::new();
        id_map.push((transient_id, 0));
        let r = Room {
            players,
            id_map,
            game: None,
            code,
            game_config: GameConfigOptions { mode: crate::game::GameMode::Standard },
            room_config,
            leader: transient_id,
            player_count: 1,
        };
        proof {
            assert(r.players@ =~= seq![Some(player)]);
            assert(r.id_map@ =~= seq![(transient_id, 0usize)]);
            assert(r.entry_wf(0));
            assert(r.players@.drop_last() =~= Seq::<Option<PlayerInRoom>>::empty());
            assert(num_some(Seq::<Option<PlayerInRoom>>::empty()) == 0);
            assert(num_some(r.players@) == 1);
            assert(r.id_map@[0] == (transient_id, 0usize));
            assert(r.id_map@[0].0 == transient_id);
            assert(r.slot_of(transient_id) == 0);
        }
        r
    }

    /// Sends `msg` to one seat, or to every member when `target` is absent.
    pub fn notify_clients(&self, msg: OutgoingMessage, target: Option<usize>) -> (out: Vec<
        (SessionRef, OutgoingMessage),
    >)
        requires
            target matches Some(idx) ==> idx < self.players@.len() && self.players@[idx as int]
                is Some,
        ensures
            match target {
                Some(idx) => out@ == seq![(self.players@[idx as int]->Some_0.addr, msg)],
                None => out@ == self.spec_fanout(msg),
            },
    {
        let mut out: Vec<(SessionRef, OutgoingMessage)> = Vec::new();
        match target {
            Some(idx) => {
                match &self.players[idx] {
                    Some(p) => {
                        out.push((p.addr, msg));
                    },
                    None => {
                    },
                }
                proof {
                    assert(out@ =~= seq![(self.players@[target->Some_0 as int]->Some_0.addr, msg)]);
                }
            },
            None => {
                let len = self.players.len();
                let mut i: usize = 0;
                proof {
                    assert(self.players@.subrange(0, 0) =~= Seq::<Option<PlayerInRoom>>::empty());
                }
                while i < len
                    invariant
                        i <= len,
                        len == self.players@.len(),
                        out@ == fanout_of(self.players@.subrange(0, i as int), msg),
                    decreases len - i,
                {
                    proof {
                        assert(self.players@.subrange(0, i + 1).drop_last() =~= self.players@
                            .subrange(0, i as int));
                        assert(self.players@.subrange(0, i + 1).last() == self.players@[i as int]);
                    }
                    match &self.players[i] {
                        Some(p) => {
                            out.push((p.addr, msg.duplicate()));
                        },
                        None => {
                        },
                    }
                    i += 1;
                }
                proof {
                    assert(self.players@.subrange(0, len as int) =~= self.players@);
                }
            },
        }
        out
    }

    /// The transient id seated at `idx`, when that seat is occupied.
    pub fn get_id(&self, idx: usize) -> (r: Option<TransientId>)
        ensures
            r == if idx < self.players@.len() && self.players@[idx as int] is Some {
                Some(self.players@[idx as int]->Some_0.transient_id)
            } else {
                None::<TransientId>
            },
    {
        if idx < self.players.len() {
            match &self.players[idx] {
                Some(p) => Some(p.transient_id),
                None => None,
            }
        } else {
            None
        }
    }

    /// The seat vector itself.
    pub fn get_players(&self) -> (r: &Vec<Option<PlayerInRoom>>)
        ensures
            r@ == self.players@,
    {
        &self.players
    }
}

/// The seat a newly admitted member takes: the first unoccupied seat, or a
/// fresh seat at the end of the vector when every existing seat is taken.
pub open spec fn spec_join_index(players: Seq<Option<PlayerInRoom>>) -> int {
    match first_none_from(players, 0) {
        Some(i) => i,
        None => players.len() as int,
    }
}

impl Room {
    /// Admits the session as a new member, or says why it cannot join.
    /// When the admission fills the last seat, the room reports itself
    /// unavailable to the room manager, exactly once.
    pub fn handle_add_player(&mut self, msg: AddPlayer) -> (r: (
        Result<RoomCode, JoinRoomError>,
        Option<UpdateRoomMatchAvailability>,
    ))
        requires
            old(self).wf(),
        ensures
            final(self).wf(),
            final(self).code == old(self).code && final(self).leader == old(self).leader && final(self).room_config == old(self).room_config && final(self).game_config == old(self).game_config && final(self).game == old(self).game,
            old(self).game is Some ==> r.0 == Err::<RoomCode, JoinRoomError>(
                JoinRoomError::GameInProgress,
            ) && *final(self) == *old(self) && r.1 is None,
            old(self).game is None && old(self).player_count >= old(self).room_config.max_player_count ==> r.0 == Err::<RoomCode, JoinRoomError>(
                JoinRoomError::RoomFull,
            ) && *final(self) == *old(self) && r.1 is None,
            old(self).game is None && old(self).player_count < old(self).room_config.max_player_count && old(self).has_member(msg.0.0) ==> r.0 == Err::<
                RoomCode,
                JoinRoomError,
            >(JoinRoomError::AlreadyInRoom) && *final(self) == *old(self) && r.1 is None,
            old(self).game is None && old(self).player_count < old(self).room_config.max_player_count && !old(self).has_member(msg.0.0) ==> ({
                let player = PlayerInRoom { addr: msg.0.1, transient_id: msg.0.0 };
                let idx = spec_join_index(old(self).players@);
                &&& r.0 == Ok::<RoomCode, JoinRoomError>(old(self).code)
                &&& final(self).player_count == old(self).player_count + 1
                &&& final(self).players@ == if idx < old(self).players@.len() {
                    old(self).players@.update(idx, Some(player))
                } else {
                    old(self).players@.push(Some(player))
                }
                &&& final(self).has_member(msg.0.0)
                &&& final(self).slot_of(msg.0.0) == idx
                &&& forall|t: TransientId|
                    final(self).has_member(t) <==> old(self).has_member(t) || t == msg.0.0
                &&& forall|t: TransientId|
                    t != msg.0.0 && old(self).has_member(t) ==> final(self).slot_of(t) == old(self).slot_of(t)
                &&& r.1 == if final(self).player_count == old(self).room_config.max_player_count {
                    Some(
                        UpdateRoomMatchAvailability {
                            code: old(self).code,
                            availability: Availability::Unavailable(RoomUnavailablityReason::Full),
                        },
                    )
                } else {
                    None::<UpdateRoomMatchAvailability>
                }
            }),
    {
        let (id, addr) = msg.0;
        if self.game.is_some() {
            return (Err(JoinRoomError::GameInProgress), None);
        }
        if self.player_count >= self.room_config.max_player_count as usize {
            return (Err(JoinRoomError::RoomFull), None);
        }
        match find_tid(&self.id_map, id) {
            Some(_) => {
                return (Err(JoinRoomError::AlreadyInRoom), None);
            },
            None => {
            },
        }
        proof {
            assert(!old(self).has_member(id));
        }
        let player = PlayerInRoom { addr, transient_id: id };
        let len = self.players.len();
        let mut i: usize = 0;
        let mut slot: Option<usize> = None;
        while i < len && slot.is_none()
            invariant
                len == self.players@.len(),
                i <= len,
                match slot {
                    None => forall|j: int| 0 <= j < i ==> self.players@[j] is Some,
                    Some(s_idx) => first_none_from(self.players@, 0) == Some(s_idx as int) && s_idx
                        < len && self.players@[s_idx as int] is None,
                },
            decreases len - i,
        {
            if self.players[i].is_none() {
                slot = Some(i);
                proof {
                    lemma_first_none_found(self.players@, 0, i as int);
                }
            }
            i += 1;
        }
        let idx: usize;
        match slot {
            Some(s_idx) => {
                idx = s_idx;
                self.players.set(s_idx, Some(player));
                proof {
                    lemma_num_some_update(
                        old(self).players@,
                        s_idx as int,
                        Some(player),
                    );
                }
            },
            None => {
                proof {
                    lemma_first_none_none(self.players@, 0);
                }
                idx = len;
                self.players.push(Some(player));
                proof {
                    lemma_num_some_push(old(self).players@, Some(player));
                }
            },
        }
        self.id_map.push((id, idx));
        self.player_count = self.player_count + 1;
        let avail = if self.player_count >= self.room_config.max_player_count as usize {
            Some(
                UpdateRoomMatchAvailability {
                    code: self.code,
                    availability: Availability::Unavailable(RoomUnavailablityReason::Full),
                },
            )
        } else {
            None
        };
        proof {
            self.lemma_add_player_wf(*old(self), id, idx, player);
        }
        (Ok(self.code), avail)
    }

    /// Re-establishes the membership invariant and the membership facts
    /// after one admission.
    proof fn lemma_add_player_wf(self, o: Room, id: TransientId, idx: usize, player: PlayerInRoom)
        requires
            o.wf(),
            o.game is None,
            self.game is None,
            !o.has_member(id),
            player == (PlayerInRoom { addr: player.addr, transient_id: id }),
            idx == spec_join_index(o.players@),
            idx <= o.players@.len(),
            self.players@ == if (idx as int) < o.players@.len() {
                o.players@.update(idx as int, Some(player))
            } else {
                o.players@.push(Some(player))
            },
            self.id_map@ == o.id_map@.push((id, idx)),
            self.player_count == o.player_count + 1,
            (idx as int) < o.players@.len() ==> o.players@[idx as int] is None,
            self.player_count == num_some(self.players@),
        ensures
            self.wf(),
            self.has_member(id),
            self.slot_of(id) == idx,
            forall|t: TransientId| self.has_member(t) <==> o.has_member(t) || t == id,
            forall|t: TransientId|
                t != id && o.has_member(t) ==> self.slot_of(t) == o.slot_of(t),
    {
        let olen = o.id_map@.len() as int;
        assert(self.id_map@[olen] == (id, idx));
        assert(forall|k: int| 0 <= k < olen ==> self.id_map@[k] == o.id_map@[k]);
        // no old entry carries the new key or points at the new seat
        assert forall|k: int| 0 <= k < olen implies (#[trigger] o.id_map@[k]).0 != id && o.id_map@[k].1 != idx by {
            assert(o.entry_wf(k));
            if o.id_map@[k].0 == id {
                assert(o.has_member(id));
            }
        }
        assert forall|k: int| 0 <= k < self.id_map@.len() implies #[trigger] self.entry_wf(k) by {
            if k < olen {
                assert(o.entry_wf(k));
                assert(o.id_map@[k].1 != idx);
                assert(self.players@[o.id_map@[k].1 as int] == o.players@[o.id_map@[k].1 as int]);
            } else {
                assert(self.players@[idx as int] == Some(player));
            }
        }
        assert forall|i: int|
            0 <= i < self.players@.len() && (#[trigger] self.players@[i]) is Some implies exists|
            k: int,
        |
            0 <= k < self.id_map@.len() && (#[trigger] self.id_map@[k]).0 == self.players@[
            i]->Some_0.transient_id && self.id_map@[k].1 as int == i by {
            if i == idx {
                assert(self.id_map@[olen].0 == self.players@[i]->Some_0.transient_id);
                assert(self.id_map@[olen].1 as int == i);
            } else {
                assert(self.players@[i] == o.players@[i]);
                let k = choose|k: int|
                    0 <= k < o.id_map@.len() && (#[trigger] o.id_map@[k]).0 == o.players@[
                    i]->Some_0.transient_id && o.id_map@[k].1 as int == i;
                assert(self.id_map@[k].0 == self.players@[i]->Some_0.transient_id);
                assert(self.id_map@[k].1 as int == i);
            }
        }
        assert(self.wf());
        assert(self.has_member(id));
        let kn = self.entry_of(id);
        assert(self.id_map@[kn].0 == id);
        assert(kn == olen);
        assert(self.slot_of(id) == idx);
        assert forall|t: TransientId| self.has_member(t) <==> o.has_member(t) || t == id by {
            if self.has_member(t) {
                let k = self.entry_of(t);
                assert(self.id_map@[k].0 == t);
                if k < olen {
                    assert(o.id_map@[k].0 == t);
                    assert(o.has_member(t));
                }
            }
            if o.has_member(t) {
                let k = o.entry_of(t);
                assert(self.id_map@[k].0 == t);
                assert(self.has_member(t));
            }
            if t == id {
                assert(self.has_member(t));
            }
        }
        assert forall|t: TransientId| t != id && o.has_member(t) implies self.slot_of(t) == o
            .slot_of(t) by {
            let ko = o.entry_of(t);
            assert(o.id_map@[ko].0 == t);
            assert(self.id_map@[ko].0 == t);
            assert(self.has_member(t));
            let kn2 = self.entry_of(t);
            assert(self.id_map@[kn2].0 == t);
            assert(kn2 != olen);
            assert(o.id_map@[kn2].0 == t);
            if kn2 != ko {
                assert(o.id_map@[kn2].0 != o.id_map@[ko].0);
            }
            assert(kn2 == ko);
        }
    }
}

impl Room {
    /// Evicts the member with the given transient id, if present. The seat
    /// is vacated; every other member keeps their seat index. The evicted
    /// session is told to clear its room, unless it asked to leave itself.
    /// Dropping below the member limit re-announces availability; removing
    /// the last member closes the room.
    pub fn handle_remove_player(&mut self, msg: RemovePlayer) -> (r: (
        Option<(SessionRef, RemoveReason)>,
        Option<UpdateRoomMatchAvailability>,
        Option<OnRoomClosed>,
    ))
        requires
            old(self).wf(),
        ensures
            final(self).wf(),
            final(self).code == old(self).code && final(self).leader == old(self).leader && final(self).room_config == old(self).room_config && final(self).game_config == old(self).game_config && final(self).game == old(self).game,
            !old(self).has_member(msg.transient_id) ==> *final(self) == *old(self) && r.0 is None
                && r.1 is None && r.2 is None,
            old(self).has_member(msg.transient_id) ==> ({
                let idx = old(self).slot_of(msg.transient_id);
                let addr = old(self).players@[idx]->Some_0.addr;
                &&& final(self).players@ == old(self).players@.update(
                    idx,
                    None::<PlayerInRoom>,
                )
                &&& final(self).player_count == old(self).player_count - 1
                &&& forall|t: TransientId|
                    final(self).has_member(t) <==> old(self).has_member(t) && t
                        != msg.transient_id
                &&& forall|t: TransientId|
                    t != msg.transient_id && old(self).has_member(t) ==> final(self).slot_of(t)
                        == old(self).slot_of(t)
                &&& r.0 == if msg.reason != RemoveReason::LeaveRequested {
                    Some((addr, msg.reason))
                } else {
                    None::<(SessionRef, RemoveReason)>
                }
                &&& r.1 == if old(self).player_count == old(self).room_config.max_player_count {
                    Some(
                        UpdateRoomMatchAvailability {
                            code: old(self).code,
                            availability: Availability::Available,
                        },
                    )
                } else {
                    None::<UpdateRoomMatchAvailability>
                }
                &&& r.2 == if old(self).player_count == 1 {
                    Some(OnRoomClosed(old(self).code))
                } else {
                    None::<OnRoomClosed>
                }
            }),
    {
        let k = match find_tid(&self.id_map, msg.transient_id) {
            None => {
                return (None, None, None);
            },
            Some(k) => k,
        };
        proof {
            assert(old(self).has_member(msg.transient_id));
            assert(old(self).entry_wf(k as int));
            let ko = old(self).entry_of(msg.transient_id);
            assert(old(self).id_map@[ko].0 == msg.transient_id);
            if ko != k as int {
                assert(old(self).id_map@[ko].0 != old(self).id_map@[k as int].0);
            }
            assert(old(self).slot_of(msg.transient_id) == old(self).id_map@[k as int].1 as int);
        }
        let idx = self.id_map[k].1;
        let addr = match &self.players[idx] {
            Some(p) => p.addr,
            None => 0,
        };
        let was_full = self.player_count == self.room_config.max_player_count as usize;
        let was_last = self.player_count == 1;
        self.players.set(idx, None);
        self.id_map.remove(k);
        self.player_count = self.player_count - 1;
        proof {
            lemma_num_some_update(old(self).players@, idx as int, None::<PlayerInRoom>);
            self.lemma_remove_player_wf(*old(self), msg.transient_id, k, idx);
        }
        let clear = match msg.reason {
            RemoveReason::LeaveRequested => None,
            reason => Some((addr, reason)),
        };
        let avail = if was_full {
            Some(
                UpdateRoomMatchAvailability {
                    code: self.code,
                    availability: Availability::Available,
                },
            )
        } else {
            None
        };
        let closed = if was_last {
            Some(OnRoomClosed(self.code))
        } else {
            None
        };
        (clear, avail, closed)
    }

    /// Re-establishes the membership invariant and the membership facts
    /// after one eviction.
    proof fn lemma_remove_player_wf(self, o: Room, t: TransientId, k: usize, idx: usize)
        requires
            o.wf(),
            self.game == o.game,
            (k as int) < o.id_map@.len(),
            o.id_map@[k as int] == (t, idx),
            self.players@ == o.players@.update(idx as int, None::<PlayerInRoom>),
            self.id_map@ == o.id_map@.remove(k as int),
            self.player_count == o.player_count - 1,
            self.player_count == num_some(self.players@),
        ensures
            self.wf(),
            forall|t2: TransientId| self.has_member(t2) <==> o.has_member(t2) && t2 != t,
            forall|t2: TransientId|
                t2 != t && o.has_member(t2) ==> self.slot_of(t2) == o.slot_of(t2),
    {
        let olen = o.id_map@.len() as int;
        o.id_map@.remove_ensures(k as int);
        assert(o.entry_wf(k as int));
        assert(idx < o.players@.len());
        // the old position of the entry now standing at position j
        let ghost back = |j: int| if j < k as int { j } else { j + 1 };
        assert forall|j: int| 0 <= j < self.id_map@.len() implies #[trigger] self.id_map@[j]
            == o.id_map@[back(j)] && back(j) != k as int && 0 <= back(j) < olen by {}
        // no surviving entry carries t or points at the vacated seat
        assert forall|j: int| 0 <= j < self.id_map@.len() implies (#[trigger] self.id_map@[j]).0
            != t && self.id_map@[j].1 != idx by {
            assert(o.id_map@[back(j)].0 != o.id_map@[k as int].0);
            assert(o.id_map@[back(j)].1 != o.id_map@[k as int].1);
        }
        assert forall|j: int| 0 <= j < self.id_map@.len() implies #[trigger] self.entry_wf(j) by {
            assert(o.entry_wf(back(j)));
            assert(self.players@[o.id_map@[back(j)].1 as int] == o.players@[o.id_map@[back(j)].1
                as int]);
        }
        assert forall|i: int|
            0 <= i < self.players@.len() && (#[trigger] self.players@[i]) is Some implies exists|
            j: int,
        |
            0 <= j < self.id_map@.len() && (#[trigger] self.id_map@[j]).0 == self.players@[
            i]->Some_0.transient_id && self.id_map@[j].1 as int == i by {
            assert(i != idx);
            assert(self.players@[i] == o.players@[i]);
            let j0 = choose|j0: int|
                0 <= j0 < o.id_map@.len() && (#[trigger] o.id_map@[j0]).0 == o.players@[
                i]->Some_0.transient_id && o.id_map@[j0].1 as int == i;
            assert(j0 != k as int);
            let j = if j0 < k as int {
                j0
            } else {
                j0 - 1
            };
            assert(self.id_map@[j] == o.id_map@[j0]);
            assert(self.id_map@[j].0 == self.players@[i]->Some_0.transient_id);
            assert(self.id_map@[j].1 as int == i);
        }
        if let Some(g) = self.game {
            assert forall|i: int|
                0 <= i < self.players@.len() && (#[trigger] self.players@[i]) is Some implies g
                .state.player_data@[i] is Some by {
                assert(self.players@[i] == o.players@[i]);
            }
        }
        assert(self.wf());
        assert forall|t2: TransientId| self.has_member(t2) <==> o.has_member(t2) && t2 != t by {
            if self.has_member(t2) {
                let j = self.entry_of(t2);
                assert(self.id_map@[j].0 == t2);
                assert(o.id_map@[back(j)].0 == t2);
                assert(o.has_member(t2));
            }
            if o.has_member(t2) && t2 != t {
                let j0 = o.entry_of(t2);
                assert(o.id_map@[j0].0 == t2);
                assert(j0 != k as int);
                let j = if j0 < k as int {
                    j0
                } else {
                    j0 - 1
                };
                assert(self.id_map@[j] == o.id_map@[j0]);
                assert(self.has_member(t2));
            }
        }
        assert forall|t2: TransientId| t2 != t && o.has_member(t2) implies self.slot_of(t2) == o
            .slot_of(t2) by {
            let j0 = o.entry_of(t2);
            assert(o.id_map@[j0].0 == t2);
            assert(j0 != k as int);
            let j = if j0 < k as int {
                j0
            } else {
                j0 - 1
            };
            assert(self.id_map@[j] == o.id_map@[j0]);
            assert(self.has_member(t2));
            let jn = self.entry_of(t2);
            assert(self.id_map@[jn].0 == t2);
            assert(o.id_map@[back(jn)].0 == t2);
            if back(jn) != j0 {
                assert(o.id_map@[back(jn)].0 != o.id_map@[j0].0);
            }
            assert(self.id_map@[jn].1 == o.id_map@[j0].1);
        }
    }
}

impl Room {
    /// Rewires the seat of `replacee` to the reconnecting session, keeping
    /// the seat index unchanged, and hands the new session the state it
    /// needs to restore its client (`now` is the caller's clock, in
    /// seconds). Silently does nothing when the replacee is unknown, as in
    /// the rare race with a concurrent eviction.
    pub fn handle_client_reconnection(&mut self, msg: ClientReconnection, now: u64) -> (r: Option<
        (SessionRef, RestoreState),
    >)
        requires
            old(self).wf(),
        ensures
            final(self).wf(),
            final(self).code == old(self).code && final(self).leader == old(self).leader && final(self).room_config == old(self).room_config && final(self).game_config == old(self).game_config && final(self).game == old(self).game,
            final(self).player_count == old(self).player_count,
            (!old(self).has_member(msg.replacee) || old(self).has_member(msg.replacer.0)) ==> (
            *final(self) == *old(self) && r is None),
            (old(self).has_member(msg.replacee) && !old(self).has_member(msg.replacer.0)) ==> ({
                let idx = old(self).slot_of(msg.replacee);
                &&& final(self).players@ == old(self).players@.update(
                    idx,
                    Some(PlayerInRoom { addr: msg.replacer.1, transient_id: msg.replacer.0 }),
                )
                &&& final(self).has_member(msg.replacer.0)
                &&& final(self).slot_of(msg.replacer.0) == idx
                &&& forall|t: TransientId|
                    final(self).has_member(t) <==> (old(self).has_member(t) && t != msg.replacee)
                        || t == msg.replacer.0
                &&& forall|t: TransientId|
                    t != msg.replacee && t != msg.replacer.0 && old(self).has_member(t) ==> final(self).slot_of(t) == old(self).slot_of(t)
                &&& r matches Some(rs) && rs.0 == msg.replacer.1 && rs.1.code == old(self).code
                    && rs.1.game == match old(self).game {
                    Some(g) => Some(crate::game::spec_snapshot(g, idx, now)),
                    None => None::<crate::game::SerializedState>,
                }
            }),
    {
        let replacee = msg.replacee;
        let (new_id, new_addr) = msg.replacer;
        let k = match find_tid(&self.id_map, replacee) {
            None => {
                return None;
            },
            Some(k) => k,
        };
        match find_tid(&self.id_map, new_id) {
            Some(_) => {
                return None;
            },
            None => {
            },
        }
        proof {
            assert(old(self).has_member(replacee));
            assert(!old(self).has_member(new_id));
            assert(old(self).entry_wf(k as int));
            let ko = old(self).entry_of(replacee);
            assert(old(self).id_map@[ko].0 == replacee);
            if ko != k as int {
                assert(old(self).id_map@[ko].0 != old(self).id_map@[k as int].0);
            }
            assert(old(self).slot_of(replacee) == old(self).id_map@[k as int].1 as int);
        }
        let idx = self.id_map[k].1;
        let restore_game = match &self.game {
            Some(g) => Some(g.get_state(idx, now)),
            None => None,
        };
        let player = PlayerInRoom { addr: new_addr, transient_id: new_id };
        self.players.set(idx, Some(player));
        self.id_map.set(k, (new_id, idx));
        proof {
            lemma_num_some_update(old(self).players@, idx as int, Some(player));
            self.lemma_reconnect_wf(*old(self), replacee, new_id, k, idx, player);
        }
        Some((new_addr, RestoreState { code: self.code, game: restore_game }))
    }

    /// Re-establishes the membership invariant and the membership facts
    /// after one seat rewiring.
    proof fn lemma_reconnect_wf(
        self,
        o: Room,
        replacee: TransientId,
        new_id: TransientId,
        k: usize,
        idx: usize,
        player: PlayerInRoom,
    )
        requires
            o.wf(),
            self.game == o.game,
            (k as int) < o.id_map@.len(),
            o.id_map@[k as int] == (replacee, idx),
            !o.has_member(new_id),
            player == (PlayerInRoom { addr: player.addr, transient_id: new_id }),
            self.players@ == o.players@.update(idx as int, Some(player)),
            self.id_map@ == o.id_map@.update(k as int, (new_id, idx)),
            self.player_count == o.player_count,
            self.player_count == num_some(self.players@),
        ensures
            self.wf(),
            self.has_member(new_id),
            self.slot_of(new_id) == idx,
            forall|t: TransientId|
                self.has_member(t) <==> (o.has_member(t) && t != replacee) || t == new_id,
            forall|t: TransientId|
                t != replacee && t != new_id && o.has_member(t) ==> self.slot_of(t) == o.slot_of(
                    t,
                ),
    {
        assert(o.entry_wf(k as int));
        assert(idx < o.players@.len());
        // every other entry keeps its key, and none carries the new key or
        // the replacee's
        assert forall|j: int| 0 <= j < self.id_map@.len() && j != k as int implies (
        #[trigger] self.id_map@[j]) == o.id_map@[j] && o.id_map@[j].0 != replacee && o.id_map@[j].0
            != new_id && o.id_map@[j].1 != idx by {
            assert(o.id_map@[j].0 != o.id_map@[k as int].0);
            assert(o.id_map@[j].1 != o.id_map@[k as int].1);
        }
        assert forall|j: int| 0 <= j < self.id_map@.len() implies #[trigger] self.entry_wf(j) by {
            if j == k as int {
                assert(self.players@[idx as int] == Some(player));
            } else {
                assert(o.entry_wf(j));
                assert(self.players@[o.id_map@[j].1 as int] == o.players@[o.id_map@[j].1 as int]);
            }
        }
        assert forall|i: int|
            0 <= i < self.players@.len() && (#[trigger] self.players@[i]) is Some implies exists|
            j: int,
        |
            0 <= j < self.id_map@.len() && (#[trigger] self.id_map@[j]).0 == self.players@[
            i]->Some_0.transient_id && self.id_map@[j].1 as int == i by {
            if i == idx as int {
                assert(self.id_map@[k as int].0 == self.players@[i]->Some_0.transient_id);
                assert(self.id_map@[k as int].1 as int == i);
            } else {
                assert(self.players@[i] == o.players@[i]);
                let j0 = choose|j0: int|
                    0 <= j0 < o.id_map@.len() && (#[trigger] o.id_map@[j0]).0 == o.players@[
                    i]->Some_0.transient_id && o.id_map@[j0].1 as int == i;
                assert(j0 != k as int);
                assert(self.id_map@[j0].0 == self.players@[i]->Some_0.transient_id);
                assert(self.id_map@[j0].1 as int == i);
            }
        }
        if let Some(g) = self.game {
            assert forall|i: int|
                0 <= i < self.players@.len() && (#[trigger] self.players@[i]) is Some implies g
                .state.player_data@[i] is Some by {
                if i != idx as int {
                    assert(self.players@[i] == o.players@[i]);
                } else {
                    assert(o.players@[i] is Some);
                }
            }
        }
        assert(self.wf());
        assert(self.id_map@[k as int].0 == new_id);
        assert(self.has_member(new_id));
        let kn = self.entry_of(new_id);
        assert(self.id_map@[kn].0 == new_id);
        assert(kn == k as int);
        assert(self.slot_of(new_id) == idx);
        assert forall|t: TransientId|
            self.has_member(t) <==> (o.has_member(t) && t != replacee) || t == new_id by {
            if self.has_member(t) {
                let j = self.entry_of(t);
                assert(self.id_map@[j].0 == t);
                if j != k as int {
                    assert(o.id_map@[j].0 == t);
                    assert(o.has_member(t));
                    assert(t != replacee);
                }
            }
            if o.has_member(t) && t != replacee {
                let j0 = o.entry_of(t);
                assert(o.id_map@[j0].0 == t);
                if j0 != k as int {
                    assert(self.id_map@[j0].0 == t);
                    assert(self.has_member(t));
                }
            }
            if t == new_id {
                assert(self.has_member(t));
            }
        }
        assert forall|t: TransientId|
            t != replacee && t != new_id && o.has_member(t) implies self.slot_of(t) == o.slot_of(
            t,
        ) by {
            let j0 = o.entry_of(t);
            assert(o.id_map@[j0].0 == t);
            assert(j0 != k as int);
            assert(self.id_map@[j0].0 == t);
            assert(self.has_member(t));
            let jn = self.entry_of(t);
            assert(self.id_map@[jn].0 == t);
            assert(jn != k as int);
            assert(o.id_map@[jn].0 == t);
            if jn != j0 {
                assert(o.id_map@[jn].0 != o.id_map@[j0].0);
            }
        }
    }

    /// Starts the game, when allowed: in a public room any member may
    /// start, in a private room only the leader. On success the room
    /// reports itself unavailable and announces the start to every member.
    pub fn handle_request_start(&mut self, msg: RequestStart) -> (r: (
        Result<(), StartGameError>,
        Option<UpdateRoomMatchAvailability>,
        Vec<(SessionRef, OutgoingMessage)>,
    ))
        requires
            old(self).wf(),
        ensures
            final(self).wf(),
            final(self).players@ == old(self).players@ && final(self).id_map@ == old(self).id_map@
                && final(self).player_count == old(self).player_count,
            final(self).code == old(self).code && final(self).leader == old(self).leader && final(self).room_config == old(self).room_config && final(self).game_config == old(self).game_config,
            old(self).game is Some ==> r.0 == Err::<(), StartGameError>(
                StartGameError::GameAlreadyRunning,
            ) && *final(self) == *old(self) && r.1 is None && r.2@.len() == 0,
            old(self).game is None && !old(self).room_config.public && msg.0 != old(self).leader
                ==> r.0 == Err::<(), StartGameError>(StartGameError::NotLeader) && *final(self)
                == *old(self) && r.1 is None && r.2@.len() == 0,
            old(self).game is None && (old(self).room_config.public || msg.0 == old(self).leader)
                ==> ({
                &&& r.0 == Ok::<(), StartGameError>(())
                &&& final(self).game matches Some(g) && fresh_game(g, old(self).players@)
                &&& r.1 == Some(
                    UpdateRoomMatchAvailability {
                        code: old(self).code,
                        availability: Availability::Unavailable(
                            RoomUnavailablityReason::GameStarted,
                        ),
                    },
                )
                &&& r.2@ == fanout_of(old(self).players@, OutgoingMessage::GameStarted)
            }),
    {
        if self.game.is_some() {
            return (Err(StartGameError::GameAlreadyRunning), None, Vec::new());
        }
        if !self.room_config.public && msg.0 != self.leader {
            return (Err(StartGameError::NotLeader), None, Vec::new());
        }
        let game = Game::new(&self.players, self.game_config.mode);
        self.game = Some(game);
        let avail = UpdateRoomMatchAvailability {
            code: self.code,
            availability: Availability::Unavailable(RoomUnavailablityReason::GameStarted),
        };
        let notifications = self.notify_clients(OutgoingMessage::GameStarted, None);
        proof {
            assert forall|k: int| 0 <= k < self.id_map@.len() implies #[trigger] self.entry_wf(
                k,
            ) by {
                assert(old(self).entry_wf(k));
            }
            let g = self.game->Some_0;
            assert forall|i: int|
                0 <= i < self.players@.len() && (#[trigger] self.players@[i]) is Some implies g
                .state.player_data@[i] is Some by {
                assert(old(self).players@[i] == self.players@[i]);
            }
            assert(self.wf());
        }
        (Ok(()), Some(avail), notifications)
    }

    /// Shuts the room down: every member is told the room closed, and the
    /// manager is told to recycle the code. The caller drops the room.
    pub fn handle_close_room(&self, msg: CloseRoom) -> (r: (
        Vec<(SessionRef, OutgoingMessage)>,
        OnRoomClosed,
    ))
        ensures
            r.0@ == self.spec_fanout(OutgoingMessage::RemoveFromRoom(RemoveReason::RoomClosed)),
            r.1 == OnRoomClosed(self.code),
    {
        let _ = msg;
        (
            self.notify_clients(OutgoingMessage::RemoveFromRoom(RemoveReason::RoomClosed), None),
            OnRoomClosed(self.code),
        )
    }
}

/// Finds the position of `t` in the seat map vector.
fn find_tid(m: &Vec<(TransientId, usize)>, t: TransientId) -> (r: Option<usize>)
    ensures
        match r {
            Some(k) => k < m@.len() && m@[k as int].0 == t,
            None => forall|k: int| 0 <= k < m@.len() ==> (#[trigger] m@[k]).0 != t,
        },
{
    let mut k: usize = 0;
    let len = m.len();
    while k < len
        invariant
            k <= len,
            len == m@.len(),
            forall|j: int| 0 <= j < k ==> (#[trigger] m@[j]).0 != t,
        decreases len - k,
    {
        if m[k].0 == t {
            return Some(k);
        }
        k += 1;
    }
    None
}

} // verus!
