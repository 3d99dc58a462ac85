use crate::codes::{string_to_code, RoomCode, ROOM_CODE_LENGTH};
use crate::game::SerializedState;
use crate::message::{IncomingMessage, OutgoingMessage, Outcome, RemoveReason};
use crate::room::JoinRoomError;
use crate::room_manager::JoinRoom;
use crate::{SessionRef, TransientId, UserId};
use vstd::prelude::*;

verus! {

use vstd::string::StringSliceAdditionalSpecFns;
use vstd::utf8::encode_utf8;

/// Seconds after which a silent client counts as stale.
pub const HB_TIME_LIMIT: u64 = 2;

/// Seconds between two staleness checks.
pub const HB_CHECK_INTERVAL: u64 = 5;

/// Seconds a stale client is given to reconnect before it is torn down.
pub const RECONNECTION_TIME_LIMIT: u64 = 15;

/// Sent to a reconnecting session by its room to seed client-side state.
pub struct RestoreState {
    pub code: RoomCode,
    pub game: Option<SerializedState>,
}

/// Serialize and emit one frame to the client. Side effect only.
pub struct SerializedMessage(pub OutgoingMessage);

/// Unconditionally terminate the session, cancelling any reconnection
/// timer. Sent by the manager to retire a superseded instance; it never
/// causes an unregistration, since the replacement owns the record now.
#[derive(Clone, Copy, PartialEq, Eq, Structural, Debug)]
pub struct Stop;

/// The room has evicted this player; drop the room reference and tell the
/// client why.
#[derive(Clone, Copy, PartialEq, Eq, Structural, Debug)]
pub struct ClearRoom {
    pub reason: RemoveReason,
}

/// One client stream's server-side state: its identity once logged in, the
/// transient id of the stream, the heartbeat clock, the reconnection
/// window's deadline while one is open, and the room the client sits in.
/// All times are seconds on the embedding process's clock.
pub struct Session {
    pub addr: SessionRef,
    pub id: Option<UserId>,
    pub transient_id: Option<TransientId>,
    pub hb: u64,
    pub reconnection_deadline: Option<u64>,
    pub room: Option<RoomCode>,
}

/// What handling one inbound client frame asks the embedding process to do.
pub struct HandleOutcome {
    /// Register this user with the session manager, replying with a
    /// transient id for [`Session::on_registered`].
    pub register: Option<UserId>,
    /// Unregister this stream from the session manager.
    pub unregister: Option<(TransientId, RemoveReason)>,
    /// Ask the room manager for a room; its reply goes to
    /// [`Session::on_join_reply`].
    pub join: Option<JoinRoom>,
    /// Send this frame to the client.
    pub frame: Option<OutgoingMessage>,
    /// Terminate the session once the above are delivered.
    pub stop: bool,
}

/// How the session left by [`Session::on_clear_room`] relates to the one it
/// was called on: the room reference is dropped, the client is told why in
/// a frame, and the manager's record is updated only when a room reference
/// was actually held, so repeated clears never duplicate the update.
pub open spec fn clear_room_step(
    pre: Session,
    post: Session,
    reason: RemoveReason,
    frame: OutgoingMessage,
    update: Option<(TransientId, Option<RoomCode>)>,
) -> bool {
    &&& post == (Session { room: None::<RoomCode>, ..pre })
    &&& frame == OutgoingMessage::RemoveFromRoom(reason)
    &&& update == (if pre.room is Some {
        Some((pre.transient_id->Some_0, None::<RoomCode>))
    } else {
        None::<(TransientId, Option<RoomCode>)>
    })
}

impl Session {
    /// A fresh session for a stream that opened at time `now`, known to the
    /// embedding process under `addr`.
    pub fn new(addr: SessionRef, now: u64) -> (r: Session)
        ensures
            r == (Session {
                addr,
                id: None::<UserId>,
                transient_id: None::<TransientId>,
                hb: now,
                reconnection_deadline: None::<u64>,
                room: None::<RoomCode>,
            }),
    {
        Session { addr, id: None, transient_id: None, hb: now, reconnection_deadline: None, room: None }
    }

    /// True once a login has been answered with a transient id.
    pub open spec fn registered(self) -> bool {
        self.transient_id is Some
    }

    /// Handles one frame decoded from the client's stream.
    ///
    /// A first login registers the user; a second one is dropped. A logout
    /// clears the identity, unregisters the stream and stops the session.
    /// A join request with a code of any length other than
    /// `ROOM_CODE_LENGTH` is answered directly with `InvalidCode`, and the
    /// room manager is not contacted; otherwise the request is forwarded.
    pub fn handle_message(&mut self, msg: IncomingMessage) -> (r: HandleOutcome)
        requires
            msg is JoinRoom ==> old(self).transient_id is Some,
        ensures
            final(self).addr == old(self).addr && final(self).hb == old(self).hb && final(self).reconnection_deadline == old(self).reconnection_deadline && final(self).room == old(self).room,
            match msg {
                IncomingMessage::Login(user) => {
                    &&& r.unregister is None && r.join is None && r.frame is None && !r.stop
                    &&& if old(self).id is Some {
                        r.register is None && *final(self) == *old(self)
                    } else {
                        r.register == Some(user) && final(self).id == Some(user) && final(self).transient_id == old(self).transient_id
                    }
                },
                IncomingMessage::Logout => {
                    &&& r.register is None && r.join is None && r.frame is None && r.stop
                    &&& final(self).id is None && final(self).transient_id is None
                    &&& r.unregister == (if old(self).transient_id is Some {
                        Some((old(self).transient_id->Some_0, RemoveReason::Logout))
                    } else {
                        None::<(TransientId, RemoveReason)>
                    })
                },
                IncomingMessage::JoinRoom(code) => {
                    &&& r.register is None && r.unregister is None && !r.stop
                    &&& *final(self) == *old(self)
                    &&& match code {
                        None => r.join matches Some(j) && j.session == (
                            old(self).transient_id->Some_0,
                            old(self).addr,
                        ) && j.code is None && r.frame is None,
                        Some(text) => {
                            if encode_utf8(text@).len() == ROOM_CODE_LENGTH {
                                &&& r.join matches Some(j) && j.session == (
                                    old(self).transient_id->Some_0,
                                    old(self).addr,
                                ) && (j.code matches Some(c) && c.bytes() == encode_utf8(text@))
                                &&& r.frame is None
                            } else {
                                &&& r.join is None
                                &&& r.frame == Some(
                                    OutgoingMessage::JoinRoomResult(
                                        Outcome::Error(JoinRoomError::InvalidCode),
                                    ),
                                )
                            }
                        },
                    }
                },
            },
    {
        match msg {
            IncomingMessage::Login(user) => {
                if self.id.is_some() {
                    HandleOutcome {
                        register: None,
                        unregister: None,
                        join: None,
                        frame: None,
                        stop: false,
                    }
                } else {
                    let announced = user.clone();
                    self.id = Some(user);
                    HandleOutcome {
                        register: Some(announced),
                        unregister: None,
                        join: None,
                        frame: None,
                        stop: false,
                    }
                }
            },
            IncomingMessage::Logout => {
                let unregister = match self.transient_id.take() {
                    Some(tid) => Some((tid, RemoveReason::Logout)),
                    None => None,
                };
                self.id = None;
                HandleOutcome { register: None, unregister, join: None, frame: None, stop: true }
            },
            IncomingMessage::JoinRoom(code) => {
                let tid = match self.transient_id {
                    Some(tid) => tid,
                    None => 0,
                };
                match code {
                    None => HandleOutcome {
                        register: None,
                        unregister: None,
                        join: Some(JoinRoom { session: (tid, self.addr), code: None }),
                        frame: None,
                        stop: false,
                    },
                    Some(text) => {
                        match string_to_code(text.as_str()) {
                            Ok(parsed) => HandleOutcome {
                                register: None,
                                unregister: None,
                                join: Some(
                                    JoinRoom { session: (tid, self.addr), code: Some(parsed) },
                                ),
                                frame: None,
                                stop: false,
                            },
                            Err(_) => HandleOutcome {
                                register: None,
                                unregister: None,
                                join: None,
                                frame: Some(
                                    OutgoingMessage::JoinRoomResult(
                                        Outcome::Error(JoinRoomError::InvalidCode),
                                    ),
                                ),
                                stop: false,
                            },
                        }
                    },
                }
            },
        }
    }

    /// Stores the transient id the manager answered a login with.
    pub fn on_registered(&mut self, transient_id: TransientId)
        ensures
            *final(self) == (Session { transient_id: Some(transient_id), ..*old(self) }),
    {
        self.transient_id = Some(transient_id);
    }

    /// Handles the room manager's reply to a join request: on success the
    /// room is recorded, the manager is told where this session now sits,
    /// and the client gets the room's code; on failure the client gets the
    /// error. Requires a registered session, as only those can have asked.
    pub fn on_join_reply(&mut self, reply: Result<crate::room_manager::RoomPair, JoinRoomError>)
        -> (r: (Option<(TransientId, Option<RoomCode>)>, OutgoingMessage))
        requires
            old(self).transient_id is Some,
            reply matches Ok(p) ==> p.code.wf(),
        ensures
            final(self).addr == old(self).addr && final(self).id == old(self).id && final(self).transient_id == old(self).transient_id && final(self).hb == old(self).hb && final(self).reconnection_deadline == old(self).reconnection_deadline,
            match reply {
                Ok(p) => {
                    &&& final(self).room == Some(p.code)
                    &&& r.0 == Some((old(self).transient_id->Some_0, Some(p.code)))
                    &&& r.1 matches OutgoingMessage::JoinRoomResult(Outcome::Success(text))
                        && text@.len() == 4 && (forall|i: int|
                        0 <= i < 4 ==> text@[i] == p.code.bytes()[i] as char)
                },
                Err(e) => {
                    &&& final(self).room == old(self).room
                    &&& r.0 is None
                    &&& r.1 == OutgoingMessage::JoinRoomResult(
                        Outcome::Error::<String, JoinRoomError>(e),
                    )
                },
            },
    {
        let tid = match self.transient_id {
            Some(tid) => tid,
            None => 0,
        };
        match reply {
            Ok(pair) => {
                self.room = Some(pair.code);
                let text = crate::codes::code_to_string(&pair.code);
                (
                    Some((tid, Some(pair.code))),
                    OutgoingMessage::JoinRoomResult(Outcome::Success(text)),
                )
            },
            Err(e) => (None, OutgoingMessage::JoinRoomResult(Outcome::Error(e))),
        }
    }

    /// Handles the room's notice that this player was evicted: forgets the
    /// room, tells the client why, and updates the manager's record — the
    /// latter only if a room reference was still held, so a repeated clear
    /// emits another frame but changes nothing else.
    pub fn on_clear_room(&mut self, msg: ClearRoom) -> (r: (
        OutgoingMessage,
        Option<(TransientId, Option<RoomCode>)>,
    ))
        requires
            old(self).transient_id is Some,
        ensures
            clear_room_step(*old(self), *final(self), msg.reason, r.0, r.1),
    {
        let tid = match self.transient_id {
            Some(tid) => tid,
            None => 0,
        };
        let update = match self.room.take() {
            Some(_) => Some((tid, None)),
            None => None,
        };
        (OutgoingMessage::RemoveFromRoom(msg.reason), update)
    }

    /// Handles the manager's order to stop: any open reconnection window
    /// closes, and the identity is dropped without unregistering — the
    /// replacement session owns the record now.
    pub fn on_stop(&mut self, msg: Stop)
        ensures
            *final(self) == (Session {
                id: None::<UserId>,
                transient_id: None::<TransientId>,
                reconnection_deadline: None::<u64>,
                ..*old(self)
            }),
    {
        let _ = msg;
        self.id = None;
        self.transient_id = None;
        self.reconnection_deadline = None;
    }

    /// The actor's stop hook: a session that still holds a transient id at
    /// teardown was not unregistered in an orderly way, so the manager is
    /// told the stream disconnected. After [`Session::on_stop`] this emits
    /// nothing.
    pub fn on_stopped(&mut self) -> (r: Option<(TransientId, RemoveReason)>)
        ensures
            final(self).transient_id is None,
            final(self).id == old(self).id && final(self).room == old(self).room && final(self).addr == old(self).addr,
            r == (if old(self).transient_id is Some {
                Some((old(self).transient_id->Some_0, RemoveReason::Disconnected))
            } else {
                None::<(TransientId, RemoveReason)>
            }),
    {
        match self.transient_id.take() {
            Some(tid) => Some((tid, RemoveReason::Disconnected)),
            None => None,
        }
    }

    /// A pong or data frame arrived at time `now`: the client is alive, so
    /// any open reconnection window closes.
    pub fn on_frame(&mut self, now: u64)
        ensures
            *final(self) == (Session {
                hb: now,
                reconnection_deadline: None::<u64>,
                ..*old(self)
            }),
    {
        self.hb = now;
        self.reconnection_deadline = None;
    }

    /// The periodic staleness check at time `now`: a client silent for
    /// `HB_TIME_LIMIT` seconds gets a reconnection window of
    /// `RECONNECTION_TIME_LIMIT` seconds, measured from the moment the
    /// staleness is detected.
    pub fn on_tick(&mut self, now: u64)
        requires
            now <= u64::MAX - RECONNECTION_TIME_LIMIT,
        ensures
            final(self).hb == old(self).hb && final(self).id == old(self).id && final(self).transient_id == old(self).transient_id && final(self).room == old(self).room
                && final(self).addr == old(self).addr,
            final(self).reconnection_deadline == (if old(self).reconnection_deadline is None && now
                >= old(self).hb && now - old(self).hb >= HB_TIME_LIMIT {
                Some((now + RECONNECTION_TIME_LIMIT) as u64)
            } else {
                old(self).reconnection_deadline
            }),
    {
        if self.reconnection_deadline.is_none() && now >= self.hb && now - self.hb
            >= HB_TIME_LIMIT {
            self.reconnection_deadline = Some(now + RECONNECTION_TIME_LIMIT);
        }
    }

    /// True when the reconnection window has run out at time `now`: the
    /// embedding process then stops the session, and
    /// [`Session::on_stopped`] reports the disconnection.
    pub fn reconnection_expired(&self, now: u64) -> (r: bool)
        ensures
            r == (self.reconnection_deadline matches Some(d) && now >= d),
    {
        match self.reconnection_deadline {
            Some(d) => now >= d,
            None => false,
        }
    }

    /// Forwards an already-built frame to the client.
    pub fn on_serialized_message(&self, msg: SerializedMessage) -> (r: OutgoingMessage)
        ensures
            r == msg.0,
    {
        msg.0
    }
}

/// Clearing a room twice tells the client twice but changes the session
/// only once: the second clear leaves the state untouched and sends the
/// manager no second record update.
pub proof fn lemma_clear_room_idempotent(
    s0: Session,
    s1: Session,
    s2: Session,
    reason1: RemoveReason,
    reason2: RemoveReason,
    frame1: OutgoingMessage,
    frame2: OutgoingMessage,
    update1: Option<(TransientId, Option<RoomCode>)>,
    update2: Option<(TransientId, Option<RoomCode>)>,
)
    requires
        clear_room_step(s0, s1, reason1, frame1, update1),
        clear_room_step(s1, s2, reason2, frame2, update2),
    ensures
        s2 == s1,
        frame2 == OutgoingMessage::RemoveFromRoom(reason2),
        update2 is None,
{
}

} // verus!
