//! End-to-end flows, with the test driving the message routing the way the
//! embedding process would: effects returned by one component are handed to
//! their recipient in order.

use lobby_core::codes::code_to_string;
use lobby_core::message::{IncomingMessage, Outcome, OutgoingMessage, RemoveReason};
use lobby_core::room::{JoinRoomError, RequestStart, StartGameError};
use lobby_core::room_manager::{JoinDirective, JoinRoom, RoomConfig, RoomManager};
use lobby_core::session::{Session, Stop, HB_TIME_LIMIT};
use lobby_core::session_manager::SessionManager;

/// Logs a fresh stream in and returns its session, ready to act.
fn login(
    manager: &mut SessionManager,
    addr: u64,
    user: &str,
    now: u64,
) -> Session {
    let mut session = Session::new(addr, now);
    let out = session.handle_message(IncomingMessage::Login(String::from(user)));
    let user_id = out.register.expect("first login registers");
    let (tid, reconnect, stop) = manager.register(addr, user_id);
    assert!(reconnect.is_none() && stop.is_none());
    session.on_registered(tid);
    session
}

#[test]
fn create_join_and_leader_start() {
    let mut sessions = SessionManager::new();
    let mut rooms = RoomManager::new();
    let mut a = login(&mut sessions, 101, "alice", 0);

    // no pool entries: matchmaking creates a room with alice as leader
    let out = a.handle_message(IncomingMessage::JoinRoom(None));
    let request = out.join.expect("matchmaking request");
    let (pair, mut room) = match rooms.handle_join_room(request) {
        JoinDirective::Created { pair, room } => (pair, room),
        _ => panic!("an empty queue creates a room"),
    };
    assert_eq!(room.leader, a.transient_id.unwrap());
    let (update, frame) = a.on_join_reply(Ok(pair));
    let (tid, joined) = update.expect("a successful join updates the record");
    sessions.update_session_room_info(tid, joined);
    assert!(matches!(frame, OutgoingMessage::JoinRoomResult(Outcome::Success(_))));

    // the leader starts; the start is fanned out
    let (started, avail, frames) = room.handle_request_start(RequestStart(tid));
    assert!(started.is_ok());
    rooms.handle_update_room_match_availability(avail.unwrap());
    assert_eq!(frames.len(), 1);
    assert_eq!(frames[0].0, 101);
    assert!(matches!(frames[0].1, OutgoingMessage::GameStarted));
}

#[test]
fn private_code_flow() {
    let mut sessions = SessionManager::new();
    let mut rooms = RoomManager::new();
    let mut a = login(&mut sessions, 101, "alice", 0);
    let a_tid = a.transient_id.unwrap();

    // alice opens a private room and learns its code
    let (pair, mut room) = rooms.create(
        (a_tid, 101),
        RoomConfig { public: false, max_player_count: 6 },
    );
    a.on_join_reply(Ok(pair));
    let code_text = code_to_string(&pair.code);

    // bob joins by that code
    let mut b = login(&mut sessions, 102, "bob", 0);
    let b_tid = b.transient_id.unwrap();
    let out = b.handle_message(IncomingMessage::JoinRoom(Some(code_text.clone())));
    let request = out.join.expect("a four-character code is forwarded");
    let add = match rooms.handle_join_room(request) {
        JoinDirective::Forward { code, add } => {
            assert_eq!(code, pair.code);
            add
        },
        _ => panic!("a reserved joinable room forwards the admission"),
    };
    let (admitted, _) = room.handle_add_player(add);
    assert_eq!(admitted.unwrap(), pair.code);
    let (_, frame) = b.on_join_reply(Ok(pair));
    match frame {
        OutgoingMessage::JoinRoomResult(Outcome::Success(text)) => assert_eq!(text, code_text),
        _ => panic!("bob hears the acquired code"),
    }

    // bob may not start the private room
    let (refused, _, _) = room.handle_request_start(RequestStart(b_tid));
    assert_eq!(refused.unwrap_err(), StartGameError::NotLeader);
}

#[test]
fn third_join_on_a_two_seat_room_is_refused() {
    let mut sessions = SessionManager::new();
    let mut rooms = RoomManager::new();
    let a = login(&mut sessions, 101, "alice", 0);
    let (pair, mut room) = rooms.create(
        (a.transient_id.unwrap(), 101),
        RoomConfig { public: true, max_player_count: 2 },
    );

    // bob fills the second seat; the room reports itself full
    let b = login(&mut sessions, 102, "bob", 0);
    let add = match rooms.handle_join_room(JoinRoom {
        session: (b.transient_id.unwrap(), 102),
        code: Some(pair.code),
    }) {
        JoinDirective::Forward { add, .. } => add,
        _ => panic!("joinable room forwards"),
    };
    let (admitted, full_notice) = room.handle_add_player(add);
    assert!(admitted.is_ok());
    rooms.handle_update_room_match_availability(full_notice.expect("room filled up"));

    // carol's join short-circuits at the manager
    let mut c = login(&mut sessions, 103, "carol", 0);
    let out = c.handle_message(IncomingMessage::JoinRoom(Some(code_to_string(&pair.code))));
    let directive = rooms.handle_join_room(out.join.unwrap());
    match directive {
        JoinDirective::Reject(e) => {
            assert_eq!(e, JoinRoomError::RoomFull);
            let (_, frame) = c.on_join_reply(Err(e));
            assert!(matches!(
                frame,
                OutgoingMessage::JoinRoomResult(Outcome::Error(JoinRoomError::RoomFull))
            ));
        },
        _ => panic!("a full room refuses at the manager"),
    }
}

#[test]
fn reconnection_within_the_window_keeps_the_seat() {
    let mut sessions = SessionManager::new();
    let mut rooms = RoomManager::new();
    let mut a = login(&mut sessions, 101, "alice", 0);
    let old_tid = a.transient_id.unwrap();
    let (pair, mut room) = rooms.create(
        (old_tid, 101),
        RoomConfig { public: false, max_player_count: 6 },
    );
    let (update, _) = a.on_join_reply(Ok(pair));
    let (tid, joined) = update.unwrap();
    sessions.update_session_room_info(tid, joined);
    let seat_before = room.id_map.iter().find(|e| e.0 == old_tid).unwrap().1;

    // alice's stream goes silent; a window opens at second 12
    a.on_frame(10);
    a.on_tick(10 + HB_TIME_LIMIT);
    assert!(!a.reconnection_expired(20));

    // a new stream logs in as alice within 15 seconds
    let mut a2 = Session::new(201, 20);
    let out = a2.handle_message(IncomingMessage::Login(String::from("alice")));
    let (new_tid, reconnect, stop) = sessions.register(201, out.register.unwrap());
    a2.on_registered(new_tid);

    // the room is rewired first, then the old session is stopped
    let (room_code, handoff) = reconnect.expect("alice was in a room");
    assert_eq!(room_code, pair.code);
    let restore = room.handle_client_reconnection(handoff, 20);
    let (addr, state) = restore.expect("the seat is rewired");
    assert_eq!(addr, 201);
    assert_eq!(state.code, pair.code);
    assert_eq!(stop, Some(101));
    a.on_stop(Stop);
    assert!(a.on_stopped().is_none(), "the retired stream unregisters nothing");

    // the seat index is unchanged, and nobody was evicted
    let seat_after = room.id_map.iter().find(|e| e.0 == new_tid).unwrap().1;
    assert_eq!(seat_before, seat_after);
    assert_eq!(room.player_count, 1);
}

#[test]
fn reconnection_after_the_window_finds_the_room_gone() {
    let mut sessions = SessionManager::new();
    let mut rooms = RoomManager::new();
    let mut a = login(&mut sessions, 101, "alice", 0);
    let (pair, mut room) = rooms.create(
        (a.transient_id.unwrap(), 101),
        RoomConfig { public: false, max_player_count: 6 },
    );
    let (update, _) = a.on_join_reply(Ok(pair));
    let (tid, joined) = update.unwrap();
    sessions.update_session_room_info(tid, joined);

    // the stream goes silent at second 10; the terminator fires at 12 + 15
    a.on_frame(10);
    a.on_tick(10 + HB_TIME_LIMIT);
    let deadline = a.reconnection_deadline.unwrap();
    assert!(a.reconnection_expired(deadline));
    let unregister = a.on_stopped().expect("teardown reports the disconnection");
    assert_eq!(unregister.1, RemoveReason::Disconnected);
    let evict = sessions.remove_session(unregister.0, unregister.1);
    let (room_code, removal) = evict.expect("alice still sat in the room");
    assert_eq!(room_code, pair.code);
    let (clear, _, closed) = room.handle_remove_player(removal);
    // the frame would go to the dead stream and is discarded by the caller
    assert!(clear.is_some());
    let closed = closed.expect("the only seat emptied, the room closes");
    rooms.handle_on_room_closed(closed);

    // the late login is a fresh registration, and the old code is unknown
    let mut a2 = Session::new(201, 30);
    let out = a2.handle_message(IncomingMessage::Login(String::from("alice")));
    let (new_tid, reconnect, _) = sessions.register(201, out.register.unwrap());
    assert!(reconnect.is_none(), "no room is left to rewire");
    a2.on_registered(new_tid);
    let join = a2.handle_message(IncomingMessage::JoinRoom(Some(code_to_string(&pair.code))));
    let directive = rooms.handle_join_room(join.join.unwrap());
    assert!(matches!(
        directive,
        JoinDirective::Reject(JoinRoomError::RoomNotFound)
    ));
}

#[test]
fn invalid_code_never_reaches_the_manager() {
    let mut sessions = SessionManager::new();
    let mut a = login(&mut sessions, 101, "alice", 0);
    let out = a.handle_message(IncomingMessage::JoinRoom(Some(String::from("ABC"))));
    assert!(out.join.is_none());
    assert!(matches!(
        out.frame,
        Some(OutgoingMessage::JoinRoomResult(Outcome::Error(JoinRoomError::InvalidCode)))
    ));
}

#[test]
fn registered_sessions_match_their_manager_record() {
    let mut sessions = SessionManager::new();
    for (addr, name) in [(101u64, "alice"), (102, "bob"), (103, "carol")] {
        let s = login(&mut sessions, addr, name, 0);
        let record = &sessions.sessions.iter().find(|e| e.0 == name).unwrap().1;
        assert_eq!(record.session_addr, s.addr);
        assert_eq!(Some(record.transient_id), s.transient_id);
    }
}

#[test]
fn full_then_available_reopens_only_once_the_flag_is_cleared() {
    // a two-seat room fills; the manager pulls it from the queue and flags
    // it full; the room's later availability report alone does not reopen
    // it while the flag stands
    let mut rooms = RoomManager::new();
    let (pair, mut room) = rooms.create((1, 101), RoomConfig { public: true, max_player_count: 2 });
    rooms.handle_update_room_match_availability(
        lobby_core::room_manager::UpdateRoomMatchAvailability {
            code: pair.code,
            availability: lobby_core::room_manager::Availability::Available,
        },
    );
    let (_, full) = room.handle_add_player(lobby_core::room::AddPlayer((2, 102)));
    rooms.handle_update_room_match_availability(full.unwrap());
    assert!(rooms.reserved.iter().any(|e| e.0 == pair.code && e.1.full));

    let (_, avail, _) = room.handle_remove_player(lobby_core::room::RemovePlayer {
        transient_id: 2,
        reason: RemoveReason::LeaveRequested,
    });
    let avail = avail.unwrap();
    assert_eq!(avail.availability, lobby_core::room_manager::Availability::Available);
    rooms.handle_update_room_match_availability(avail);
    // the flag was never cleared, so the room stays out of the queue
    assert!(rooms.reserved.iter().any(|e| e.0 == pair.code));
    assert!(!rooms.open.iter().any(|e| e.0 == pair.code));

    // once the flag is cleared, the same report reopens the room
    for entry in rooms.reserved.iter_mut() {
        if entry.0 == pair.code {
            entry.1.full = false;
        }
    }
    rooms.handle_update_room_match_availability(
        lobby_core::room_manager::UpdateRoomMatchAvailability {
            code: pair.code,
            availability: lobby_core::room_manager::Availability::Available,
        },
    );
    assert!(rooms.open.iter().any(|e| e.0 == pair.code));
}
