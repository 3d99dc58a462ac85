use lobby_core::message::{IncomingMessage, Outcome, OutgoingMessage, RemoveReason};
use lobby_core::codes::string_to_code;
use lobby_core::room::JoinRoomError;
use lobby_core::room_manager::RoomPair;
use lobby_core::session::{
    ClearRoom, SerializedMessage, Session, Stop, HB_TIME_LIMIT, RECONNECTION_TIME_LIMIT,
};

fn registered_session() -> Session {
    let mut s = Session::new(101, 0);
    s.handle_message(IncomingMessage::Login(String::from("alice")));
    s.on_registered(7);
    s
}

#[test]
fn login_registers_once() {
    let mut s = Session::new(101, 0);
    let out = s.handle_message(IncomingMessage::Login(String::from("alice")));
    assert_eq!(out.register.as_deref(), Some("alice"));
    assert!(!out.stop);
    s.on_registered(7);
    assert_eq!(s.transient_id, Some(7));
    // a second login on the same stream is dropped
    let again = s.handle_message(IncomingMessage::Login(String::from("mallory")));
    assert!(again.register.is_none());
    assert_eq!(s.id.as_deref(), Some("alice"));
}

#[test]
fn logout_unregisters_and_stops() {
    let mut s = registered_session();
    let out = s.handle_message(IncomingMessage::Logout);
    assert_eq!(out.unregister, Some((7, RemoveReason::Logout)));
    assert!(out.stop);
    assert!(s.id.is_none() && s.transient_id.is_none());
}

#[test]
fn join_with_valid_code_is_forwarded() {
    let mut s = registered_session();
    let out = s.handle_message(IncomingMessage::JoinRoom(Some(String::from("AB12"))));
    let join = out.join.expect("valid code goes to the room manager");
    assert_eq!(join.session, (7, 101));
    assert_eq!(join.code, Some(string_to_code("AB12").unwrap()));
    assert!(out.frame.is_none());
}

#[test]
fn join_without_code_asks_for_matchmaking() {
    let mut s = registered_session();
    let out = s.handle_message(IncomingMessage::JoinRoom(None));
    let join = out.join.unwrap();
    assert!(join.code.is_none());
}

#[test]
fn short_code_is_answered_without_touching_the_manager() {
    let mut s = registered_session();
    let out = s.handle_message(IncomingMessage::JoinRoom(Some(String::from("ABC"))));
    assert!(out.join.is_none());
    assert!(matches!(
        out.frame,
        Some(OutgoingMessage::JoinRoomResult(Outcome::Error(JoinRoomError::InvalidCode)))
    ));
}

#[test]
fn long_code_is_answered_without_touching_the_manager() {
    let mut s = registered_session();
    let out = s.handle_message(IncomingMessage::JoinRoom(Some(String::from("ABCDE"))));
    assert!(out.join.is_none());
    assert!(matches!(
        out.frame,
        Some(OutgoingMessage::JoinRoomResult(Outcome::Error(JoinRoomError::InvalidCode)))
    ));
}

#[test]
fn successful_join_reply_records_the_room() {
    let mut s = registered_session();
    let code = string_to_code("XY34").unwrap();
    let (update, frame) = s.on_join_reply(Ok(RoomPair { code }));
    assert_eq!(update, Some((7, Some(code))));
    assert_eq!(s.room, Some(code));
    match frame {
        OutgoingMessage::JoinRoomResult(Outcome::Success(text)) => assert_eq!(text, "XY34"),
        _ => panic!("expected a success reply"),
    }
}

#[test]
fn failed_join_reply_reports_the_error() {
    let mut s = registered_session();
    let (update, frame) = s.on_join_reply(Err(JoinRoomError::RoomFull));
    assert!(update.is_none());
    assert!(s.room.is_none());
    assert!(matches!(
        frame,
        OutgoingMessage::JoinRoomResult(Outcome::Error(JoinRoomError::RoomFull))
    ));
}

#[test]
fn repeated_clear_room_repeats_the_frame_but_not_the_update() {
    let mut s = registered_session();
    s.on_join_reply(Ok(RoomPair { code: string_to_code("XY34").unwrap() }));
    let (frame1, update1) = s.on_clear_room(ClearRoom { reason: RemoveReason::RoomClosed });
    assert!(matches!(frame1, OutgoingMessage::RemoveFromRoom(RemoveReason::RoomClosed)));
    assert_eq!(update1, Some((7, None)));
    assert!(s.room.is_none());
    let before = (s.addr, s.id.clone(), s.transient_id, s.hb, s.reconnection_deadline);
    let (frame2, update2) = s.on_clear_room(ClearRoom { reason: RemoveReason::RoomClosed });
    assert!(matches!(frame2, OutgoingMessage::RemoveFromRoom(RemoveReason::RoomClosed)));
    assert!(update2.is_none());
    assert_eq!(
        before,
        (s.addr, s.id.clone(), s.transient_id, s.hb, s.reconnection_deadline)
    );
}

#[test]
fn stop_order_never_causes_an_unregistration() {
    let mut s = registered_session();
    s.on_stop(Stop);
    assert!(s.on_stopped().is_none());
}

#[test]
fn unordered_teardown_reports_a_disconnection() {
    let mut s = registered_session();
    assert_eq!(s.on_stopped(), Some((7, RemoveReason::Disconnected)));
}

#[test]
fn stale_client_gets_a_reconnection_window() {
    let mut s = registered_session();
    s.on_frame(10);
    s.on_tick(10 + HB_TIME_LIMIT);
    assert_eq!(s.reconnection_deadline, Some(10 + HB_TIME_LIMIT + RECONNECTION_TIME_LIMIT));
    // within the window nothing expires
    assert!(!s.reconnection_expired(10 + HB_TIME_LIMIT + RECONNECTION_TIME_LIMIT - 1));
    // at the deadline the session is torn down
    assert!(s.reconnection_expired(10 + HB_TIME_LIMIT + RECONNECTION_TIME_LIMIT));
}

#[test]
fn fresh_frame_closes_the_window() {
    let mut s = registered_session();
    s.on_frame(10);
    s.on_tick(12);
    assert!(s.reconnection_deadline.is_some());
    s.on_frame(13);
    assert!(s.reconnection_deadline.is_none());
}

#[test]
fn live_client_gets_no_window() {
    let mut s = registered_session();
    s.on_frame(10);
    s.on_tick(11);
    assert!(s.reconnection_deadline.is_none());
}

#[test]
fn serialized_messages_pass_through() {
    let s = registered_session();
    let out = s.on_serialized_message(SerializedMessage(OutgoingMessage::GameEnd));
    assert!(matches!(out, OutgoingMessage::GameEnd));
}
