use lobby_core::codes::string_to_code;
use lobby_core::message::RemoveReason;
use lobby_core::session_manager::{SessionManager, TRANSIENT_ID_WRAP};

#[test]
fn first_ids_count_up_from_one() {
    let mut m = SessionManager::new();
    assert_eq!(m.new_id(), 1);
    assert_eq!(m.new_id(), 2);
    assert_eq!(m.new_id(), 3);
}

#[test]
fn counter_wraps_back_to_one() {
    let mut m = SessionManager::new();
    m.temp_id_counter = TRANSIENT_ID_WRAP;
    assert_eq!(m.new_id(), 1);
}

#[test]
fn register_ids_are_strictly_increasing() {
    let mut m = SessionManager::new();
    let (a, _, _) = m.register(101, String::from("alice"));
    let (b, _, _) = m.register(102, String::from("bob"));
    let (c, _, _) = m.register(103, String::from("carol"));
    assert!(a < b && b < c);
}

#[test]
fn register_skips_ids_still_alive_after_a_wrap() {
    let mut m = SessionManager::new();
    let (a, _, _) = m.register(101, String::from("alice"));
    assert_eq!(a, 1);
    m.temp_id_counter = TRANSIENT_ID_WRAP;
    // the counter wraps to 1, which alice still holds, so bob gets 2
    let (b, _, _) = m.register(102, String::from("bob"));
    assert_eq!(b, 2);
}

#[test]
fn register_records_the_session() {
    let mut m = SessionManager::new();
    let (tid, reconnect, stop) = m.register(101, String::from("alice"));
    assert!(reconnect.is_none());
    assert!(stop.is_none());
    assert_eq!(m.get_user_by_transient_id(tid).as_deref(), Some("alice"));
    let record = &m.sessions.iter().find(|e| e.0 == "alice").unwrap().1;
    assert_eq!(record.session_addr, 101);
    assert_eq!(record.transient_id, tid);
    assert!(record.room_code.is_none());
}

#[test]
fn reregistration_stops_the_old_session_and_keeps_the_room() {
    let mut m = SessionManager::new();
    let code = string_to_code("AB12").unwrap();
    let (old_tid, _, _) = m.register(101, String::from("alice"));
    m.update_session_room_info(old_tid, Some(code));
    let (new_tid, reconnect, stop) = m.register(201, String::from("alice"));
    assert_ne!(old_tid, new_tid);
    // the room learns the replacement before the old session is stopped
    let (room, handoff) = reconnect.expect("reconnection reaches the room");
    assert_eq!(room, code);
    assert_eq!(handoff.replacee, old_tid);
    assert_eq!(handoff.replacer, (new_tid, 201));
    assert_eq!(stop, Some(101));
    // the old id no longer resolves, the new one does
    assert!(m.get_user_by_transient_id(old_tid).is_none());
    assert_eq!(m.get_user_by_transient_id(new_tid).as_deref(), Some("alice"));
    let record = &m.sessions.iter().find(|e| e.0 == "alice").unwrap().1;
    assert_eq!(record.room_code, Some(code));
    assert_eq!(m.sessions.len(), 1);
}

#[test]
fn reregistration_without_a_room_sends_no_handoff() {
    let mut m = SessionManager::new();
    m.register(101, String::from("alice"));
    let (_, reconnect, stop) = m.register(201, String::from("alice"));
    assert!(reconnect.is_none());
    assert_eq!(stop, Some(101));
}

#[test]
fn remove_session_evicts_from_the_room() {
    let mut m = SessionManager::new();
    let code = string_to_code("AB12").unwrap();
    let (tid, _, _) = m.register(101, String::from("alice"));
    m.update_session_room_info(tid, Some(code));
    let evict = m.remove_session(tid, RemoveReason::Disconnected);
    let (room, removal) = evict.expect("a roomed user is evicted");
    assert_eq!(room, code);
    assert_eq!(removal.transient_id, tid);
    assert_eq!(removal.reason, RemoveReason::Disconnected);
    assert!(m.sessions.is_empty());
    assert!(m.get_user_by_transient_id(tid).is_none());
}

#[test]
fn remove_session_without_a_room_emits_nothing() {
    let mut m = SessionManager::new();
    let (tid, _, _) = m.register(101, String::from("alice"));
    assert!(m.remove_session(tid, RemoveReason::Logout).is_none());
    assert!(m.sessions.is_empty());
}

#[test]
fn remove_session_for_an_unknown_id_is_a_no_op() {
    let mut m = SessionManager::new();
    m.register(101, String::from("alice"));
    assert!(m.remove_session(999, RemoveReason::Logout).is_none());
    assert_eq!(m.sessions.len(), 1);
}

#[test]
fn room_info_update_for_an_unknown_id_is_a_no_op() {
    let mut m = SessionManager::new();
    let code = string_to_code("AB12").unwrap();
    m.update_session_room_info(999, Some(code));
    assert!(m.sessions.is_empty());
}

#[test]
fn room_info_can_be_cleared_again() {
    let mut m = SessionManager::new();
    let code = string_to_code("AB12").unwrap();
    let (tid, _, _) = m.register(101, String::from("alice"));
    m.update_session_room_info(tid, Some(code));
    m.update_session_room_info(tid, None);
    let record = &m.sessions.iter().find(|e| e.0 == "alice").unwrap().1;
    assert!(record.room_code.is_none());
}

#[test]
fn room_notice_message_updates_the_record() {
    let mut m = SessionManager::new();
    let code = string_to_code("CD34").unwrap();
    let (tid, _, _) = m.register(101, String::from("alice"));
    m.handle_update_session_room_info(lobby_core::session_manager::UpdateSessionRoomInfo(
        tid,
        Some(code),
    ));
    let record = &m.sessions.iter().find(|e| e.0 == "alice").unwrap().1;
    assert_eq!(record.room_code, Some(code));
}

#[test]
fn distinct_users_have_distinct_records() {
    let mut m = SessionManager::new();
    let (a, _, _) = m.register(101, String::from("alice"));
    let (b, _, _) = m.register(102, String::from("bob"));
    assert_ne!(a, b);
    assert_eq!(m.sessions.len(), 2);
    assert_eq!(m.get_user_by_transient_id(a).as_deref(), Some("alice"));
    assert_eq!(m.get_user_by_transient_id(b).as_deref(), Some("bob"));
}
