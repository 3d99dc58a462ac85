use lobby_core::codes::string_to_code;
use lobby_core::message::{OutgoingMessage, RemoveReason};
use lobby_core::room::{
    AddPlayer, ClientReconnection, RemovePlayer, RequestStart, Room,
};
use lobby_core::room_manager::{Availability, RoomConfig, RoomUnavailablityReason};

fn public_room(max: u8) -> Room {
    Room::new(
        string_to_code("XY34").unwrap(),
        (1, 101),
        RoomConfig { public: true, max_player_count: max },
    )
}

fn private_room(max: u8) -> Room {
    Room::new(
        string_to_code("AB12").unwrap(),
        (1, 101),
        RoomConfig { public: false, max_player_count: max },
    )
}

fn slot_of(room: &Room, tid: u64) -> Option<usize> {
    room.id_map.iter().find(|e| e.0 == tid).map(|e| e.1)
}

#[test]
fn new_room_seats_the_leader_at_slot_zero() {
    let room = public_room(6);
    assert_eq!(room.player_count, 1);
    assert_eq!(room.leader, 1);
    assert_eq!(slot_of(&room, 1), Some(0));
    assert_eq!(room.get_id(0), Some(1));
    assert_eq!(room.get_players().len(), 1);
}

#[test]
fn add_player_admits_until_capacity() {
    let mut room = public_room(3);
    let (r, avail) = room.handle_add_player(AddPlayer((2, 102)));
    assert_eq!(r.unwrap(), room.code);
    assert!(avail.is_none());
    assert_eq!(room.player_count, 2);
    assert_eq!(slot_of(&room, 2), Some(1));
}

#[test]
fn add_player_at_capacity_minus_one_emits_exactly_one_full_notice() {
    let mut room = public_room(2);
    let (r, avail) = room.handle_add_player(AddPlayer((2, 102)));
    assert!(r.is_ok());
    let notice = avail.expect("room reaching capacity must announce it");
    assert_eq!(notice.code, room.code);
    assert_eq!(
        notice.availability,
        Availability::Unavailable(RoomUnavailablityReason::Full)
    );
}

#[test]
fn add_player_on_full_room_is_rejected() {
    let mut room = public_room(2);
    room.handle_add_player(AddPlayer((2, 102)));
    let (r, avail) = room.handle_add_player(AddPlayer((3, 103)));
    assert_eq!(r.unwrap_err(), lobby_core::room::JoinRoomError::RoomFull);
    assert!(avail.is_none());
    assert_eq!(room.player_count, 2);
}

#[test]
fn a_single_seat_room_admits_nobody_else() {
    let mut room = public_room(1);
    let (r, avail) = room.handle_add_player(AddPlayer((2, 102)));
    assert_eq!(r.unwrap_err(), lobby_core::room::JoinRoomError::RoomFull);
    assert!(avail.is_none());
}

#[test]
fn default_capacity_fills_at_six() {
    let mut room = public_room(6);
    for tid in 2..=5u64 {
        let (r, avail) = room.handle_add_player(AddPlayer((tid, 100 + tid)));
        assert!(r.is_ok());
        assert!(avail.is_none());
    }
    let (r, avail) = room.handle_add_player(AddPlayer((6, 106)));
    assert!(r.is_ok());
    assert!(avail.is_some());
    assert_eq!(room.player_count, 6);
}

#[test]
fn add_player_twice_is_rejected() {
    let mut room = public_room(6);
    let (r, _) = room.handle_add_player(AddPlayer((1, 101)));
    assert_eq!(r.unwrap_err(), lobby_core::room::JoinRoomError::AlreadyInRoom);
}

#[test]
fn add_player_during_game_is_rejected() {
    let mut room = public_room(6);
    let (start, _, _) = room.handle_request_start(RequestStart(1));
    assert!(start.is_ok());
    let (r, _) = room.handle_add_player(AddPlayer((2, 102)));
    assert_eq!(r.unwrap_err(), lobby_core::room::JoinRoomError::GameInProgress);
}

#[test]
fn removed_player_frees_the_seat_and_is_told_to_clear() {
    let mut room = public_room(6);
    room.handle_add_player(AddPlayer((2, 102)));
    let (clear, avail, closed) =
        room.handle_remove_player(RemovePlayer { transient_id: 2, reason: RemoveReason::Disconnected });
    assert_eq!(clear, Some((102, RemoveReason::Disconnected)));
    assert!(avail.is_none());
    assert!(closed.is_none());
    assert_eq!(room.player_count, 1);
    assert_eq!(slot_of(&room, 2), None);
    assert!(room.players[1].is_none());
}

#[test]
fn voluntary_leave_sends_no_clear_message() {
    let mut room = public_room(6);
    room.handle_add_player(AddPlayer((2, 102)));
    let (clear, _, _) = room
        .handle_remove_player(RemovePlayer { transient_id: 2, reason: RemoveReason::LeaveRequested });
    assert!(clear.is_none());
}

#[test]
fn leaving_a_full_room_reannounces_availability() {
    let mut room = public_room(2);
    room.handle_add_player(AddPlayer((2, 102)));
    let (_, avail, _) = room
        .handle_remove_player(RemovePlayer { transient_id: 2, reason: RemoveReason::LeaveRequested });
    let notice = avail.expect("dropping below capacity must re-announce");
    assert_eq!(notice.availability, Availability::Available);
}

#[test]
fn removing_the_last_member_closes_the_room() {
    let mut room = public_room(6);
    let (_, _, closed) = room
        .handle_remove_player(RemovePlayer { transient_id: 1, reason: RemoveReason::Logout });
    let closed = closed.expect("an emptied room closes");
    assert_eq!(closed.0, room.code);
}

#[test]
fn removing_an_unknown_member_changes_nothing() {
    let mut room = public_room(6);
    let (clear, avail, closed) = room
        .handle_remove_player(RemovePlayer { transient_id: 9, reason: RemoveReason::Logout });
    assert!(clear.is_none() && avail.is_none() && closed.is_none());
    assert_eq!(room.player_count, 1);
}

#[test]
fn reconnection_keeps_the_seat_index() {
    let mut room = public_room(6);
    room.handle_add_player(AddPlayer((2, 102)));
    room.handle_add_player(AddPlayer((3, 103)));
    assert_eq!(slot_of(&room, 2), Some(1));
    let restore = room.handle_client_reconnection(
        ClientReconnection { replacee: 2, replacer: (7, 207) },
        0,
    );
    let (addr, state) = restore.expect("known replacee is rewired");
    assert_eq!(addr, 207);
    assert_eq!(state.code, room.code);
    assert!(state.game.is_none());
    assert_eq!(slot_of(&room, 7), Some(1));
    assert_eq!(slot_of(&room, 2), None);
    assert_eq!(room.player_count, 3);
}

#[test]
fn reconnection_for_unknown_replacee_is_a_silent_no_op() {
    let mut room = public_room(6);
    let restore = room.handle_client_reconnection(
        ClientReconnection { replacee: 9, replacer: (7, 207) },
        0,
    );
    assert!(restore.is_none());
    assert_eq!(room.player_count, 1);
}

#[test]
fn reconnection_during_game_restores_game_state() {
    let mut room = public_room(6);
    room.handle_add_player(AddPlayer((2, 102)));
    room.handle_request_start(RequestStart(1)).0.unwrap();
    let restore = room.handle_client_reconnection(
        ClientReconnection { replacee: 2, replacer: (7, 207) },
        5,
    );
    let (_, state) = restore.unwrap();
    let game = state.game.expect("running game is snapshot");
    assert_eq!(game.turn, 0);
    assert_eq!(game.score, 0);
    assert!(game.time_remaining.is_none());
}

#[test]
fn any_member_may_start_a_public_room() {
    let mut room = public_room(6);
    room.handle_add_player(AddPlayer((2, 102)));
    let (r, avail, frames) = room.handle_request_start(RequestStart(2));
    assert!(r.is_ok());
    let notice = avail.unwrap();
    assert_eq!(
        notice.availability,
        Availability::Unavailable(RoomUnavailablityReason::GameStarted)
    );
    assert_eq!(frames.len(), 2);
    assert!(frames.iter().all(|f| matches!(f.1, OutgoingMessage::GameStarted)));
    assert_eq!(frames[0].0, 101);
    assert_eq!(frames[1].0, 102);
}

#[test]
fn only_the_leader_may_start_a_private_room() {
    let mut room = private_room(6);
    room.handle_add_player(AddPlayer((2, 102)));
    let (r, avail, frames) = room.handle_request_start(RequestStart(2));
    assert_eq!(r.unwrap_err(), lobby_core::room::StartGameError::NotLeader);
    assert!(avail.is_none());
    assert!(frames.is_empty());
    let (r2, _, _) = room.handle_request_start(RequestStart(1));
    assert!(r2.is_ok());
}

#[test]
fn starting_twice_is_rejected() {
    let mut room = public_room(6);
    room.handle_request_start(RequestStart(1)).0.unwrap();
    let (r, _, _) = room.handle_request_start(RequestStart(1));
    assert_eq!(r.unwrap_err(), lobby_core::room::StartGameError::GameAlreadyRunning);
}

#[test]
fn notify_clients_reaches_every_occupied_seat() {
    let mut room = public_room(6);
    room.handle_add_player(AddPlayer((2, 102)));
    room.handle_add_player(AddPlayer((3, 103)));
    room.handle_remove_player(RemovePlayer { transient_id: 2, reason: RemoveReason::LeaveRequested });
    let out = room.notify_clients(OutgoingMessage::GameEnd, None);
    let addrs: Vec<u64> = out.iter().map(|f| f.0).collect();
    assert_eq!(addrs, vec![101, 103]);
    let single = room.notify_clients(OutgoingMessage::GameEnd, Some(0));
    assert_eq!(single.len(), 1);
    assert_eq!(single[0].0, 101);
}

#[test]
fn closing_a_room_notifies_members_and_recycles_the_code() {
    let mut room = public_room(6);
    room.handle_add_player(AddPlayer((2, 102)));
    let (frames, closed) = room.handle_close_room(lobby_core::room::CloseRoom);
    assert_eq!(frames.len(), 2);
    assert!(frames
        .iter()
        .all(|f| matches!(f.1, OutgoingMessage::RemoveFromRoom(RemoveReason::RoomClosed))));
    assert_eq!(closed.0, room.code);
}
