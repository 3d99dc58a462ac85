use lobby_core::codes::string_to_code;
use lobby_core::room::JoinRoomError;
use lobby_core::room_manager::{
    Availability, JoinDirective, JoinRoom, OnRoomClosed, RoomConfig, RoomInfo, RoomManager,
    RoomUnavailablityReason, UpdateRoomMatchAvailability,
};

fn in_pool(pool: &Vec<(lobby_core::codes::RoomCode, RoomInfo)>, c: lobby_core::codes::RoomCode) -> bool {
    pool.iter().any(|e| e.0 == c)
}

fn config(public: bool, max: u8) -> RoomConfig {
    RoomConfig { public, max_player_count: max }
}

#[test]
fn created_rooms_start_reserved() {
    let mut m = RoomManager::new();
    let (pair, room) = m.create((1, 101), config(true, 6));
    assert_eq!(room.code, pair.code);
    assert_eq!(room.player_count, 1);
    assert!(in_pool(&m.reserved, pair.code));
    assert!(!in_pool(&m.open, pair.code));
    assert!(!in_pool(&m.free, pair.code));
}

#[test]
fn each_code_lives_in_exactly_one_pool() {
    let mut m = RoomManager::new();
    let (pair, _) = m.create((1, 101), config(true, 6));
    m.handle_update_room_match_availability(UpdateRoomMatchAvailability {
        code: pair.code,
        availability: Availability::Available,
    });
    let pools = [&m.free, &m.reserved, &m.open];
    let hits = pools.iter().filter(|p| in_pool(p, pair.code)).count();
    assert_eq!(hits, 1);
    assert!(in_pool(&m.open, pair.code));
}

#[test]
fn available_moves_a_clean_reserved_room_into_the_queue() {
    let mut m = RoomManager::new();
    let (pair, _) = m.create((1, 101), config(true, 6));
    m.handle_update_room_match_availability(UpdateRoomMatchAvailability {
        code: pair.code,
        availability: Availability::Available,
    });
    assert!(in_pool(&m.open, pair.code));
    let entry = m.open.iter().find(|e| e.0 == pair.code).unwrap();
    assert!(!entry.1.full && !entry.1.playing);
}

#[test]
fn full_notice_pulls_an_open_room_out_of_the_queue() {
    let mut m = RoomManager::new();
    let (pair, _) = m.create((1, 101), config(true, 6));
    m.handle_update_room_match_availability(UpdateRoomMatchAvailability {
        code: pair.code,
        availability: Availability::Available,
    });
    m.handle_update_room_match_availability(UpdateRoomMatchAvailability {
        code: pair.code,
        availability: Availability::Unavailable(RoomUnavailablityReason::Full),
    });
    assert!(!in_pool(&m.open, pair.code));
    let entry = m.reserved.iter().find(|e| e.0 == pair.code).unwrap();
    assert!(entry.1.full && !entry.1.playing);
}

#[test]
fn available_does_not_reopen_a_room_still_flagged_full() {
    let mut m = RoomManager::new();
    let (pair, _) = m.create((1, 101), config(true, 6));
    m.handle_update_room_match_availability(UpdateRoomMatchAvailability {
        code: pair.code,
        availability: Availability::Unavailable(RoomUnavailablityReason::Full),
    });
    m.handle_update_room_match_availability(UpdateRoomMatchAvailability {
        code: pair.code,
        availability: Availability::Available,
    });
    assert!(!in_pool(&m.open, pair.code));
    assert!(in_pool(&m.reserved, pair.code));
}

#[test]
fn game_started_sets_the_playing_flag_in_place() {
    let mut m = RoomManager::new();
    let (pair, _) = m.create((1, 101), config(true, 6));
    m.handle_update_room_match_availability(UpdateRoomMatchAvailability {
        code: pair.code,
        availability: Availability::Unavailable(RoomUnavailablityReason::GameStarted),
    });
    let entry = m.reserved.iter().find(|e| e.0 == pair.code).unwrap();
    assert!(entry.1.playing && !entry.1.full);
}

#[test]
fn closed_rooms_are_recycled_into_the_free_pool() {
    let mut m = RoomManager::new();
    let (pair, _) = m.create((1, 101), config(true, 6));
    m.handle_update_room_match_availability(UpdateRoomMatchAvailability {
        code: pair.code,
        availability: Availability::Unavailable(RoomUnavailablityReason::Full),
    });
    m.handle_on_room_closed(OnRoomClosed(pair.code));
    assert!(in_pool(&m.free, pair.code));
    assert!(!in_pool(&m.reserved, pair.code));
    assert!(!in_pool(&m.open, pair.code));
    let entry = m.free.iter().find(|e| e.0 == pair.code).unwrap();
    assert!(!entry.1.full && !entry.1.playing);
}

#[test]
fn closing_twice_leaves_the_free_pool_unchanged() {
    let mut m = RoomManager::new();
    let (pair, _) = m.create((1, 101), config(true, 6));
    m.handle_on_room_closed(OnRoomClosed(pair.code));
    let free_before: Vec<_> = m.free.clone();
    let reserved_before = m.reserved.clone();
    m.handle_on_room_closed(OnRoomClosed(pair.code));
    assert_eq!(m.free, free_before);
    assert_eq!(m.reserved, reserved_before);
}

#[test]
fn join_with_unknown_code_is_rejected() {
    let mut m = RoomManager::new();
    m.create((1, 101), config(true, 6));
    let missing = string_to_code("ZZZZ").unwrap();
    let directive = m.handle_join_room(JoinRoom { session: (2, 102), code: Some(missing) });
    assert!(matches!(
        directive,
        JoinDirective::Reject(JoinRoomError::RoomNotFound)
    ));
}

#[test]
fn join_with_code_reaches_a_reserved_room() {
    let mut m = RoomManager::new();
    let (pair, _) = m.create((1, 101), config(false, 6));
    let directive = m.handle_join_room(JoinRoom { session: (2, 102), code: Some(pair.code) });
    match directive {
        JoinDirective::Forward { code, add } => {
            assert_eq!(code, pair.code);
            assert_eq!(add.0, (2, 102));
        },
        _ => panic!("expected a forward"),
    }
}

#[test]
fn join_with_code_short_circuits_on_a_full_room() {
    let mut m = RoomManager::new();
    let (pair, _) = m.create((1, 101), config(true, 2));
    m.handle_update_room_match_availability(UpdateRoomMatchAvailability {
        code: pair.code,
        availability: Availability::Unavailable(RoomUnavailablityReason::Full),
    });
    let directive = m.handle_join_room(JoinRoom { session: (3, 103), code: Some(pair.code) });
    assert!(matches!(directive, JoinDirective::Reject(JoinRoomError::RoomFull)));
}

#[test]
fn join_with_code_short_circuits_on_a_running_game() {
    let mut m = RoomManager::new();
    let (pair, _) = m.create((1, 101), config(true, 6));
    m.handle_update_room_match_availability(UpdateRoomMatchAvailability {
        code: pair.code,
        availability: Availability::Unavailable(RoomUnavailablityReason::GameStarted),
    });
    let directive = m.handle_join_room(JoinRoom { session: (3, 103), code: Some(pair.code) });
    assert!(matches!(
        directive,
        JoinDirective::Reject(JoinRoomError::GameInProgress)
    ));
}

#[test]
fn matchmaking_without_open_rooms_creates_one() {
    let mut m = RoomManager::new();
    let directive = m.handle_join_room(JoinRoom { session: (1, 101), code: None });
    match directive {
        JoinDirective::Created { pair, room } => {
            assert_eq!(room.code, pair.code);
            assert_eq!(room.leader, 1);
            assert!(room.room_config.public);
            assert!(in_pool(&m.reserved, pair.code));
        },
        _ => panic!("expected a created room"),
    }
}

#[test]
fn matchmaking_prefers_an_open_room() {
    let mut m = RoomManager::new();
    let (pair, _) = m.create((1, 101), config(true, 6));
    m.handle_update_room_match_availability(UpdateRoomMatchAvailability {
        code: pair.code,
        availability: Availability::Available,
    });
    let directive = m.handle_join_room(JoinRoom { session: (2, 102), code: None });
    match directive {
        JoinDirective::Forward { code, .. } => assert_eq!(code, pair.code),
        _ => panic!("expected a forward into the open room"),
    }
}

#[test]
fn get_free_hands_back_a_recycled_entry() {
    let mut m = RoomManager::new();
    assert!(m.get_free().is_none());
    let (pair, _) = m.create((1, 101), config(true, 6));
    m.handle_on_room_closed(OnRoomClosed(pair.code));
    let (code, info) = m.get_free().unwrap();
    assert_eq!(code, pair.code);
    assert!(!info.full && !info.playing);
    assert!(m.free.is_empty());
}

#[test]
fn release_moves_a_reserved_code_to_the_free_pool() {
    let mut m = RoomManager::new();
    let (pair, _) = m.create((1, 101), config(true, 6));
    m.release(pair.code);
    assert!(in_pool(&m.free, pair.code));
    assert!(!in_pool(&m.reserved, pair.code));
}

#[test]
fn generated_codes_do_not_collide() {
    let mut m = RoomManager::new();
    let mut seen = Vec::new();
    for i in 0..50 {
        let (pair, _) = m.create((i, 100 + i), config(true, 6));
        assert!(!seen.contains(&pair.code));
        seen.push(pair.code);
    }
}
