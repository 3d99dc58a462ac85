use lobby_core::game::{Game, GameController, GameMode, PlayerState, StandardGame};
use lobby_core::message::OutgoingMessage;
use lobby_core::room::{AddPlayer, PlayerInRoom, RemovePlayer, Room};
use lobby_core::message::RemoveReason;
use lobby_core::codes::string_to_code;
use lobby_core::room_manager::RoomConfig;

fn room_of_three() -> Room {
    let mut room = Room::new(
        string_to_code("XY34").unwrap(),
        (1, 101),
        RoomConfig { public: true, max_player_count: 6 },
    );
    room.handle_add_player(AddPlayer((2, 102)));
    room.handle_add_player(AddPlayer((3, 103)));
    room
}

#[test]
fn fresh_game_mirrors_the_roster() {
    let mut room = room_of_three();
    room.handle_remove_player(RemovePlayer { transient_id: 2, reason: RemoveReason::LeaveRequested });
    let game = Game::new(room.get_players(), GameMode::Standard);
    assert_eq!(game.state.player_data.len(), 3);
    assert_eq!(
        game.state.player_data[0],
        Some(PlayerState { score: 0, id: 1, alive: true })
    );
    assert!(game.state.player_data[1].is_none());
    assert_eq!(
        game.state.player_data[2],
        Some(PlayerState { score: 0, id: 3, alive: true })
    );
    assert_eq!(game.state.turn, 0);
    assert!(game.state.timer.is_none());
    assert!(game.state.word.is_empty());
}

#[test]
fn snapshot_reports_the_seat_and_the_clock() {
    let room = room_of_three();
    let mut game = Game::new(room.get_players(), GameMode::Standard);
    game.state.timer = Some(30);
    game.state.turn = 2;
    let snap = game.get_state(2, 20);
    assert_eq!(snap.turn, 2);
    assert_eq!(snap.score, 0);
    assert_eq!(snap.time_remaining, Some(10));
    assert_eq!(snap.word, "");
    // a deadline already past reports zero, not an underflow
    let late = game.get_state(2, 45);
    assert_eq!(late.time_remaining, Some(0));
}

#[test]
fn next_turn_skips_dead_players_in_seat_order() {
    let room = room_of_three();
    let mut game = Game::new(room.get_players(), GameMode::Standard);
    match &mut game.state.player_data[0] {
        Some(p) => p.alive = false,
        None => unreachable!(),
    }
    let frames = StandardGame {}.next_turn(&mut game.state, &room);
    assert_eq!(game.state.turn, 1);
    assert_eq!(frames.len(), 3);
    // every member hears whose turn it is, by transient id
    assert!(frames.iter().all(|f| matches!(f.1, OutgoingMessage::TurnUpdate(2))));
}

#[test]
fn next_turn_wraps_to_the_first_living_player() {
    let room = room_of_three();
    let mut game = Game::new(room.get_players(), GameMode::Standard);
    game.state.turn = 2;
    match &mut game.state.player_data[2] {
        Some(p) => p.alive = false,
        None => unreachable!(),
    }
    StandardGame {}.next_turn(&mut game.state, &room);
    assert_eq!(game.state.turn, 0);
}

#[test]
fn default_mode_is_standard() {
    assert_eq!(GameMode::default(), GameMode::Standard);
}

#[test]
fn controller_hooks_accept_events() {
    let room = room_of_three();
    let mut game = Game::new(room.get_players(), GameMode::Standard);
    game.on_begin();
    game.on_pause();
    game.on_resume();
    game.on_input(&lobby_core::game::Input::Word(String::from("hello")));
    game.on_end();
    assert_eq!(game.state.turn, 0);
}
