use crate::message::OutgoingMessage;
use crate::room::{PlayerInRoom, Room};
use crate::{SessionRef, TransientId};
use vstd::prelude::*;

verus! {

/// Game state handed to a reconnecting client for client-side restoration.
pub struct SerializedState {
    pub word: String,
    pub time_remaining: Option<u64>,
    pub turn: TransientId,
    pub score: usize,
}

/// State tied to an individual player, such as their score.
#[derive(Clone, Copy, PartialEq, Eq, Structural, Debug)]
pub struct PlayerState {
    pub score: usize,
    pub id: TransientId,
    pub alive: bool,
}

impl PlayerState {
    /// The starting state of a player occupying a room slot.
    pub fn from(value: &PlayerInRoom) -> (r: Self)
        ensures
            r.score == 0,
            r.id == value.transient_id,
            r.alive,
    {
        PlayerState { score: 0, id: value.transient_id, alive: true }
    }
}

/// Common game state that applies to all game modes. Slots are parallel to
/// the owning room's player slots. `timer` is the deadline, in seconds on
/// the caller's clock, of the running turn timer, when one is armed.
pub struct GameState {
    pub player_data: Vec<Option<PlayerState>>,
    pub word: String,
    pub turn: usize,
    pub timer: Option<u64>,
}

/// A game in progress.
pub struct Game {
    pub state: GameState,
}

/// The game mode a room was configured with.
#[derive(Clone, Copy, PartialEq, Eq, Structural, Debug)]
pub enum GameMode {
    Standard,
}

impl Default for GameMode {
    fn default() -> (r: Self)
        ensures
            r == GameMode::Standard,
    {
        GameMode::Standard
    }
}

/// A game-facing input frame, delivered opaquely to the controller.
pub enum Input {
    Word(String),
}

/// What [`Game::get_state`] reports for seat `player` at time `now`.
pub open spec fn spec_snapshot(g: Game, player: int, now: u64) -> SerializedState {
    SerializedState {
        word: g.state.word,
        time_remaining: match g.state.timer {
            Some(deadline) => Some(
                if deadline >= now {
                    (deadline - now) as u64
                } else {
                    0u64
                },
            ),
            None => None::<u64>,
        },
        turn: g.state.turn as u64,
        score: g.state.player_data[player]->Some_0.score,
    }
}

/// The state a game opened over roster `players` starts in: one player
/// state per occupied seat, at the same index, everyone alive with a zero
/// score; no word, first turn, no timer.
pub open spec fn fresh_game(g: Game, players: Seq<Option<PlayerInRoom>>) -> bool {
    &&& g.state.player_data@.len() == players.len()
    &&& forall|i: int|
        0 <= i < players.len() ==> match #[trigger] players[i] {
            Some(p) => g.state.player_data@[i] == Some(
                PlayerState { score: 0, id: p.transient_id, alive: true },
            ),
            None => g.state.player_data@[i] is None,
        }
    &&& g.state.word@.len() == 0
    &&& g.state.turn == 0
    &&& g.state.timer is None
}

impl Game {
    /// Opens a game over the given roster: one player state per occupied
    /// slot, at the same index, everyone alive with a zero score.
    pub fn new(players: &Vec<Option<PlayerInRoom>>, game_mode: GameMode) -> (g: Game)
        ensures
            fresh_game(g, players@),
    {
        let _ = game_mode;
        let mut player_data: Vec<Option<PlayerState>> = Vec::new();
        let mut i: usize = 0;
        while i < players.len()
            invariant
                0 <= i <= players@.len(),
                player_data@.len() == i,
                forall|j: int|
                    0 <= j < i ==> match #[trigger] players@[j] {
                        Some(p) => player_data@[j] == Some(
                            PlayerState { score: 0, id: p.transient_id, alive: true },
                        ),
                        None => player_data@[j] is None,
                    },
            decreases players@.len() - i,
        {
            let entry = match &players[i] {
                Some(p) => Some(PlayerState::from(p)),
                None => None,
            };
            player_data.push(entry);
            i += 1;
        }
        Game {
            state: GameState { player_data, word: String::new(), turn: 0, timer: None },
        }
    }

    /// Snapshot of the game as seen from one occupied seat, taken at time
    /// `now` (seconds on the caller's clock).
    pub fn get_state(&self, player: usize, now: u64) -> (s: SerializedState)
        requires
            player < self.state.player_data@.len(),
            self.state.player_data@[player as int] is Some,
        ensures
            s == spec_snapshot(*self, player as int, now),
    {
        let word = self.state.word.clone();
        let time_remaining = match self.state.timer {
            Some(deadline) => Some(if deadline >= now { deadline - now } else { 0 }),
            None => None,
        };
        let turn = self.state.turn as u64;
        let score = match &self.state.player_data[player] {
            Some(data) => data.score,
            None => 0,
        };
        SerializedState { word, time_remaining, turn, score }
    }
}

/// The capability surface a game mode offers the room. The room forwards
/// lifecycle events and inputs and persists no game-specific state.
pub trait GameController {
    type GameInput;

    fn on_begin(&mut self);

    fn on_end(&mut self);

    fn on_pause(&mut self);

    fn on_resume(&mut self);

    fn on_input(&mut self, input: &Self::GameInput);
}

impl GameController for Game {
    type GameInput = Input;

    fn on_begin(&mut self) {
    }

    fn on_end(&mut self) {
    }

    fn on_pause(&mut self) {
    }

    fn on_resume(&mut self) {
    }

    fn on_input(&mut self, input: &Self::GameInput) {
        let _ = input;
    }
}

/// True when the slot holds a player still in the running.
pub open spec fn slot_alive(s: Option<PlayerState>) -> bool {
    match s {
        Some(p) => p.alive,
        None => false,
    }
}

/// The first index at or after `i` whose slot holds a living player.
pub open spec fn first_alive_from(s: Seq<Option<PlayerState>>, i: int) -> Option<int>
    decreases s.len() - i,
{
    if i < 0 || i >= s.len() {
        None
    } else if slot_alive(s[i]) {
        Some(i)
    } else {
        first_alive_from(s, i + 1)
    }
}

proof fn lemma_first_alive_found(s: Seq<Option<PlayerState>>, from: int, found: int)
    requires
        0 <= from <= found < s.len(),
        slot_alive(s[found]),
        forall|j: int| from <= j < found ==> !slot_alive(s[j]),
    ensures
        first_alive_from(s, from) == Some(found),
    decreases found - from,
{
    if from < found {
        lemma_first_alive_found(s, from + 1, found);
    }
}

proof fn lemma_first_alive_none(s: Seq<Option<PlayerState>>, from: int)
    requires
        0 <= from,
        forall|j: int| from <= j < s.len() ==> !slot_alive(s[j]),
    ensures
        first_alive_from(s, from) is None,
    decreases s.len() - from,
{
    if from < s.len() {
        lemma_first_alive_none(s, from + 1);
    }
}

/// An example game mode implementation.
pub struct StandardGame {}

impl StandardGame {
    /// Moves the turn to the first living player at or after the current
    /// seat, wrapping to the first living player overall when the tail of
    /// the roster holds none, and announces the new turn to every client.
    pub fn next_turn(&self, state: &mut GameState, room: &Room) -> (out: Vec<
        (SessionRef, OutgoingMessage),
    >)
        requires
            room.wf(),
            old(state).turn < old(state).player_data@.len(),
            old(state).player_data@.len() == room.players@.len(),
            exists|i: int|
                0 <= i < old(state).player_data@.len() && slot_alive(
                    old(state).player_data@[i],
                ),
            forall|i: int|
                0 <= i < old(state).player_data@.len() && slot_alive(old(state).player_data@[i])
                    ==> room.players@[i] is Some,
        ensures
            final(state).player_data == old(state).player_data,
            final(state).word == old(state).word,
            final(state).timer == old(state).timer,
            final(state).turn as int == match first_alive_from(
                old(state).player_data@,
                old(state).turn as int,
            ) {
                Some(i) => i,
                None => first_alive_from(old(state).player_data@, 0)->Some_0,
            },
            out@ == room.spec_fanout(
                OutgoingMessage::TurnUpdate(
                    room.players@[final(state).turn as int]->Some_0.transient_id,
                ),
            ),
    {
        let len = state.player_data.len();
        let mut next: Option<usize> = None;
        let mut i: usize = state.turn;
        while i < len && next.is_none()
            invariant
                state == old(state),
                len == state.player_data@.len(),
                state.turn <= i <= len,
                match next {
                    None => forall|j: int|
                        state.turn <= j < i ==> !slot_alive(state.player_data@[j]),
                    Some(idx) => first_alive_from(state.player_data@, state.turn as int) == Some(
                        idx as int,
                    ) && idx < len && slot_alive(state.player_data@[idx as int]),
                },
            decreases len - i,
        {
            if is_alive(&state.player_data[i]) {
                next = Some(i);
                proof {
                    lemma_first_alive_found(state.player_data@, state.turn as int, i as int);
                }
            }
            i += 1;
        }
        if next.is_none() {
            proof {
                lemma_first_alive_none(state.player_data@, state.turn as int);
            }
            let mut k: usize = 0;
            while k < len && next.is_none()
                invariant
                    state == old(state),
                    len == state.player_data@.len(),
                    0 <= k <= len,
                    match next {
                        None => forall|j: int| 0 <= j < k ==> !slot_alive(state.player_data@[j]),
                        Some(idx) => first_alive_from(state.player_data@, 0) == Some(idx as int)
                            && idx < len && slot_alive(state.player_data@[idx as int]),
                    },
                decreases len - k,
            {
                if is_alive(&state.player_data[k]) {
                    next = Some(k);
                    proof {
                        lemma_first_alive_found(state.player_data@, 0, k as int);
                    }
                }
                k += 1;
            }
            proof {
                if next is None {
                    lemma_first_alive_none(state.player_data@, 0);
                    assert(false);
                }
            }
        }
        let turn = match next {
            Some(idx) => idx,
            None => 0,
        };
        state.turn = turn;
        let id = match room.get_id(turn) {
            Some(id) => id,
            None => 0,
        };
        room.notify_clients(OutgoingMessage::TurnUpdate(id), None)
    }
}

/// True when the slot holds a player still in the running.
pub fn is_alive(s: &Option<PlayerState>) -> (r: bool)
    ensures
        r == slot_alive(*s),
{
    match s {
        Some(p) => p.alive,
        None => false,
    }
}

} // verus!
