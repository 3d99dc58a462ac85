//! Server-side core of a multiplayer lobby-and-game service.
//!
//! Four long-lived components cooperate by message passing: a `Session` per
//! client stream, the `SessionManager` owning the user-to-stream mapping and
//! reconnection hand-off, a `Room` per lobby, and the `RoomManager` that
//! allocates room codes and keeps the three matching pools. Each component
//! is a sequential state machine here: a handler consumes one message,
//! updates the component's state and returns the messages to deliver next.
//! The surrounding process owns the streams and timers and routes what the
//! handlers emit.
use vstd::prelude::*;

pub mod codes;
pub mod game;
pub mod message;
pub mod room;
pub mod room_manager;
pub mod session;
pub mod session_manager;

verus! {

/// Durable, client-supplied identity of a human. Equality is by value.
pub type UserId = String;

/// Monotonic per-stream identifier, unique for a manager's lifetime.
pub type TransientId = u64;

/// Opaque address of a live session endpoint, chosen by the I/O layer.
pub type SessionRef = u64;

} // verus!
