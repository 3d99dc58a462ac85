use crate::room::JoinRoomError;
use crate::TransientId;
use vstd::prelude::*;

verus! {

/// A frame decoded from the client's stream.
pub enum IncomingMessage {
    /// Claim a durable identity; only valid while unauthenticated.
    Login(String),
    /// Join the room with the given code, or any open room when absent.
    JoinRoom(Option<String>),
    /// Clear the identity and end the session.
    Logout,
}

/// Why a player left, or was made to leave, a room.
#[derive(Clone, Copy, PartialEq, Eq, Structural, Debug)]
pub enum RemoveReason {
    RoomClosed,
    Logout,
    Disconnected,
    LeaveRequested,
    IdMismatch,
}

/// Which request a reply frame answers.
#[derive(Clone, Copy, PartialEq, Eq, Structural, Debug)]
pub enum ResultOf {
    JoinRoom,
}

/// Success-or-error payload of a reply frame.
pub enum Outcome<T, E> {
    Success(T),
    Error(E),
}

/// A frame sent to the client.
pub enum OutgoingMessage {
    RemoveFromRoom(RemoveReason),
    ForceDisconnect(RemoveReason),
    GameStarted,
    GameEnd,
    JoinRoomResult(Outcome<String, JoinRoomError>),
    TurnUpdate(TransientId),
}

impl OutgoingMessage {
    /// Which request this frame answers, when it is a reply frame.
    pub fn result_of(&self) -> (r: Option<ResultOf>)
        ensures
            r == if self is JoinRoomResult {
                Some(ResultOf::JoinRoom)
            } else {
                None::<ResultOf>
            },
    {
        match self {
            OutgoingMessage::JoinRoomResult(_) => Some(ResultOf::JoinRoom),
            _ => None,
        }
    }

    /// A copy equal to `self`, usable where one frame fans out to many
    /// recipients.
    pub fn duplicate(&self) -> (r: Self)
        ensures
            r == *self,
    {
        match self {
            OutgoingMessage::RemoveFromRoom(reason) => OutgoingMessage::RemoveFromRoom(*reason),
            OutgoingMessage::ForceDisconnect(reason) => OutgoingMessage::ForceDisconnect(*reason),
            OutgoingMessage::GameStarted => OutgoingMessage::GameStarted,
            OutgoingMessage::GameEnd => OutgoingMessage::GameEnd,
            OutgoingMessage::JoinRoomResult(outcome) => OutgoingMessage::JoinRoomResult(
                match outcome {
                    Outcome::Success(code) => Outcome::Success(code.clone()),
                    Outcome::Error(err) => Outcome::Error(*err),
                },
            ),
            OutgoingMessage::TurnUpdate(id) => OutgoingMessage::TurnUpdate(*id),
        }
    }
}

} // verus!
