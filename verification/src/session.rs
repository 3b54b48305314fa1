//! The life of one viewer's connection.
//!
//! A session waits for its connection, is then active, and ends closed. While
//! it is active two loops run side by side: the inbound one reads what the
//! viewer sends and hands the changes to the board, the outbound one forwards
//! every published snapshot of the board to the viewer. Whatever performs the
//! reading, writing and waiting reports each thing that happened as an event
//! and is told here what to do next.

use vstd::prelude::*;

verus! {

/// Where a session stands.
#[derive(Clone, Copy, Debug, PartialEq, Eq, Structural)]
pub enum SessionState {
    /// The connection is not established yet.
    Connecting,
    /// Both loops run.
    Active,
    /// The session is over.
    Closed,
}

/// One of the two loops of an active session.
#[derive(Clone, Copy, Debug, PartialEq, Eq, Structural)]
pub enum Side {
    /// The loop that reads the viewer's messages.
    Inbound,
    /// The loop that forwards snapshots to the viewer.
    Outbound,
}

/// Something that happened to a session.
#[derive(Clone, Copy, Debug, PartialEq, Eq, Structural)]
pub enum SessionEvent {
    /// The connection was established.
    Opened,
    /// The viewer sent a message that spells an action.
    ActionReceived,
    /// The viewer sent a text that spells no action.
    InvalidMessage,
    /// The viewer is gone, reading failed, or what arrived was no text.
    InboundEnded,
    /// The board took the action.
    MutationApplied,
    /// The board turned the action down.
    MutationRejected,
    /// The snapshot could not be handed to the broadcast.
    PublishFailed,
    /// The broadcast delivered a snapshot.
    SnapshotDelivered,
    /// The session fell behind and the broadcast dropped its backlog.
    SnapshotsMissed,
    /// The broadcast is closed.
    BroadcastClosed,
    /// Writing to the viewer failed.
    SendFailed,
}

/// What is to be done next.
#[derive(Clone, Copy, Debug, PartialEq, Eq, Structural)]
pub enum SessionCommand {
    /// Send the whole board to the viewer, then subscribe to the broadcast
    /// and start both loops.
    SendSnapshotAndSubscribe,
    /// Hand the action to the board.
    Mutate,
    /// Save the board and publish its snapshot to every session.
    PersistAndPublish,
    /// Send the delivered snapshot to the viewer as it is.
    ForwardSnapshot,
    /// Go on waiting; nothing else is to be done.
    Continue,
    /// The loop that reported the event is over: stop the other one.
    Cancel(Side),
}

/// The state that follows `state` on `event`, and what is to be done.
pub open spec fn transition(state: SessionState, event: SessionEvent) -> (
    SessionState,
    SessionCommand,
) {
    match state {
        SessionState::Connecting => match event {
            SessionEvent::Opened => (
                SessionState::Active,
                SessionCommand::SendSnapshotAndSubscribe,
            ),
            _ => (SessionState::Connecting, SessionCommand::Continue),
        },
        SessionState::Active => match event {
            SessionEvent::Opened => (SessionState::Active, SessionCommand::Continue),
            SessionEvent::ActionReceived => (SessionState::Active, SessionCommand::Mutate),
            SessionEvent::InvalidMessage => (SessionState::Active, SessionCommand::Continue),
            SessionEvent::InboundEnded => (
                SessionState::Closed,
                SessionCommand::Cancel(Side::Outbound),
            ),
            SessionEvent::MutationApplied => (
                SessionState::Active,
                SessionCommand::PersistAndPublish,
            ),
            SessionEvent::MutationRejected => (SessionState::Active, SessionCommand::Continue),
            SessionEvent::PublishFailed => (
                SessionState::Closed,
                SessionCommand::Cancel(Side::Outbound),
            ),
            SessionEvent::SnapshotDelivered => (
                SessionState::Active,
                SessionCommand::ForwardSnapshot,
            ),
            SessionEvent::SnapshotsMissed => (SessionState::Active, SessionCommand::Continue),
            SessionEvent::BroadcastClosed => (
                SessionState::Closed,
                SessionCommand::Cancel(Side::Inbound),
            ),
            SessionEvent::SendFailed => (
                SessionState::Closed,
                SessionCommand::Cancel(Side::Inbound),
            ),
        },
        SessionState::Closed => (SessionState::Closed, SessionCommand::Continue),
    }
}

/// The state of a session that started in `state` and saw `events`.
pub open spec fn state_after(state: SessionState, events: Seq<SessionEvent>) -> SessionState
    decreases events.len(),
{
    if events.len() == 0 {
        state
    } else {
        transition(state_after(state, events.drop_last()), events.last()).0
    }
}

/// What a session that started in `state` was told on the last of `events`.
pub open spec fn command_on_last(state: SessionState, events: Seq<SessionEvent>) -> SessionCommand
    recommends
        events.len() > 0,
{
    transition(state_after(state, events.drop_last()), events.last()).1
}

impl SessionState {
    /// The state of a session before its connection is established.
    pub fn new() -> (state: SessionState)
        ensures
            state == SessionState::Connecting,
    {
        SessionState::Connecting
    }

    /// Takes in `event`: the state that follows, and what is to be done.
    pub fn on(self, event: SessionEvent) -> (next: (SessionState, SessionCommand))
        ensures
            next == transition(self, event),
    {
        match self {
            SessionState::Connecting => match event {
                SessionEvent::Opened => (
                    SessionState::Active,
                    SessionCommand::SendSnapshotAndSubscribe,
                ),
                _ => (SessionState::Connecting, SessionCommand::Continue),
            },
            SessionState::Active => match event {
                SessionEvent::ActionReceived => (SessionState::Active, SessionCommand::Mutate),
                SessionEvent::MutationApplied => (
                    SessionState::Active,
                    SessionCommand::PersistAndPublish,
                ),
                SessionEvent::SnapshotDelivered => (
                    SessionState::Active,
                    SessionCommand::ForwardSnapshot,
                ),
                SessionEvent::InboundEnded | SessionEvent::PublishFailed => (
                    SessionState::Closed,
                    SessionCommand::Cancel(Side::Outbound),
                ),
                SessionEvent::BroadcastClosed | SessionEvent::SendFailed => (
                    SessionState::Closed,
                    SessionCommand::Cancel(Side::Inbound),
                ),
                SessionEvent::Opened
                | SessionEvent::InvalidMessage
                | SessionEvent::MutationRejected
                | SessionEvent::SnapshotsMissed => (SessionState::Active, SessionCommand::Continue),
            },
            SessionState::Closed => (SessionState::Closed, SessionCommand::Continue),
        }
    }
}

/// A closed session stays closed, whatever happens, and is told to do
/// nothing more.
pub proof fn lemma_closed_is_final(events: Seq<SessionEvent>)
    ensures
        state_after(SessionState::Closed, events) == SessionState::Closed,
        events.len() > 0 ==> command_on_last(SessionState::Closed, events)
            == SessionCommand::Continue,
    decreases events.len(),
{
    if events.len() > 0 {
        lemma_closed_is_final(events.drop_last());
    }
}

/// A message that spells no action never ends a session, and a change that
/// the board turned down is never published.
pub proof fn lemma_bad_input_is_passed_over(state: SessionState)
    ensures
        transition(state, SessionEvent::InvalidMessage) == (state, SessionCommand::Continue),
        transition(state, SessionEvent::MutationRejected) == (state, SessionCommand::Continue),
{
}

/// Whenever a session closes, the loop that did not end is stopped: the
/// closing step tells which, and it is the other side of the event.
pub proof fn lemma_closing_cancels_the_other_loop(state: SessionState, event: SessionEvent)
    requires
        state != SessionState::Closed,
        transition(state, event).0 == SessionState::Closed,
    ensures
        state == SessionState::Active,
        event == SessionEvent::InboundEnded || event == SessionEvent::PublishFailed
            ==> transition(state, event).1 == SessionCommand::Cancel(Side::Outbound),
        event == SessionEvent::BroadcastClosed || event == SessionEvent::SendFailed
            ==> transition(state, event).1 == SessionCommand::Cancel(Side::Inbound),
        transition(state, event).1 is Cancel,
{
}

/// The whole board is sent to a viewer once: on the step that makes the
/// session active, and on no step of a session that already is.
pub proof fn lemma_full_snapshot_once(state: SessionState, event: SessionEvent)
    ensures
        transition(state, event).1 == SessionCommand::SendSnapshotAndSubscribe <==> state
            == SessionState::Connecting && event == SessionEvent::Opened,
        state != SessionState::Connecting ==> transition(state, event).0
            != SessionState::Connecting,
{
}

/// A snapshot is published exactly on the steps on which an active session
/// learns that the board took a change.
pub proof fn lemma_publish_follows_mutation(state: SessionState, event: SessionEvent)
    ensures
        transition(state, event).1 == SessionCommand::PersistAndPublish <==> state
            == SessionState::Active && event == SessionEvent::MutationApplied,
{
}

} // verus!
