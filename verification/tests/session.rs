use retroboard::{SessionCommand, SessionEvent, SessionState, Side};

const EVENTS: [SessionEvent; 11] = [
    SessionEvent::Opened,
    SessionEvent::ActionReceived,
    SessionEvent::InvalidMessage,
    SessionEvent::InboundEnded,
    SessionEvent::MutationApplied,
    SessionEvent::MutationRejected,
    SessionEvent::PublishFailed,
    SessionEvent::SnapshotDelivered,
    SessionEvent::SnapshotsMissed,
    SessionEvent::BroadcastClosed,
    SessionEvent::SendFailed,
];

#[test]
fn a_session_starts_connecting_and_opens_with_a_full_snapshot() {
    let state = SessionState::new();
    assert_eq!(state, SessionState::Connecting);
    assert_eq!(
        state.on(SessionEvent::Opened),
        (SessionState::Active, SessionCommand::SendSnapshotAndSubscribe)
    );
}

#[test]
fn nothing_but_opening_moves_a_connecting_session() {
    for event in EVENTS.iter().skip(1) {
        assert_eq!(
            SessionState::Connecting.on(*event),
            (SessionState::Connecting, SessionCommand::Continue)
        );
    }
}

#[test]
fn an_active_session_follows_the_table() {
    let active = SessionState::Active;
    let expected = [
        (SessionState::Active, SessionCommand::Continue),
        (SessionState::Active, SessionCommand::Mutate),
        (SessionState::Active, SessionCommand::Continue),
        (SessionState::Closed, SessionCommand::Cancel(Side::Outbound)),
        (SessionState::Active, SessionCommand::PersistAndPublish),
        (SessionState::Active, SessionCommand::Continue),
        (SessionState::Closed, SessionCommand::Cancel(Side::Outbound)),
        (SessionState::Active, SessionCommand::ForwardSnapshot),
        (SessionState::Active, SessionCommand::Continue),
        (SessionState::Closed, SessionCommand::Cancel(Side::Inbound)),
        (SessionState::Closed, SessionCommand::Cancel(Side::Inbound)),
    ];
    for (event, want) in EVENTS.iter().zip(expected.iter()) {
        assert_eq!(active.on(*event), *want);
    }
}

#[test]
fn a_closed_session_stays_closed() {
    for event in EVENTS.iter() {
        assert_eq!(
            SessionState::Closed.on(*event),
            (SessionState::Closed, SessionCommand::Continue)
        );
    }
}

#[test]
fn a_malformed_message_does_not_end_the_session() {
    let mut state = SessionState::new();
    let mut commands = Vec::new();
    for event in [
        SessionEvent::Opened,
        SessionEvent::InvalidMessage,
        SessionEvent::ActionReceived,
        SessionEvent::MutationApplied,
        SessionEvent::SnapshotDelivered,
        SessionEvent::InboundEnded,
        SessionEvent::SnapshotDelivered,
    ] {
        let (next, command) = state.on(event);
        state = next;
        commands.push(command);
    }
    assert_eq!(state, SessionState::Closed);
    assert_eq!(
        commands,
        vec![
            SessionCommand::SendSnapshotAndSubscribe,
            SessionCommand::Continue,
            SessionCommand::Mutate,
            SessionCommand::PersistAndPublish,
            SessionCommand::ForwardSnapshot,
            SessionCommand::Cancel(Side::Outbound),
            SessionCommand::Continue,
        ]
    );
}
