use arb_collector::grpc::{
    checkpoint_read_mask, GrpcCheckpointCollector, Phase, Session, SessionAction, SessionEvent,
};

const SEC: u128 = 1_000_000_000;

fn run(session: &mut Session, events: &[SessionEvent], max_secs: u64) {
    for event in events {
        assert!(session.awaits(*event));
        session.on_event(*event, max_secs);
    }
}

fn started(start: u128) -> Session {
    let mut session = Session::new();
    run(
        &mut session,
        &[SessionEvent::Configured, SessionEvent::ConnectFailed, SessionEvent::Clock(start)],
        60,
    );
    session
}

#[test]
fn collector_counts_the_limit_in_seconds() {
    let collector = GrpcCheckpointCollector::new("https://fullnode.mainnet.sui.io:443", 5);
    assert_eq!(collector.grpc_endpoint, "https://fullnode.mainnet.sui.io:443");
    assert_eq!(collector.last_checkpoint, 0);
    assert_eq!(collector.max_disconnect_secs, 300);
    assert_eq!(collector.name(), "GrpcCheckpointCollector");
    let longest = GrpcCheckpointCollector::new("", u64::MAX / 60);
    assert_eq!(longest.max_disconnect_secs, u64::MAX / 60 * 60);
}

#[test]
fn read_mask_is_relative_to_the_checkpoint() {
    assert_eq!(checkpoint_read_mask(), vec!["sequence_number", "digest", "transactions"]);
}

#[test]
fn session_runs_to_the_stream() {
    let mut session = Session::new();
    assert_eq!(
        session.action(),
        SessionAction::Configure {
            keep_alive_interval_secs: 30,
            keep_alive_timeout_secs: 10,
            while_idle: true,
        }
    );
    session.on_event(SessionEvent::Configured, 60);
    assert_eq!(session.action(), SessionAction::Connect);
    session.on_event(SessionEvent::Connected, 60);
    assert_eq!(session.action(), SessionAction::Subscribe);
    session.on_event(SessionEvent::Subscribed, 60);
    assert_eq!(session.action(), SessionAction::Receive);
    session.on_event(SessionEvent::Message, 60);
    assert_eq!(session.action(), SessionAction::Deliver);
    session.on_event(SessionEvent::Delivered, 60);
    assert_eq!(session.action(), SessionAction::Receive);
}

#[test]
fn invalid_endpoint_is_tried_again_at_once() {
    let mut session = Session::new();
    session.on_event(SessionEvent::EndpointInvalid, 60);
    assert_eq!(session, Session::new());
}

#[test]
fn every_loss_starts_an_outage() {
    let losses = [
        vec![SessionEvent::Configured, SessionEvent::ConnectFailed],
        vec![SessionEvent::Configured, SessionEvent::Connected, SessionEvent::SubscribeFailed],
        vec![
            SessionEvent::Configured,
            SessionEvent::Connected,
            SessionEvent::Subscribed,
            SessionEvent::StreamFailed,
        ],
        vec![
            SessionEvent::Configured,
            SessionEvent::Connected,
            SessionEvent::Subscribed,
            SessionEvent::Message,
            SessionEvent::Delivered,
            SessionEvent::StreamEnded,
        ],
    ];
    for events in losses {
        let mut session = Session::new();
        run(&mut session, &events, 60);
        assert_eq!(session.action(), SessionAction::ReadClock);
        assert_eq!(session, Session { phase: Phase::Mark, disconnect_start: None });
        session.on_event(SessionEvent::Clock(17), 60);
        assert_eq!(session, Session { phase: Phase::Measure, disconnect_start: Some(17) });
        assert_eq!(session.action(), SessionAction::ReadClock);
        session.on_event(SessionEvent::Clock(18), 60);
        assert_eq!(session.action(), SessionAction::Wait { secs: 1 });
        session.on_event(SessionEvent::Waited, 60);
        assert_eq!(session, Session { phase: Phase::Configure, disconnect_start: Some(17) });
    }
}

#[test]
fn retries_keep_the_start_of_an_outage() {
    let mut session = started(5 * SEC);
    for i in 0..10u128 {
        run(
            &mut session,
            &[
                SessionEvent::Clock((6 + i) * SEC),
                SessionEvent::Waited,
                SessionEvent::Configured,
                SessionEvent::ConnectFailed,
            ],
            60,
        );
        assert_eq!(session.disconnect_start, Some(5 * SEC));
    }
}

#[test]
fn outage_at_the_limit_is_not_too_long() {
    let mut session = started(SEC);
    session.on_event(SessionEvent::Clock(61 * SEC), 60);
    assert_eq!(session.action(), SessionAction::Wait { secs: 1 });
}

#[test]
fn outage_over_the_limit_ends_the_session() {
    let mut session = started(SEC);
    session.on_event(SessionEvent::Clock(61 * SEC + 1), 60);
    assert_eq!(session.action(), SessionAction::Exit { code: 1 });
    assert!(!session.awaits(SessionEvent::Waited));
    assert!(!session.awaits(SessionEvent::Clock(0)));
    assert!(!session.awaits(SessionEvent::Configured));
}

#[test]
fn limit_of_zero_ends_at_the_first_tick() {
    let mut session = started(SEC);
    session.on_event(SessionEvent::Clock(SEC), 0);
    assert_eq!(session.phase, Phase::Wait);
    let mut session = started(SEC);
    session.on_event(SessionEvent::Clock(SEC + 1), 0);
    assert_eq!(session.phase, Phase::Exited);
}

#[test]
fn clock_before_the_start_counts_as_no_time() {
    let mut session = started(10 * SEC);
    session.on_event(SessionEvent::Clock(9 * SEC), 0);
    assert_eq!(session.phase, Phase::Wait);
}

#[test]
fn connection_ends_the_outage() {
    let mut session = started(SEC);
    run(
        &mut session,
        &[
            SessionEvent::Clock(2 * SEC),
            SessionEvent::Waited,
            SessionEvent::Configured,
            SessionEvent::Connected,
        ],
        60,
    );
    assert_eq!(session, Session { phase: Phase::Subscribe, disconnect_start: None });
    run(
        &mut session,
        &[
            SessionEvent::SubscribeFailed,
            SessionEvent::Clock(100 * SEC),
            SessionEvent::Clock(101 * SEC),
        ],
        60,
    );
    assert_eq!(session, Session { phase: Phase::Wait, disconnect_start: Some(100 * SEC) });
}

#[test]
fn longest_limit_does_not_overflow() {
    let mut session = started(0);
    session.on_event(SessionEvent::Clock(u128::MAX), u64::MAX);
    assert_eq!(session.phase, Phase::Exited);
    let mut session = started(0);
    session.on_event(SessionEvent::Clock(u64::MAX as u128 * SEC), u64::MAX);
    assert_eq!(session.phase, Phase::Wait);
}

#[test]
fn message_is_delivered_before_the_next_is_received() {
    let mut session = Session::new();
    run(
        &mut session,
        &[
            SessionEvent::Configured,
            SessionEvent::Connected,
            SessionEvent::Subscribed,
            SessionEvent::Message,
        ],
        60,
    );
    assert!(session.awaits(SessionEvent::Delivered));
    assert!(!session.awaits(SessionEvent::Message));
    assert!(!session.awaits(SessionEvent::StreamEnded));
    session.on_event(SessionEvent::Delivered, 60);
    assert!(session.awaits(SessionEvent::Message));
}
