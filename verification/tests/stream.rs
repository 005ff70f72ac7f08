use arb_collector::chain::{Chain, Event, SuiEvent};
use arb_collector::checkpoint::TransactionReaders;
use arb_collector::events::EventReaders;
use arb_collector::grpc::{GrpcCheckpointCollector, Phase, Session, SessionAction, SessionEvent};
use arb_collector::proto::{
    Bcs, Checkpoint, ExecutedTransaction, SubscribeCheckpointsResponse, TransactionEffects,
};
use arb_collector::stream::StreamEvent;

struct Toy;

impl Chain for Toy {
    type Digest = u32;
    type RawEffects = u8;
    type Effects = u8;
    type PackageId = ();
    type Address = ();
    type Module = ();
    type TypeTag = ();
    type RpcEvent = ();
    type TransactionData = ();
}

/// A message whose transactions have these effects; zero does not decode.
fn response(cursor: Option<u64>, effects: &[u8]) -> SubscribeCheckpointsResponse {
    let transactions = effects
        .iter()
        .map(|n| ExecutedTransaction {
            digest: None,
            effects: Some(TransactionEffects { bcs: Some(Bcs { value: Some(vec![*n]) }) }),
            events: None,
        })
        .collect();
    SubscribeCheckpointsResponse { cursor, checkpoint: Some(Checkpoint { transactions }) }
}

fn message(cursor: u64, effects: &[u8]) -> StreamEvent {
    StreamEvent::Message(response(Some(cursor), effects))
}

fn readers() -> TransactionReaders<
    impl Fn(&String) -> Option<u32>,
    impl Fn(&Vec<u8>) -> Option<u8>,
    impl Fn(u8) -> Option<u8>,
    impl Fn(&String) -> Option<()>,
    impl Fn(&String) -> Option<()>,
    impl Fn(&String) -> Option<()>,
    impl Fn(&String) -> Option<()>,
> {
    TransactionReaders {
        digest: |s: &String| s.parse::<u32>().ok(),
        decode_effects: |bytes: &Vec<u8>| bytes.first().copied().filter(|n| *n != 0),
        convert_effects: Some,
        events: EventReaders {
            package_id: |_: &String| Some(()),
            sender: |_: &String| Some(()),
            module: |_: &String| Some(()),
            type_tag: |_: &String| Some(()),
        },
    }
}

fn effects(events: Vec<Event<Toy, SuiEvent<Toy>>>) -> Vec<u8> {
    events
        .into_iter()
        .map(|event| match event {
            Event::PublicTx(effects, _) => effects,
            Event::PrivateTx(()) => panic!("a checkpoint reports public transactions"),
        })
        .collect()
}

/// Lets a collector take an event of the stream with this session.
fn take_for(
    collector: &mut GrpcCheckpointCollector,
    session: &mut Session,
    event: StreamEvent,
) -> Vec<u8> {
    assert!(session.can_take(&event));
    effects(collector.on_event(session, event, 0, &readers()))
}

/// A collector with one stream.
struct Feed {
    collector: GrpcCheckpointCollector,
    session: Session,
}

fn take(feed: &mut Feed, event: StreamEvent) -> Vec<u8> {
    take_for(&mut feed.collector, &mut feed.session, event)
}

fn connection(feed: &mut Feed, events: &[SessionEvent]) {
    for event in events {
        assert!(take(feed, StreamEvent::Connection(*event)).is_empty());
    }
}

const OPEN: [SessionEvent; 3] =
    [SessionEvent::Configured, SessionEvent::Connected, SessionEvent::Subscribed];

fn opened() -> Feed {
    let collector = GrpcCheckpointCollector::new("https://node:443", 1);
    let session = collector.event_stream();
    let mut feed = Feed { collector, session };
    connection(&mut feed, &OPEN);
    feed
}

#[test]
fn stream_starts_unconnected() {
    let mut collector = GrpcCheckpointCollector::new("https://node:443", 2);
    collector.last_checkpoint = 77;
    let session = collector.event_stream();
    assert_eq!(session.phase, Phase::Configure);
    assert!(matches!(session.action(), SessionAction::Configure { .. }));
    assert_eq!(collector.grpc_endpoint, "https://node:443");
    assert_eq!(collector.last_checkpoint, 77);
    assert_eq!(collector.max_disconnect_secs, 120);
}

#[test]
fn streams_of_a_collector_share_its_record() {
    let mut collector = GrpcCheckpointCollector::new("https://node:443", 1);
    let mut first = collector.event_stream();
    let mut second = collector.event_stream();
    for event in OPEN {
        take_for(&mut collector, &mut first, StreamEvent::Connection(event));
        take_for(&mut collector, &mut second, StreamEvent::Connection(event));
    }
    assert_eq!(take_for(&mut collector, &mut first, message(42, &[1])), vec![1]);
    assert_eq!(collector.last_checkpoint, 42);
    assert_eq!(take_for(&mut collector, &mut second, message(40, &[2])), vec![2]);
    assert_eq!(collector.last_checkpoint, 40);
    let third = collector.event_stream();
    assert_eq!(third.phase, Phase::Configure);
    assert_eq!(collector.last_checkpoint, 40);
}

#[test]
fn collector_processes_a_message() {
    let mut collector = GrpcCheckpointCollector::new("https://node:443", 1);
    let given = collector.process_checkpoint::<Toy, _, _, _, _, _, _, _>(
        response(Some(5), &[1, 0, 2]),
        0,
        &readers(),
    );
    assert_eq!(effects(given), vec![1, 2]);
    assert_eq!(collector.last_checkpoint, 5);
    assert_eq!(collector.grpc_endpoint, "https://node:443");
    assert_eq!(collector.max_disconnect_secs, 60);
    let given = collector.process_checkpoint::<Toy, _, _, _, _, _, _, _>(
        response(None, &[]),
        0,
        &readers(),
    );
    assert!(given.is_empty());
    assert_eq!(collector.last_checkpoint, 0);
}

#[test]
fn place_of_a_message() {
    assert_eq!(response(Some(8), &[]).place(), 8);
    assert_eq!(response(None, &[]).place(), 0);
}

#[test]
fn stream_gives_the_reports_of_its_messages() {
    let mut stream = opened();
    let mut given = take(&mut stream, message(1, &[1, 2]));
    connection(&mut stream, &[SessionEvent::Delivered, SessionEvent::StreamFailed]);
    connection(&mut stream, &[SessionEvent::Clock(5), SessionEvent::Clock(6), SessionEvent::Waited]);
    connection(&mut stream, &[SessionEvent::Configured, SessionEvent::ConnectFailed]);
    connection(&mut stream, &[SessionEvent::Clock(7), SessionEvent::Waited]);
    connection(&mut stream, &OPEN);
    given.extend(take(&mut stream, message(4, &[0, 3])));
    connection(&mut stream, &[SessionEvent::Delivered]);
    given.extend(take(&mut stream, message(5, &[2])));
    assert_eq!(given, vec![1, 2, 3, 2]);
}

#[test]
fn reconnects_change_nothing() {
    let mut steady = opened();
    let mut first = take(&mut steady, message(1, &[1]));
    connection(&mut steady, &[SessionEvent::Delivered]);
    first.extend(take(&mut steady, message(2, &[2])));

    let mut broken = opened();
    let mut second = take(&mut broken, message(1, &[1]));
    connection(&mut broken, &[SessionEvent::Delivered, SessionEvent::StreamEnded]);
    connection(&mut broken, &[SessionEvent::Clock(0), SessionEvent::Clock(0), SessionEvent::Waited]);
    connection(&mut broken, &OPEN);
    second.extend(take(&mut broken, message(2, &[2])));

    assert_eq!(first, second);
}

#[test]
fn only_messages_move_the_recorded_place() {
    let mut stream = opened();
    take(&mut stream, message(42, &[]));
    assert_eq!(stream.collector.last_checkpoint, 42);
    let row = [
        SessionEvent::Delivered,
        SessionEvent::StreamEnded,
        SessionEvent::Clock(0),
        SessionEvent::Clock(1),
        SessionEvent::Waited,
        SessionEvent::EndpointInvalid,
        SessionEvent::Configured,
        SessionEvent::ConnectFailed,
        SessionEvent::Clock(2),
        SessionEvent::Waited,
        SessionEvent::Configured,
        SessionEvent::Connected,
        SessionEvent::SubscribeFailed,
        SessionEvent::Clock(3),
        SessionEvent::Clock(4),
        SessionEvent::Waited,
    ];
    for event in row {
        connection(&mut stream, &[event]);
        assert_eq!(stream.collector.last_checkpoint, 42);
        assert_eq!(stream.collector.grpc_endpoint, "https://node:443");
        assert_eq!(stream.collector.max_disconnect_secs, 60);
    }
    connection(&mut stream, &OPEN);
    take(&mut stream, message(7, &[]));
    assert_eq!(stream.collector.last_checkpoint, 7);
}

#[test]
fn reports_are_given_out_before_the_next_message() {
    let mut stream = opened();
    take(&mut stream, message(1, &[1]));
    assert_eq!(stream.session.action(), SessionAction::Deliver);
    assert!(!stream.session.can_take(&message(2, &[2])));
    assert!(stream.session.can_take(&StreamEvent::Connection(SessionEvent::Delivered)));
    connection(&mut stream, &[SessionEvent::Delivered]);
    assert!(stream.session.can_take(&message(2, &[2])));
}

#[test]
fn message_without_content_is_not_awaited() {
    let stream = opened();
    assert!(!stream.session.can_take(&StreamEvent::Connection(SessionEvent::Message)));
    assert!(stream.session.can_take(&StreamEvent::Connection(SessionEvent::StreamEnded)));
}

#[test]
fn stream_ends_after_a_long_outage() {
    let mut stream = opened();
    let limit: u128 = 60 * 1_000_000_000;
    connection(&mut stream, &[SessionEvent::StreamEnded, SessionEvent::Clock(1)]);
    connection(&mut stream, &[SessionEvent::Clock(limit + 2)]);
    assert_eq!(stream.session.action(), SessionAction::Exit { code: 1 });
}
