use arb_collector::chain::{BcsEvent, Chain, Event, SuiEvent};
use arb_collector::checkpoint::{process_checkpoint_internal, TransactionReaders};
use arb_collector::events::{
    build_event, convert_proto_events, read_optional, read_parts, EventParts, EventReaders,
};
use arb_collector::json::{JsonValue, ProtoKind, ProtoValue};
use arb_collector::proto::{
    Bcs, Checkpoint, ExecutedTransaction, ProtoEvent, SubscribeCheckpointsResponse,
    TransactionEffects, TransactionEvents,
};

/// A chain whose names are numbers in text.
struct Toy;

impl Chain for Toy {
    type Digest = u32;
    type RawEffects = u64;
    type Effects = String;
    type PackageId = u32;
    type Address = i64;
    type Module = char;
    type TypeTag = String;
    type RpcEvent = u32;
    type TransactionData = u64;
}

fn text(s: &str) -> Option<String> {
    Some(s.to_string())
}

fn event(package_id: &str, sender: &str, module: &str, event_type: &str) -> ProtoEvent {
    ProtoEvent {
        package_id: text(package_id),
        module: text(module),
        sender: text(sender),
        event_type: text(event_type),
        contents: None,
        json: None,
    }
}

fn good(event_type: &str) -> ProtoEvent {
    event("7", "-3", "m", event_type)
}

fn type_tag(s: &String) -> Option<String> {
    if s.contains("::") {
        Some(s.to_uppercase())
    } else {
        None
    }
}

fn convert(events: Option<Vec<ProtoEvent>>, digest: u32) -> Vec<SuiEvent<Toy>> {
    let readers = EventReaders {
        package_id: |s: &String| s.parse::<u32>().ok(),
        sender: |s: &String| s.parse::<i64>().ok(),
        module: |s: &String| s.parse::<char>().ok(),
        type_tag,
    };
    convert_proto_events(events.map(|events| TransactionEvents { events }), digest, &readers)
}

fn numbers(events: &[SuiEvent<Toy>]) -> Vec<u64> {
    events.iter().map(|event| event.id.event_seq).collect()
}

fn contents(event: &SuiEvent<Toy>) -> &Vec<u8> {
    match &event.bcs {
        BcsEvent::Base64 { bcs } => bcs,
    }
}

#[test]
fn no_event_message_gives_no_events() {
    assert!(convert(None, 1).is_empty());
    assert!(convert(Some(vec![]), 1).is_empty());
}

#[test]
fn event_fields_are_carried_over() {
    let mut message = good("0x2::pool::Swap");
    message.contents = Some(Bcs { value: Some(vec![1, 2, 3]) });
    message.json = Some(ProtoValue { kind: Some(ProtoKind::StringValue("json".to_string())) });
    let events = convert(Some(vec![message]), 99);
    assert_eq!(events.len(), 1);
    let event = &events[0];
    assert_eq!(event.id.tx_digest, 99);
    assert_eq!(event.id.event_seq, 0);
    assert_eq!(event.package_id, 7);
    assert_eq!(event.transaction_module, 'm');
    assert_eq!(event.sender, -3);
    assert_eq!(event.type_, "0X2::POOL::SWAP");
    assert!(matches!(&event.parsed_json, JsonValue::String(s) if s == "json"));
    assert_eq!(contents(event), &vec![1, 2, 3]);
    assert_eq!(event.timestamp_ms, None);
}

#[test]
fn missing_json_and_contents_have_defaults() {
    let mut without_value = good("a::b");
    without_value.contents = Some(Bcs { value: None });
    without_value.json = Some(ProtoValue { kind: None });
    let events = convert(Some(vec![good("a::b"), without_value]), 1);
    assert_eq!(events.len(), 2);
    for event in &events {
        assert!(matches!(event.parsed_json, JsonValue::Null));
        assert!(contents(event).is_empty());
    }
}

#[test]
fn events_keep_the_numbers_of_their_messages() {
    let messages = vec![
        good("plain"),
        good("a::b"),
        event("x", "1", "m", "a::b"),
        event("1", "x", "m", "a::b"),
        event("1", "1", "mm", "a::b"),
        good("c::d"),
        ProtoEvent { event_type: None, ..good("a::b") },
        ProtoEvent { package_id: None, ..good("a::b") },
        ProtoEvent { sender: None, ..good("a::b") },
        ProtoEvent { module: None, ..good("a::b") },
        good("e::f"),
    ];
    let events = convert(Some(messages), 5);
    assert_eq!(numbers(&events), vec![1, 5, 10]);
    assert_eq!(events[1].type_, "C::D");
    assert!(events.iter().all(|event| event.id.tx_digest == 5));
}

#[test]
fn event_without_a_type_reads_nothing() {
    let readers = EventReaders {
        package_id: |_: &String| -> Option<u32> { panic!("package read") },
        sender: |_: &String| -> Option<i64> { panic!("sender read") },
        module: |_: &String| -> Option<char> { panic!("module read") },
        type_tag: |_: &String| -> Option<String> { panic!("type read") },
    };
    let message = ProtoEvent { event_type: None, ..good("a::b") };
    let parts: EventParts<Toy> = read_parts(&message, &readers);
    assert_eq!(parts.package_id, None);
    assert!(build_event(0, message, parts, 1).is_none());
}

#[test]
fn parts_are_read_in_turn() {
    let readers = EventReaders {
        package_id: |s: &String| s.parse::<u32>().ok(),
        sender: |_: &String| -> Option<i64> { None },
        module: |_: &String| -> Option<char> { panic!("module read") },
        type_tag: |_: &String| -> Option<String> { panic!("type read") },
    };
    let parts: EventParts<Toy> = read_parts(&good("a::b"), &readers);
    assert_eq!(parts.package_id, Some(7));
    assert_eq!(parts.sender, None);
}

#[test]
fn optional_inputs_are_read() {
    let reader = |s: &String| s.parse::<u8>().ok();
    assert_eq!(read_optional(&reader, &text("12")), Some(12));
    assert_eq!(read_optional(&reader, &text("x")), None);
    assert_eq!(read_optional(&reader, &None), None);
}

#[test]
fn event_is_built_from_all_parts_only() {
    let parts = || EventParts::<Toy> {
        package_id: Some(1),
        sender: Some(2),
        module: Some('c'),
        type_: Some("T".to_string()),
    };
    let built = build_event(4, good("ignored"), parts(), 8).unwrap();
    assert_eq!((built.id.event_seq, built.id.tx_digest), (4, 8));
    assert_eq!((built.package_id, built.sender, built.transaction_module), (1, 2, 'c'));
    assert_eq!(built.type_, "T");
    assert!(build_event(0, good("t"), EventParts { package_id: None, ..parts() }, 8).is_none());
    assert!(build_event(0, good("t"), EventParts { sender: None, ..parts() }, 8).is_none());
    assert!(build_event(0, good("t"), EventParts { module: None, ..parts() }, 8).is_none());
    assert!(build_event(0, good("t"), EventParts { type_: None, ..parts() }, 8).is_none());
}

fn transaction(digest: Option<&str>, effects: Option<Vec<u8>>, events: usize) -> ExecutedTransaction {
    ExecutedTransaction {
        digest: digest.map(|s| s.to_string()),
        effects: Some(TransactionEffects { bcs: Some(Bcs { value: effects }) }),
        events: Some(TransactionEvents { events: (0..events).map(|_| good("a::b")).collect() }),
    }
}

fn process(last: &mut u64, resp: SubscribeCheckpointsResponse) -> Vec<Event<Toy, SuiEvent<Toy>>> {
    let readers = TransactionReaders {
        digest: |s: &String| s.parse::<u32>().ok(),
        decode_effects: |bytes: &Vec<u8>| bcs::from_bytes::<u64>(bytes).ok(),
        convert_effects: |raw: u64| if raw == 13 { None } else { Some(format!("effects {}", raw)) },
        events: EventReaders {
            package_id: |s: &String| s.parse::<u32>().ok(),
            sender: |s: &String| s.parse::<i64>().ok(),
            module: |s: &String| s.parse::<char>().ok(),
            type_tag,
        },
    };
    process_checkpoint_internal(last, resp, 1000, &readers)
}

fn response(cursor: Option<u64>, txs: Vec<ExecutedTransaction>) -> SubscribeCheckpointsResponse {
    SubscribeCheckpointsResponse { cursor, checkpoint: Some(Checkpoint { transactions: txs }) }
}

fn encoded(n: u64) -> Option<Vec<u8>> {
    Some(bcs::to_bytes(&n).unwrap())
}

fn parts(event: &Event<Toy, SuiEvent<Toy>>) -> (&str, Vec<u32>) {
    match event {
        Event::PublicTx(effects, events) => {
            (effects.as_str(), events.iter().map(|event| event.id.tx_digest).collect())
        }
        Event::PrivateTx(_) => panic!("a checkpoint reports public transactions"),
    }
}

#[test]
fn cursor_is_recorded() {
    let mut last = 3;
    assert!(process(&mut last, response(Some(42), vec![])).is_empty());
    assert_eq!(last, 42);
    assert!(process(&mut last, response(None, vec![])).is_empty());
    assert_eq!(last, 0);
}

#[test]
fn response_without_a_checkpoint_only_moves_the_cursor() {
    let mut last = 1;
    let resp = SubscribeCheckpointsResponse { cursor: Some(9), checkpoint: None };
    assert!(process(&mut last, resp).is_empty());
    assert_eq!(last, 9);
}

#[test]
fn transactions_with_effects_are_reported_in_order() {
    let mut last = 0;
    let mut no_events = transaction(Some("5"), encoded(4), 0);
    no_events.events = None;
    let events = process(
        &mut last,
        response(
            Some(1),
            vec![
                transaction(Some("1"), encoded(10), 2),
                transaction(Some("2"), Some(vec![1, 2]), 1),
                transaction(Some("3"), encoded(13), 1),
                transaction(None, encoded(11), 1),
                transaction(Some("not a digest"), encoded(12), 1),
                no_events,
            ],
        ),
    );
    assert_eq!(events.len(), 4);
    assert_eq!(parts(&events[0]), ("effects 10", vec![1, 1]));
    assert_eq!(parts(&events[1]), ("effects 11", vec![1000]));
    assert_eq!(parts(&events[2]), ("effects 12", vec![1000]));
    assert_eq!(parts(&events[3]), ("effects 4", vec![]));
}

#[test]
fn transactions_without_effects_are_left_out() {
    let mut last = 0;
    let mut no_effects = transaction(Some("1"), None, 1);
    no_effects.effects = None;
    let mut no_bcs = transaction(Some("1"), None, 1);
    no_bcs.effects = Some(TransactionEffects { bcs: None });
    let no_value = transaction(Some("1"), None, 1);
    let events = process(&mut last, response(Some(1), vec![no_effects, no_bcs, no_value]));
    assert!(events.is_empty());
}

#[test]
fn same_checkpoint_gives_the_same_reports() {
    let build = || response(Some(7), vec![transaction(Some("8"), encoded(1), 3)]);
    let (mut one, mut two) = (0, 0);
    let first = process(&mut one, build());
    let second = process(&mut two, build());
    assert_eq!(one, two);
    assert_eq!(parts(&first[0]), parts(&second[0]));
}

/// What stands in an event besides the digest of its transaction.
fn described(event: &SuiEvent<Toy>) -> String {
    format!(
        "{} {} {} {} {} {:?} {:?} {}",
        event.id.event_seq,
        event.package_id,
        event.transaction_module,
        event.sender,
        event.type_,
        contents(event),
        event.timestamp_ms,
        matches!(event.parsed_json, JsonValue::Null),
    )
}

fn some_messages() -> Vec<ProtoEvent> {
    let mut with_contents = good("c::d");
    with_contents.contents = Some(Bcs { value: Some(vec![4, 5]) });
    vec![good("a::b"), event("x", "1", "m", "a::b"), with_contents, good("plain"), good("e::f")]
}

#[test]
fn digest_only_marks_the_events() {
    let one = convert(Some(some_messages()), 1);
    let two = convert(Some(some_messages()), 2);
    assert_eq!(one.len(), 3);
    assert!(one.iter().all(|event| event.id.tx_digest == 1));
    assert!(two.iter().all(|event| event.id.tx_digest == 2));
    let first: Vec<String> = one.iter().map(described).collect();
    let second: Vec<String> = two.iter().map(described).collect();
    assert_eq!(first, second);
}

#[test]
fn spoiled_message_takes_out_its_event_alone() {
    let whole = convert(Some(some_messages()), 1);
    for spoiled in 0..some_messages().len() {
        let mut messages = some_messages();
        messages[spoiled] = ProtoEvent {
            package_id: None,
            module: None,
            sender: None,
            event_type: None,
            contents: None,
            json: None,
        };
        let given: Vec<String> = convert(Some(messages), 1).iter().map(described).collect();
        let expected: Vec<String> = whole
            .iter()
            .filter(|event| event.id.event_seq != spoiled as u64)
            .map(described)
            .collect();
        assert_eq!(given, expected);
    }
}

fn first_half() -> Vec<ExecutedTransaction> {
    vec![transaction(Some("1"), encoded(10), 2), transaction(Some("2"), Some(vec![1, 2]), 1)]
}

fn second_half() -> Vec<ExecutedTransaction> {
    vec![transaction(None, encoded(11), 1), transaction(Some("4"), encoded(12), 0)]
}

#[test]
fn joined_message_is_reported_as_its_halves() {
    let mut last = 0;
    let one = process(&mut last, response(Some(1), first_half()));
    let two = process(&mut last, response(Some(2), second_half()));
    let mut joined = first_half();
    joined.extend(second_half());
    let both = process(&mut last, response(Some(3), joined));
    let halves: Vec<(&str, Vec<u32>)> = one.iter().chain(two.iter()).map(parts).collect();
    assert_eq!(halves.len(), 3);
    assert_eq!(both.iter().map(parts).collect::<Vec<(&str, Vec<u32>)>>(), halves);
}

#[test]
fn message_is_reported_again_in_full() {
    let mut last = 90;
    let first = process(&mut last, response(Some(50), second_half()));
    assert_eq!(last, 50);
    let again = process(&mut last, response(Some(50), second_half()));
    let elsewhere = process(&mut last, response(None, second_half()));
    assert_eq!(last, 0);
    let reports: Vec<(&str, Vec<u32>)> = first.iter().map(parts).collect();
    assert_eq!(reports, vec![("effects 11", vec![1000]), ("effects 12", vec![])]);
    assert_eq!(again.iter().map(parts).collect::<Vec<(&str, Vec<u32>)>>(), reports);
    assert_eq!(elsewhere.iter().map(parts).collect::<Vec<(&str, Vec<u32>)>>(), reports);
}
