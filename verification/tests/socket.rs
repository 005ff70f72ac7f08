use arb_collector::chain::{Chain, Event};
use arb_collector::socket::{
    decode_frame, Frame, FrameDecoders, FrameError, FrameReader, PublicTxCollector, SocketAction,
};

struct Toy;

impl Chain for Toy {
    type Digest = ();
    type RawEffects = u64;
    type Effects = String;
    type PackageId = ();
    type Address = ();
    type Module = ();
    type TypeTag = ();
    type RpcEvent = u32;
    type TransactionData = ();
}

#[test]
fn collector_holds_its_path() {
    let collector = PublicTxCollector::new("/tmp/sui/sui_cache_updates.sock");
    assert_eq!(collector.path, "/tmp/sui/sui_cache_updates.sock");
    assert_eq!(collector.name(), "PublicTxCollector");
}

fn frame_bytes(effects: &[u8], events: &[u8]) -> Vec<u8> {
    let mut bytes = (effects.len() as u32).to_be_bytes().to_vec();
    bytes.extend_from_slice(effects);
    bytes.extend_from_slice(&(events.len() as u32).to_be_bytes());
    bytes.extend_from_slice(events);
    bytes
}

/// Reads a stream until the wanted bytes are not there.
fn read_stream(mut stream: &[u8]) -> (FrameReader, Vec<(Vec<u8>, Vec<u8>)>) {
    let mut reader = FrameReader::new();
    let mut frames = Vec::new();
    while reader.wanted() <= stream.len() {
        let (bytes, rest) = stream.split_at(reader.wanted());
        stream = rest;
        let (next, frame) = reader.advance(bytes.to_vec());
        reader = next;
        if let Some(Frame { effects, events }) = frame {
            frames.push((effects, events));
        }
        if stream.is_empty() && reader.wanted() > 0 {
            break;
        }
    }
    (reader, frames)
}

#[test]
fn lengths_are_big_endian() {
    let (reader, frame) = FrameReader::new().advance(vec![0x01, 0x02, 0x03, 0x04]);
    assert!(frame.is_none());
    assert_eq!(reader.wanted(), 0x0102_0304);
    let (reader, _) = FrameReader::new().advance(vec![0xff, 0xff, 0xff, 0xff]);
    assert_eq!(reader.wanted(), 0xffff_ffff);
}

#[test]
fn stream_of_frames_is_read_back() {
    let frames: Vec<(Vec<u8>, Vec<u8>)> = vec![
        (vec![1, 2, 3], b"[]".to_vec()),
        (vec![], vec![]),
        (vec![0; 300], vec![]),
        (vec![], b"[1]".to_vec()),
    ];
    let mut stream = Vec::new();
    for (effects, events) in &frames {
        stream.extend(frame_bytes(effects, events));
    }
    let (reader, read) = read_stream(&stream);
    assert_eq!(read, frames);
    assert!(matches!(reader, FrameReader::EffectsLen));
}

#[test]
fn torn_frame_is_not_given() {
    let first = (vec![9, 9], b"[2]".to_vec());
    let torn = frame_bytes(&[1, 2, 3], b"[1,2]");
    for cut in 0..torn.len() {
        let mut stream = frame_bytes(&first.0, &first.1);
        stream.extend_from_slice(&torn[..cut]);
        let (_, read) = read_stream(&stream);
        assert_eq!(read, vec![first.clone()]);
    }
}

#[test]
fn read_by_read() {
    let reader = FrameReader::new();
    assert_eq!(reader.wanted(), 4);
    let (reader, action) = reader.on_read(Some(vec![0, 0, 0, 2]));
    assert!(matches!(action, SocketAction::Read));
    assert_eq!(reader.wanted(), 2);
    let (reader, action) = reader.on_read(Some(vec![5, 6]));
    assert!(matches!(action, SocketAction::Read));
    assert_eq!(reader.wanted(), 4);
    let (reader, action) = reader.on_read(Some(vec![0, 0, 0, 1]));
    assert!(matches!(action, SocketAction::Read));
    assert_eq!(reader.wanted(), 1);
    let (reader, action) = reader.on_read(Some(vec![7]));
    match action {
        SocketAction::Decode(frame) => {
            assert_eq!(frame.effects, vec![5, 6]);
            assert_eq!(frame.events, vec![7]);
        }
        _ => panic!("the frame is complete"),
    }
    assert!(matches!(reader, FrameReader::EffectsLen));
}

#[test]
fn failed_read_starts_over_at_a_boundary() {
    let readers = vec![
        FrameReader::EffectsLen,
        FrameReader::Effects { len: 3 },
        FrameReader::EventsLen { effects: vec![1] },
        FrameReader::Events { effects: vec![1], len: 2 },
    ];
    for reader in readers {
        let (reader, action) = reader.on_read(None);
        assert!(matches!(action, SocketAction::Reconnect));
        assert!(matches!(reader, FrameReader::EffectsLen));
        assert_eq!(reader.wanted(), 4);
    }
}

type Decoded = Result<Option<Event<Toy, u32>>, FrameError<bincode::Error, serde_json::Error>>;

fn decode(effects: Vec<u8>, events: &[u8]) -> Decoded {
    let decoders = FrameDecoders {
        effects: |bytes: &Vec<u8>| bincode::deserialize::<u64>(bytes),
        events: |bytes: &Vec<u8>| serde_json::from_slice::<Vec<u32>>(bytes),
        convert_effects: |raw: u64| if raw == 13 { None } else { Some(format!("effects {}", raw)) },
    };
    decode_frame(Frame { effects, events: events.to_vec() }, &decoders)
}

fn encoded(n: u64) -> Vec<u8> {
    bincode::serialize(&n).unwrap()
}

#[test]
fn frame_is_decoded() {
    match decode(encoded(5), b"[1, 2]") {
        Ok(Some(Event::PublicTx(effects, events))) => {
            assert_eq!(effects, "effects 5");
            assert_eq!(events, vec![1, 2]);
        }
        _ => panic!("the frame is valid"),
    }
}

#[test]
fn frame_without_events_has_none() {
    match decode(encoded(6), b"") {
        Ok(Some(Event::PublicTx(effects, events))) => {
            assert_eq!(effects, "effects 6");
            assert!(events.is_empty());
        }
        _ => panic!("the frame is valid"),
    }
}

#[test]
fn invalid_effects_are_reported_first() {
    assert!(matches!(decode(vec![1, 2], b"no json"), Err(FrameError::Effects(_))));
}

#[test]
fn invalid_events_are_reported() {
    assert!(matches!(decode(encoded(5), b"no json"), Err(FrameError::Events(_))));
    assert!(matches!(decode(encoded(13), b"no json"), Err(FrameError::Events(_))));
}

#[test]
fn effects_that_cannot_be_converted_give_no_event() {
    assert!(matches!(decode(encoded(13), b"[1]"), Ok(None)));
}

#[test]
fn same_frame_gives_the_same_report() {
    let show = |decoded: Decoded| match decoded {
        Ok(Some(Event::PublicTx(effects, events))) => format!("{} {:?}", effects, events),
        Ok(Some(Event::PrivateTx(()))) => panic!("the socket carries public transactions"),
        Ok(None) => "nothing".to_string(),
        Err(FrameError::Effects(_)) => "effects".to_string(),
        Err(FrameError::Events(_)) => "events".to_string(),
    };
    for (effects, events) in [
        (encoded(1), &b"[3]"[..]),
        (encoded(1), &b""[..]),
        (encoded(13), &b""[..]),
        (vec![], &b"[3]"[..]),
        (encoded(2), &b"{}"[..]),
    ] {
        assert_eq!(show(decode(effects.clone(), events)), show(decode(effects, events)));
    }
}

#[test]
fn failed_read_costs_only_the_frame_at_hand() {
    let reads = vec![
        Some(vec![0, 0, 0, 1]),
        Some(vec![1]),
        Some(vec![0, 0, 0, 0]),
        Some(vec![]),
        Some(vec![0, 0, 0, 2]),
        None,
        Some(vec![0, 0, 0, 0]),
        Some(vec![]),
        Some(vec![0, 0, 0, 1]),
        Some(vec![9]),
    ];
    let mut reader = FrameReader::new();
    let mut frames = Vec::new();
    let mut reconnects = 0;
    for read in reads {
        let (next, action) = reader.on_read(read);
        reader = next;
        match action {
            SocketAction::Read => {}
            SocketAction::Reconnect => reconnects += 1,
            SocketAction::Decode(frame) => frames.push((frame.effects, frame.events)),
        }
    }
    assert_eq!(reconnects, 1);
    assert_eq!(frames, vec![(vec![1], vec![]), (vec![], vec![9])]);
}

/// What is given out for the bytes of a stream.
fn given_out(stream: &[u8]) -> Vec<(String, Vec<u32>)> {
    let (_, frames) = read_stream(stream);
    let mut given = Vec::new();
    for (effects, events) in frames {
        if let Ok(Some(Event::PublicTx(effects, events))) = decode(effects, &events) {
            given.push((effects, events));
        }
    }
    given
}

#[test]
fn undecodable_frame_changes_nothing() {
    let mut before = frame_bytes(&encoded(1), b"[1]");
    before.extend(frame_bytes(&encoded(2), b""));
    let after = frame_bytes(&encoded(3), b"[2, 3]");
    let mut clean = before.clone();
    clean.extend_from_slice(&after);
    let mut halves = given_out(&before);
    halves.extend(given_out(&after));
    let expected = vec![
        ("effects 1".to_string(), vec![1]),
        ("effects 2".to_string(), vec![]),
        ("effects 3".to_string(), vec![2, 3]),
    ];
    assert_eq!(halves, expected);
    assert_eq!(given_out(&clean), expected);
    for spoiled in [
        frame_bytes(&[1, 2], b"[1]"),
        frame_bytes(&[], b""),
        frame_bytes(&encoded(4), b"no json"),
        frame_bytes(&encoded(13), b"[1]"),
    ] {
        let mut stream = before.clone();
        stream.extend_from_slice(&spoiled);
        stream.extend_from_slice(&after);
        assert_eq!(given_out(&stream), expected);
    }
}
