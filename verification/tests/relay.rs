use arb_collector::chain::{Chain, Event};
use arb_collector::relay::{
    decode_tx_bytes, relay_event, PrivateTxCollector, RelayError, TxMessage, TxMessageError,
};
use fastcrypto::encoding::{Base64, Encoding};

struct Toy;

impl Chain for Toy {
    type Digest = ();
    type RawEffects = ();
    type Effects = ();
    type PackageId = ();
    type Address = ();
    type Module = ();
    type TypeTag = ();
    type RpcEvent = ();
    type TransactionData = u32;
}

fn decode(bytes: &Vec<u8>) -> Result<u32, bcs::Error> {
    bcs::from_bytes::<u32>(bytes)
}

fn message(tx_bytes: &str) -> TxMessage {
    TxMessage { tx_bytes: tx_bytes.to_string() }
}

#[test]
fn collector_holds_its_url() {
    let collector = PrivateTxCollector::new("ws://relay.example:9000/feed");
    assert_eq!(collector.ws_url, "ws://relay.example:9000/feed");
    assert_eq!(collector.name(), "PrivateTxCollector");
}

#[test]
fn default_message_is_empty() {
    assert_eq!(TxMessage::default().tx_bytes, "");
}

#[test]
fn message_is_decoded_from_base64() {
    let raw = |bytes: &Vec<u8>| -> Result<Vec<u8>, ()> { Ok(bytes.clone()) };
    assert!(matches!(message("aGVsbG8=").try_into_data(&raw), Ok(bytes) if bytes == b"hello"));
    assert!(matches!(message("").try_into_data(&raw), Ok(bytes) if bytes.is_empty()));
    assert!(matches!(message("+/8=").try_into_data(&raw), Ok(bytes) if bytes == [0xfb, 0xff]));
}

#[test]
fn message_holds_a_transaction() {
    // The number 0x04030201 in four bytes, the least significant first.
    assert!(matches!(message("AQIDBA==").try_into_data(&decode), Ok(0x0403_0201)));
}

#[test]
fn text_that_is_not_base64_is_refused() {
    for text in ["aGVsbG8", "aGVsbG8*", "aGVs bG8=", "=", "aGVsbG9=="] {
        assert!(matches!(message(text).try_into_data(&decode), Err(TxMessageError::Base64)));
    }
}

#[test]
fn bytes_that_are_no_transaction_are_refused() {
    assert!(matches!(message("AQID").try_into_data(&decode), Err(TxMessageError::Bcs(_))));
    assert!(matches!(message("AQIDBAU=").try_into_data(&decode), Err(TxMessageError::Bcs(_))));
}

#[test]
fn decoding_takes_the_bytes_as_given() {
    assert!(matches!(decode_tx_bytes(None, &decode), Err(TxMessageError::Base64)));
    assert!(matches!(decode_tx_bytes(Some(vec![7, 0, 0, 0]), &decode), Ok(7)));
    assert!(matches!(decode_tx_bytes(Some(vec![7]), &decode), Err(TxMessageError::Bcs(_))));
}

#[test]
fn relay_gives_events_and_errors() {
    let event = |item: Result<TxMessage, &'static str>| relay_event::<Toy, _, _, _>(item, &decode);
    assert!(matches!(event(Ok(message("AQAAAA=="))), Ok(Event::PrivateTx(1))));
    assert!(matches!(event(Err("closed")), Err(RelayError::Socket("closed"))));
    assert!(matches!(
        event(Ok(message("?"))),
        Err(RelayError::Message(TxMessageError::Base64))
    ));
    assert!(matches!(
        event(Ok(message("AQ=="))),
        Err(RelayError::Message(TxMessageError::Bcs(_)))
    ));
}

/// The events of a row, errors passed over.
fn relayed(items: Vec<Result<TxMessage, &'static str>>) -> Vec<u32> {
    let mut given = Vec::new();
    for item in items {
        match relay_event::<Toy, _, _, _>(item, &decode) {
            Ok(Event::PrivateTx(data)) => given.push(data),
            Ok(Event::PublicTx(..)) => panic!("the relay carries private transactions"),
            Err(_) => {}
        }
    }
    given
}

#[test]
fn errors_end_nothing() {
    let plain = vec![
        Ok(message("AQAAAA==")),
        Ok(message("?")),
        Ok(message("AgAAAA==")),
        Ok(message("AQAAAA==")),
    ];
    let broken = vec![
        Err("reset"),
        Ok(message("AQAAAA==")),
        Err("reset"),
        Err("closed"),
        Ok(message("?")),
        Ok(message("AgAAAA==")),
        Err("closed"),
        Ok(message("AQAAAA==")),
        Err("reset"),
    ];
    assert_eq!(relayed(plain), vec![1, 2, 1]);
    assert_eq!(relayed(broken), vec![1, 2, 1]);
    assert!(relayed(vec![Err("closed")]).is_empty());
}

#[test]
fn written_transaction_is_given_back() {
    for data in [0u32, 1, 0x0403_0201, u32::MAX] {
        let text = Base64::encode(bcs::to_bytes(&data).unwrap());
        assert!(matches!(message(&text).try_into_data(&decode), Ok(held) if held == data));
        assert_eq!(relayed(vec![Ok(message(&text))]), vec![data]);
    }
}

#[test]
fn written_bytes_are_given_back() {
    let raw = |bytes: &Vec<u8>| -> Result<Vec<u8>, ()> { Ok(bytes.clone()) };
    for len in 0..80u8 {
        let bytes: Vec<u8> = (0..len).map(|n| n.wrapping_mul(37) ^ len).collect();
        let text = Base64::encode(&bytes);
        assert!(matches!(message(&text).try_into_data(&raw), Ok(held) if held == bytes));
    }
}
