//! The feed of transactions that have not run yet, over the websocket of a relay.

use crate::chain::{Chain, Event};
use fastcrypto::encoding::{Base64, Encoding};
use fastcrypto::error::FastCryptoError;
use vstd::prelude::*;

verus! {

/// A collector that reads the websocket of a relay.
pub struct PrivateTxCollector {
    pub ws_url: String,
}

impl PrivateTxCollector {
    /// A collector for the relay at `ws_url`.
    pub fn new(ws_url: &str) -> (collector: Self)
        ensures
            collector.ws_url@ == ws_url@,
    {
        PrivateTxCollector { ws_url: ws_url.to_string() }
    }

    /// The name of the collector.
    pub fn name(&self) -> (name: &str)
        ensures
            name@ == "PrivateTxCollector"@,
    {
        "PrivateTxCollector"
    }
}

/// A message of the relay: a transaction in its binary encoding, written in Base64.
#[derive(Debug, Clone)]
pub struct TxMessage {
    pub tx_bytes: String,
}

impl Default for TxMessage {
    /// A message without content.
    fn default() -> (message: Self)
        ensures
            message.tx_bytes@ == Seq::<char>::empty(),
    {
        TxMessage { tx_bytes: String::new() }
    }
}

/// The error of `fastcrypto`.
#[verifier::external_type_specification]
#[verifier::external_body]
pub struct ExFastCryptoError(FastCryptoError);

/// The bytes that a text writes in Base64, where it is valid Base64: what
/// `fastcrypto::encoding::Base64::decode` gives.
pub uninterp spec fn base64_bytes(text: Seq<char>) -> Option<Seq<u8>>;

/// The text that writes bytes in Base64: what `fastcrypto::encoding::Base64::encode` gives.
pub uninterp spec fn base64_text(bytes: Seq<u8>) -> Seq<char>;

/// Calls `fastcrypto::encoding::Base64::decode`. Trusted: the call gives bytes or an error by the
/// text alone, the same for the same text; and for a text that
/// `fastcrypto::encoding::Base64::encode` gives for some bytes, it gives those bytes.
#[verifier::external_body]
fn base64_decode(text: &str) -> (bytes: Result<Vec<u8>, FastCryptoError>)
    ensures
        (match bytes {
            Ok(bytes) => Some(bytes@),
            Err(_) => None,
        }) == base64_bytes(text@),
        forall|content: Seq<u8>|
            text@ == #[trigger] base64_text(content) ==> (match bytes {
                Ok(bytes) => bytes@ == content,
                Err(_) => false,
            }),
{
    Base64::decode(text)
}

/// Why a message of the relay holds no transaction.
pub enum TxMessageError<X> {
    /// The text is not valid Base64.
    Base64,
    /// The bytes are not the encoding of a transaction.
    Bcs(X),
}

/// What a message holds, given the bytes that its text writes and what decoding them gave.
pub open spec fn decoded_data<D, X>(decoded: Option<Result<D, X>>) -> Result<D, TxMessageError<X>> {
    match decoded {
        None => Err(TxMessageError::Base64),
        Some(Ok(data)) => Ok(data),
        Some(Err(error)) => Err(TxMessageError::Bcs(error)),
    }
}

/// Decodes a transaction from the bytes that a text wrote, if it wrote any.
pub fn decode_tx_bytes<D, X, F: Fn(&Vec<u8>) -> Result<D, X>>(
    tx_bytes: Option<Vec<u8>>,
    decode: &F,
) -> (data: Result<D, TxMessageError<X>>)
    requires
        forall|bytes: Vec<u8>| #[trigger] call_requires(*decode, (&bytes,)),
    ensures
        match tx_bytes {
            None => data == decoded_data::<D, X>(None),
            Some(bytes) => exists|decoded: Result<D, X>| #[trigger]
                call_ensures(*decode, (&bytes,), decoded) && data == decoded_data(Some(decoded)),
        },
{
    let bytes = match tx_bytes {
        Some(bytes) => bytes,
        None => {
            return Err(TxMessageError::Base64);
        },
    };
    match decode(&bytes) {
        Ok(data) => Ok(data),
        Err(error) => Err(TxMessageError::Bcs(error)),
    }
}

/// The decoder gives `value` for bytes with this content, and nothing else.
pub open spec fn restores<D, X, F: Fn(&Vec<u8>) -> Result<D, X>>(
    decode: F,
    encoding: Seq<u8>,
    value: D,
) -> bool {
    forall|bytes: Vec<u8>, decoded: Result<D, X>|
        bytes@ == encoding && #[trigger] call_ensures(decode, (&bytes,), decoded) ==> decoded == Ok::<
            D,
            X,
        >(value)
}

impl TxMessage {
    /// `data` can be what the message holds: an error where its text is not Base64, and what the
    /// decoder gives for the bytes that the text writes otherwise.
    pub open spec fn holds<D, X, F: Fn(&Vec<u8>) -> Result<D, X>>(
        self,
        decode: F,
        data: Result<D, TxMessageError<X>>,
    ) -> bool {
        match base64_bytes(self.tx_bytes@) {
            None => data == decoded_data::<D, X>(None),
            Some(content) => exists|bytes: Vec<u8>, decoded: Result<D, X>|
                {
                    &&& bytes@ == content
                    &&& #[trigger] call_ensures(decode, (&bytes,), decoded)
                    &&& data == decoded_data(Some(decoded))
                },
        }
    }

    /// The transaction that the message holds. A transaction that was written into a message is
    /// what the message holds: for a text that writes its encoding in Base64, and a decoder that
    /// gives it back for its encoding.
    pub fn try_into_data<D, X, F: Fn(&Vec<u8>) -> Result<D, X>>(self, decode: &F) -> (data: Result<
        D,
        TxMessageError<X>,
    >)
        requires
            forall|bytes: Vec<u8>| #[trigger] call_requires(*decode, (&bytes,)),
        ensures
            self.holds(*decode, data),
            forall|encoding: Seq<u8>, value: D|
                self.tx_bytes@ == #[trigger] base64_text(encoding) && #[trigger] restores(
                    *decode,
                    encoding,
                    value,
                ) ==> data == Ok::<D, TxMessageError<X>>(value),
    {
        match base64_decode(self.tx_bytes.as_str()) {
            Ok(bytes) => decode_tx_bytes(Some(bytes), decode),
            Err(_) => decode_tx_bytes(None, decode),
        }
    }
}

/// Why the relay gave no event.
pub enum RelayError<W, X> {
    /// The websocket failed.
    Socket(W),
    /// The message holds no transaction.
    Message(TxMessageError<X>),
}

/// What is reported of a message, given what it holds.
pub open spec fn relay_report<C: Chain, W, X>(
    data: Result<C::TransactionData, TxMessageError<X>>,
) -> Result<Event<C, C::RpcEvent>, RelayError<W, X>> {
    match data {
        Ok(data) => Ok(Event::PrivateTx(data)),
        Err(error) => Err(RelayError::Message(error)),
    }
}

/// `event` can be what is reported of what the relay gave: the failure of the websocket, or what
/// the message holds.
pub open spec fn relay_gives<C: Chain, W, X, F: Fn(&Vec<u8>) -> Result<C::TransactionData, X>>(
    message: Result<TxMessage, W>,
    decode: F,
    event: Result<Event<C, C::RpcEvent>, RelayError<W, X>>,
) -> bool {
    match message {
        Err(error) => event == Err::<Event<C, C::RpcEvent>, RelayError<W, X>>(
            RelayError::Socket(error),
        ),
        Ok(message) => exists|data: Result<C::TransactionData, TxMessageError<X>>| #[trigger]
            message.holds(decode, data) && event == relay_report::<C, W, X>(data),
    }
}

/// What the relay gave, as an event. A transaction that was written into a message is given back.
pub fn relay_event<C: Chain, W, X, F: Fn(&Vec<u8>) -> Result<C::TransactionData, X>>(
    message: Result<TxMessage, W>,
    decode: &F,
) -> (event: Result<Event<C, C::RpcEvent>, RelayError<W, X>>)
    requires
        forall|bytes: Vec<u8>| #[trigger] call_requires(*decode, (&bytes,)),
    ensures
        relay_gives(message, *decode, event),
        forall|encoding: Seq<u8>, value: C::TransactionData|
            message is Ok && message->Ok_0.tx_bytes@ == #[trigger] base64_text(encoding)
                && #[trigger] restores(*decode, encoding, value) ==> event == Ok::<
                Event<C, C::RpcEvent>,
                RelayError<W, X>,
            >(Event::PrivateTx(value)),
{
    let message = match message {
        Ok(message) => message,
        Err(error) => {
            return Err(RelayError::Socket(error));
        },
    };
    match message.try_into_data(decode) {
        Ok(data) => Ok(Event::PrivateTx(data)),
        Err(error) => Err(RelayError::Message(error)),
    }
}

/// `outcomes` can be what is reported of each thing that the relay gave in a row.
pub open spec fn relay_gives_all<C: Chain, W, X, F: Fn(&Vec<u8>) -> Result<C::TransactionData, X>>(
    items: Seq<Result<TxMessage, W>>,
    decode: F,
    outcomes: Seq<Result<Event<C, C::RpcEvent>, RelayError<W, X>>>,
) -> bool {
    &&& outcomes.len() == items.len()
    &&& forall|i: int|
        0 <= i < items.len() ==> relay_gives(#[trigger] items[i], decode, outcomes[i])
}

/// What is given out in a row: the events, one after the other. Errors are passed over.
pub open spec fn relayed<E, R>(outcomes: Seq<Result<E, R>>) -> Seq<E>
    decreases outcomes.len(),
{
    if outcomes.len() == 0 {
        Seq::empty()
    } else {
        match outcomes.last() {
            Ok(event) => relayed(outcomes.drop_last()).push(event),
            Err(_) => relayed(outcomes.drop_last()),
        }
    }
}

/// The texts of the messages in a row, failures of the websocket left out.
pub open spec fn received<W>(items: Seq<Result<TxMessage, W>>) -> Seq<Seq<char>>
    decreases items.len(),
{
    if items.len() == 0 {
        Seq::empty()
    } else {
        match items.last() {
            Ok(message) => received(items.drop_last()).push(message.tx_bytes@),
            Err(_) => received(items.drop_last()),
        }
    }
}

/// The decoder gives one outcome for one content.
pub open spec fn decides<D, X, F: Fn(&Vec<u8>) -> Result<D, X>>(decode: F) -> bool {
    forall|bytes: Vec<u8>, same: Vec<u8>, one: Result<D, X>, two: Result<D, X>|
        bytes@ == same@ && #[trigger] call_ensures(decode, (&bytes,), one)
            && #[trigger] call_ensures(decode, (&same,), two) ==> one == two
}

/// An error ends nothing: what is given out around it is what the part before it gives out
/// followed by what the part after it does.
pub proof fn law_error_ends_nothing<E, R>(
    before: Seq<Result<E, R>>,
    error: R,
    after: Seq<Result<E, R>>,
)
    ensures
        relayed(before + seq![Err::<E, R>(error)] + after) == relayed(before) + relayed(after),
        relayed(before + seq![Err::<E, R>(error)] + after) == relayed(before + after),
    decreases after.len(),
{
    let with = before + seq![Err::<E, R>(error)] + after;
    let without = before + after;
    if after.len() == 0 {
        assert(with.drop_last() =~= before);
        assert(without =~= before);
        assert(relayed(before) + relayed(after) =~= relayed(before));
    } else {
        let init = after.drop_last();
        law_error_ends_nothing(before, error, init);
        assert(with.drop_last() =~= before + seq![Err::<E, R>(error)] + init);
        assert(without.drop_last() =~= before + init);
        assert(relayed(with) =~= relayed(before) + relayed(after));
    }
}

/// Failures of the websocket change nothing: with a decoder that gives one outcome for one
/// content, two rows with the same messages give out the same, whatever failures stand between
/// them.
pub proof fn law_socket_failures_change_nothing<
    C: Chain,
    W,
    X,
    F: Fn(&Vec<u8>) -> Result<C::TransactionData, X>,
>(
    items: Seq<Result<TxMessage, W>>,
    outcomes: Seq<Result<Event<C, C::RpcEvent>, RelayError<W, X>>>,
    others: Seq<Result<TxMessage, W>>,
    other_outcomes: Seq<Result<Event<C, C::RpcEvent>, RelayError<W, X>>>,
    decode: F,
)
    requires
        decides::<C::TransactionData, X, F>(decode),
        relay_gives_all(items, decode, outcomes),
        relay_gives_all(others, decode, other_outcomes),
        received(items) == received(others),
    ensures
        relayed(outcomes) == relayed(other_outcomes),
    decreases items.len() + others.len(),
{
    if items.len() > 0 && items.last() is Err {
        lemma_row_without_its_last(items, decode, outcomes);
        assert(relay_gives(items[items.len() - 1], decode, outcomes[items.len() - 1]));
        law_socket_failures_change_nothing(
            items.drop_last(),
            outcomes.drop_last(),
            others,
            other_outcomes,
            decode,
        );
    } else if others.len() > 0 && others.last() is Err {
        lemma_row_without_its_last(others, decode, other_outcomes);
        assert(relay_gives(others[others.len() - 1], decode, other_outcomes[others.len() - 1]));
        law_socket_failures_change_nothing(
            items,
            outcomes,
            others.drop_last(),
            other_outcomes.drop_last(),
            decode,
        );
    } else if items.len() > 0 {
        assert(received(items).last() == items.last()->Ok_0.tx_bytes@);
        assert(received(items).drop_last() =~= received(items.drop_last()));
        assert(others.len() > 0);
        assert(received(others).last() == others.last()->Ok_0.tx_bytes@);
        assert(received(others).drop_last() =~= received(others.drop_last()));
        lemma_row_without_its_last(items, decode, outcomes);
        lemma_row_without_its_last(others, decode, other_outcomes);
        law_socket_failures_change_nothing(
            items.drop_last(),
            outcomes.drop_last(),
            others.drop_last(),
            other_outcomes.drop_last(),
            decode,
        );
        assert(relay_gives(items[items.len() - 1], decode, outcomes[items.len() - 1]));
        assert(relay_gives(others[others.len() - 1], decode, other_outcomes[others.len() - 1]));
        lemma_message_gives_one_thing(
            items.last()->Ok_0,
            outcomes.last(),
            others.last()->Ok_0,
            other_outcomes.last(),
            decode,
        );
    } else if others.len() > 0 {
        assert(received(others).len() > 0);
    }
}

proof fn lemma_row_without_its_last<
    C: Chain,
    W,
    X,
    F: Fn(&Vec<u8>) -> Result<C::TransactionData, X>,
>(
    items: Seq<Result<TxMessage, W>>,
    decode: F,
    outcomes: Seq<Result<Event<C, C::RpcEvent>, RelayError<W, X>>>,
)
    requires
        items.len() > 0,
        relay_gives_all(items, decode, outcomes),
    ensures
        relay_gives_all(items.drop_last(), decode, outcomes.drop_last()),
{
    assert forall|i: int| 0 <= i < items.drop_last().len() implies relay_gives(
        #[trigger] items.drop_last()[i],
        decode,
        outcomes.drop_last()[i],
    ) by {
        assert(items.drop_last()[i] == items[i]);
    }
}

proof fn lemma_message_gives_one_thing<
    C: Chain,
    W,
    X,
    F: Fn(&Vec<u8>) -> Result<C::TransactionData, X>,
>(
    message: TxMessage,
    one: Result<Event<C, C::RpcEvent>, RelayError<W, X>>,
    same: TxMessage,
    two: Result<Event<C, C::RpcEvent>, RelayError<W, X>>,
    decode: F,
)
    requires
        decides::<C::TransactionData, X, F>(decode),
        message.tx_bytes@ == same.tx_bytes@,
        relay_gives(Ok::<TxMessage, W>(message), decode, one),
        relay_gives(Ok::<TxMessage, W>(same), decode, two),
    ensures
        one == two,
{
}

/// What a message holds is what the decoder gives for the bytes that its text writes, a
/// transaction or its error; only a text that is not Base64 is refused as such.
pub proof fn law_message_holds_what_its_bytes_decode_to<D, X, F: Fn(&Vec<u8>) -> Result<D, X>>(
    message: TxMessage,
    decode: F,
    data: Result<D, TxMessageError<X>>,
)
    requires
        message.holds(decode, data),
    ensures
        data matches Ok(value) ==> exists|bytes: Vec<u8>| #[trigger]
            call_ensures(decode, (&bytes,), Ok::<D, X>(value)) && (base64_bytes(message.tx_bytes@)
                matches Some(content) && content == bytes@),
        data matches Err(TxMessageError::Bcs(error)) ==> exists|bytes: Vec<u8>| #[trigger]
            call_ensures(decode, (&bytes,), Err::<D, X>(error)) && (base64_bytes(message.tx_bytes@)
                matches Some(content) && content == bytes@),
        data matches Err(TxMessageError::Base64) ==> base64_bytes(message.tx_bytes@) is None,
{
    if let Some(content) = base64_bytes(message.tx_bytes@) {
        let (bytes, decoded) = choose|bytes: Vec<u8>, decoded: Result<D, X>|
            {
                &&& bytes@ == content
                &&& #[trigger] call_ensures(decode, (&bytes,), decoded)
                &&& data == decoded_data(Some(decoded))
            };
        match decoded {
            Ok(value) => {
                assert(data == Ok::<D, TxMessageError<X>>(value));
                assert(decoded == Ok::<D, X>(data->Ok_0));
                assert(call_ensures(decode, (&bytes,), Ok::<D, X>(data->Ok_0)));
            },
            Err(error) => {
                assert(data == Err::<D, TxMessageError<X>>(TxMessageError::Bcs(error)));
                assert(decoded == Err::<D, X>(data->Err_0->Bcs_0));
                assert(call_ensures(decode, (&bytes,), Err::<D, X>(data->Err_0->Bcs_0)));
            },
        }
    }
}

/// What decoding gave is kept as it is: a transaction, or the error of the decoder; without bytes
/// there is nothing to decode.
pub proof fn law_decoded_data_is_kept<D, X>(decoded: Option<Result<D, X>>)
    ensures
        match decoded {
            None => decoded_data(decoded) == Err::<D, TxMessageError<X>>(TxMessageError::Base64),
            Some(Ok(data)) => decoded_data(decoded) == Ok::<D, TxMessageError<X>>(data),
            Some(Err(error)) => decoded_data(decoded) == Err::<D, TxMessageError<X>>(
                TxMessageError::Bcs(error),
            ),
        },
{
}

/// The relay reports each message as the transaction that its bytes decode to, not run yet. An
/// error tells what failed: the websocket where it did, and the message only where its text is not
/// Base64 or its bytes do not decode.
pub proof fn law_relay_reports_what_the_message_holds<
    C: Chain,
    W,
    X,
    F: Fn(&Vec<u8>) -> Result<C::TransactionData, X>,
>(
    item: Result<TxMessage, W>,
    decode: F,
    event: Result<Event<C, C::RpcEvent>, RelayError<W, X>>,
)
    requires
        relay_gives(item, decode, event),
    ensures
        item matches Err(failure) ==> (event matches Err(RelayError::Socket(error)) && error
            == failure),
        item matches Ok(message) ==> {
            &&& event !is Err || event->Err_0 is Message
            &&& event matches Ok(report) ==> (report matches Event::PrivateTx(data) && exists|
                bytes: Vec<u8>,
            | #[trigger]
                call_ensures(decode, (&bytes,), Ok::<C::TransactionData, X>(data)) && (
                base64_bytes(message.tx_bytes@) matches Some(content) && content == bytes@))
            &&& event matches Err(RelayError::Message(TxMessageError::Bcs(error))) ==> exists|
                bytes: Vec<u8>,
            | #[trigger]
                call_ensures(decode, (&bytes,), Err::<C::TransactionData, X>(error)) && (
                base64_bytes(message.tx_bytes@) matches Some(content) && content == bytes@)
            &&& event matches Err(RelayError::Message(TxMessageError::Base64)) ==> base64_bytes(
                message.tx_bytes@,
            ) is None
        },
{
    if let Ok(message) = item {
        let data = choose|data: Result<C::TransactionData, TxMessageError<X>>| #[trigger]
            message.holds(decode, data) && event == relay_report::<C, W, X>(data);
        law_message_holds_what_its_bytes_decode_to(message, decode, data);
        match data {
            Ok(value) => {
                assert(event->Ok_0 == Event::<C, C::RpcEvent>::PrivateTx(value));
                let bytes = choose|bytes: Vec<u8>| #[trigger]
                    call_ensures(decode, (&bytes,), Ok::<C::TransactionData, X>(value)) && (
                    base64_bytes(message.tx_bytes@) matches Some(content) && content == bytes@);
                assert(call_ensures(
                    decode,
                    (&bytes,),
                    Ok::<C::TransactionData, X>(event->Ok_0->PrivateTx_0),
                ));
            },
            Err(TxMessageError::Bcs(error)) => {
                assert(event->Err_0 == RelayError::<W, X>::Message(TxMessageError::Bcs(error)));
                let bytes = choose|bytes: Vec<u8>| #[trigger]
                    call_ensures(decode, (&bytes,), Err::<C::TransactionData, X>(error)) && (
                    base64_bytes(message.tx_bytes@) matches Some(content) && content == bytes@);
                assert(call_ensures(
                    decode,
                    (&bytes,),
                    Err::<C::TransactionData, X>(event->Err_0->Message_0->Bcs_0),
                ));
            },
            Err(TxMessageError::Base64) => {},
        }
    }
}

} // verus!
