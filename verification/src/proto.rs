//! The messages of a checkpoint subscription, as far as a collector reads them.

use crate::json::ProtoValue;
use vstd::prelude::*;

verus! {

/// One message of the stream: a checkpoint and its place in the stream.
pub struct SubscribeCheckpointsResponse {
    pub cursor: Option<u64>,
    pub checkpoint: Option<Checkpoint>,
}

/// A checkpoint: the transactions that it holds, in their order.
pub struct Checkpoint {
    pub transactions: Vec<ExecutedTransaction>,
}

/// A transaction that has run.
pub struct ExecutedTransaction {
    pub digest: Option<String>,
    pub effects: Option<TransactionEffects>,
    pub events: Option<TransactionEvents>,
}

/// The effects of a transaction.
pub struct TransactionEffects {
    pub bcs: Option<Bcs>,
}

/// A value in its binary encoding.
pub struct Bcs {
    pub value: Option<Vec<u8>>,
}

/// The events that a transaction emitted, in their order.
pub struct TransactionEvents {
    pub events: Vec<ProtoEvent>,
}

/// An event, its parts named by texts.
pub struct ProtoEvent {
    pub package_id: Option<String>,
    pub module: Option<String>,
    pub sender: Option<String>,
    pub event_type: Option<String>,
    pub contents: Option<Bcs>,
    pub json: Option<ProtoValue>,
}

impl SubscribeCheckpointsResponse {
    /// The place in the stream that the message reports; the start where it reports none.
    pub open spec fn position(self) -> u64 {
        match self.cursor {
            Some(cursor) => cursor,
            None => 0,
        }
    }

    /// The transactions of the checkpoint; none without a checkpoint.
    pub open spec fn transactions(self) -> Seq<ExecutedTransaction> {
        match self.checkpoint {
            Some(checkpoint) => checkpoint.transactions@,
            None => Seq::empty(),
        }
    }
}

impl SubscribeCheckpointsResponse {
    /// The place in the stream that the message reports; the start where it reports none.
    pub fn place(&self) -> (place: u64)
        ensures
            place == self.position(),
            self.cursor matches Some(cursor) ==> place == cursor,
            self.cursor is None ==> place == 0,
    {
        self.cursor.unwrap_or(0)
    }
}

impl ExecutedTransaction {
    /// The encoded effects, where the message holds them.
    pub open spec fn encoded_effects(self) -> Option<Vec<u8>> {
        match self.effects {
            Some(TransactionEffects { bcs: Some(Bcs { value: Some(bytes) }) }) => Some(bytes),
            _ => None,
        }
    }
}

/// The events in a message that may hold none.
pub open spec fn event_list(events: Option<TransactionEvents>) -> Seq<ProtoEvent> {
    match events {
        Some(events) => events.events@,
        None => Seq::empty(),
    }
}

impl ProtoEvent {
    /// The encoded contents; nothing where the message holds none.
    pub open spec fn encoded_contents(self) -> Seq<u8> {
        match self.contents {
            Some(Bcs { value: Some(bytes) }) => bytes@,
            _ => Seq::empty(),
        }
    }

    /// The JSON form of the contents; null where the message holds none, or one that has no
    /// JSON form.
    pub open spec fn json_contents(self) -> crate::json::JsonModel {
        match self.json {
            Some(value) => match crate::json::json_of(value) {
                Some(json) => json,
                None => crate::json::JsonModel::Null,
            },
            None => crate::json::JsonModel::Null,
        }
    }
}

/// The place of a message is its cursor, and the start of the stream without one.
pub proof fn law_place_is_the_cursor(resp: SubscribeCheckpointsResponse)
    ensures
        resp.cursor matches Some(cursor) ==> resp.position() == cursor,
        resp.cursor is None ==> resp.position() == 0,
{
}

/// A message holds all the transactions of its checkpoint, and none without one; a transaction
/// holds all the events that it lists, and none without a list.
pub proof fn law_lists_are_whole(
    resp: SubscribeCheckpointsResponse,
    events: Option<TransactionEvents>,
)
    ensures
        resp.checkpoint matches Some(checkpoint) ==> resp.transactions()
            == checkpoint.transactions@,
        resp.checkpoint is None ==> resp.transactions().len() == 0,
        events matches Some(list) ==> event_list(events) == list.events@,
        events is None ==> event_list(events).len() == 0,
{
}

} // verus!
