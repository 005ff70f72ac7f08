//! The values of the chain that pass through a collector, and the events it gives out.

use crate::json::{JsonModel, JsonValue};
use vstd::prelude::*;

verus! {

/// The types of one chain's own values. The collectors move them about and never look inside.
pub trait Chain {
    /// The digest of a transaction.
    type Digest: Copy;

    /// The effects of a transaction as they are encoded.
    type RawEffects;

    /// The effects of a transaction as the events report them.
    type Effects;

    /// The identity of a package.
    type PackageId;

    /// The address of an account.
    type Address;

    /// The name of a module.
    type Module;

    /// The type of an event.
    type TypeTag;

    /// An event that reached the collector fully decoded.
    type RpcEvent;

    /// The data of a transaction that has not run yet.
    type TransactionData;
}

/// The identity of an event: its transaction, and its place among that transaction's events.
#[verifier::reject_recursive_types(C)]
pub struct EventId<C: Chain> {
    pub tx_digest: C::Digest,
    pub event_seq: u64,
}

/// The encoded contents of an event, with the text encoding they are shown in.
pub enum BcsEvent {
    Base64 { bcs: Vec<u8> },
}

/// An event that a transaction emitted.
#[verifier::reject_recursive_types(C)]
pub struct SuiEvent<C: Chain> {
    pub id: EventId<C>,
    pub package_id: C::PackageId,
    pub transaction_module: C::Module,
    pub sender: C::Address,
    pub type_: C::TypeTag,
    pub parsed_json: JsonValue,
    pub bcs: BcsEvent,
    pub timestamp_ms: Option<u64>,
}

/// What a [`SuiEvent`] says, as a mathematical value.
#[verifier::ext_equal]
#[verifier::reject_recursive_types(C)]
pub struct SuiEventModel<C: Chain> {
    pub tx_digest: C::Digest,
    pub event_seq: nat,
    pub package_id: C::PackageId,
    pub transaction_module: C::Module,
    pub sender: C::Address,
    pub type_: C::TypeTag,
    pub parsed_json: JsonModel,
    pub bcs: Seq<u8>,
    pub timestamp_ms: Option<u64>,
}

impl<C: Chain> View for SuiEvent<C> {
    type V = SuiEventModel<C>;

    open spec fn view(&self) -> SuiEventModel<C> {
        SuiEventModel {
            tx_digest: self.id.tx_digest,
            event_seq: self.id.event_seq as nat,
            package_id: self.package_id,
            transaction_module: self.transaction_module,
            sender: self.sender,
            type_: self.type_,
            parsed_json: crate::json::json_model(self.parsed_json),
            bcs: self.bcs->bcs@,
            timestamp_ms: self.timestamp_ms,
        }
    }
}

/// What a collector gives out. `S` is the form in which a transaction's events are held.
#[verifier::reject_recursive_types(C)]
#[verifier::reject_recursive_types(S)]
pub enum Event<C: Chain, S> {
    /// A transaction that has run: its effects and the events it emitted.
    PublicTx(C::Effects, Vec<S>),
    /// A transaction that has not run yet.
    PrivateTx(C::TransactionData),
}

/// What an [`Event`] says, as a mathematical value.
#[verifier::ext_equal]
#[verifier::reject_recursive_types(C)]
#[verifier::reject_recursive_types(M)]
pub enum EventModel<C: Chain, M> {
    PublicTx(C::Effects, Seq<M>),
    PrivateTx(C::TransactionData),
}

/// What each of a list of events says.
pub open spec fn sui_event_models<C: Chain>(events: Seq<SuiEvent<C>>) -> Seq<SuiEventModel<C>> {
    events.map_values(|event: SuiEvent<C>| event@)
}

impl<C: Chain> View for Event<C, SuiEvent<C>> {
    type V = EventModel<C, SuiEventModel<C>>;

    open spec fn view(&self) -> EventModel<C, SuiEventModel<C>> {
        match *self {
            Event::PublicTx(effects, events) => EventModel::PublicTx(
                effects,
                sui_event_models(events@),
            ),
            Event::PrivateTx(data) => EventModel::PrivateTx(data),
        }
    }
}

/// The model of an event shows all of it, field by field.
pub proof fn law_model_shows_the_whole_event<C: Chain>(event: SuiEvent<C>, bytes: Vec<u8>)
    requires
        event.bcs == (BcsEvent::Base64 { bcs: bytes }),
    ensures
        event@.tx_digest == event.id.tx_digest,
        event@.event_seq == event.id.event_seq,
        event@.package_id == event.package_id,
        event@.transaction_module == event.transaction_module,
        event@.sender == event.sender,
        event@.type_ == event.type_,
        event@.parsed_json == crate::json::json_model(event.parsed_json),
        event@.bcs == bytes@,
        event@.timestamp_ms == event.timestamp_ms,
{
}

/// The model of what is given out shows all of it: the effects with every event in its place, or
/// the transaction.
pub proof fn law_model_shows_all_that_is_given_out<C: Chain>(event: Event<C, SuiEvent<C>>)
    ensures
        match event {
            Event::PublicTx(effects, events) => event@ matches EventModel::PublicTx(shown, models)
                && {
                &&& shown == effects
                &&& models.len() == events@.len()
                &&& forall|i: int| 0 <= i < models.len() ==> #[trigger] models[i] == events@[i]@
            },
            Event::PrivateTx(data) => event@ == EventModel::<C, SuiEventModel<C>>::PrivateTx(data),
        },
{
}

/// The model of a list of events shows every one of them, in its place, and nothing else.
pub proof fn law_list_model_shows_every_event<C: Chain>(events: Seq<SuiEvent<C>>)
    ensures
        sui_event_models(events).len() == events.len(),
        forall|i: int|
            0 <= i < events.len() ==> #[trigger] sui_event_models(events)[i] == events[i]@,
{
}

} // verus!
