//! Conversion of the events of one transaction.

use crate::chain::{BcsEvent, Chain, EventId, SuiEvent, SuiEventModel};
use crate::json::{prost_value_to_serde_json, JsonValue};
use crate::proto::{Bcs, ProtoEvent, TransactionEvents};
use vstd::prelude::*;

verus! {

/// How the texts that name the parts of an event are read. Each reader gives the value that a
/// text names, or nothing for a text that names none.
pub struct EventReaders<P, A, M, T> {
    pub package_id: P,
    pub sender: A,
    pub module: M,
    pub type_tag: T,
}

/// The reader takes every input.
pub open spec fn total<I, O, F: Fn(&I) -> Option<O>>(reader: F) -> bool {
    forall|input: I| #[trigger] call_requires(reader, (&input,))
}

/// `value` can be what the reader gives for an input that may be missing. A missing input is
/// not handed to the reader, and gives nothing.
pub open spec fn reads<I, O, F: Fn(&I) -> Option<O>>(
    reader: F,
    input: Option<I>,
    value: Option<O>,
) -> bool {
    match input {
        Some(input) => call_ensures(reader, (&input,), value),
        None => value is None,
    }
}

/// Reads an input that may be missing.
pub fn read_optional<I, O, F: Fn(&I) -> Option<O>>(reader: &F, input: &Option<I>) -> (value: Option<
    O,
>)
    requires
        total::<I, O, F>(*reader),
    ensures
        reads(*reader, *input, value),
        input matches Some(given) ==> call_ensures(*reader, (&given,), value),
        input is None ==> value is None,
{
    match input {
        Some(input) => reader(input),
        None => None,
    }
}

/// What the readers gave for the parts of one event.
#[verifier::reject_recursive_types(C)]
pub struct EventParts<C: Chain> {
    pub package_id: Option<C::PackageId>,
    pub sender: Option<C::Address>,
    pub module: Option<C::Module>,
    pub type_: Option<C::TypeTag>,
}

impl<P, A, M, T> EventReaders<P, A, M, T> {
    /// Every reader takes every text.
    pub open spec fn total<C: Chain>(self) -> bool where
        P: Fn(&String) -> Option<C::PackageId>,
        A: Fn(&String) -> Option<C::Address>,
        M: Fn(&String) -> Option<C::Module>,
        T: Fn(&String) -> Option<C::TypeTag>,
     {
        &&& total::<String, C::PackageId, P>(self.package_id)
        &&& total::<String, C::Address, A>(self.sender)
        &&& total::<String, C::Module, M>(self.module)
        &&& total::<String, C::TypeTag, T>(self.type_tag)
    }

    /// `parts` can be what the readers gave for the event. They are asked in turn, and no
    /// further once a part is missing.
    pub open spec fn read<C: Chain>(self, event: ProtoEvent, parts: EventParts<C>) -> bool where
        P: Fn(&String) -> Option<C::PackageId>,
        A: Fn(&String) -> Option<C::Address>,
        M: Fn(&String) -> Option<C::Module>,
        T: Fn(&String) -> Option<C::TypeTag>,
     {
        &&& event.event_type is Some ==> reads(self.package_id, event.package_id, parts.package_id)
        &&& event.event_type is Some && parts.package_id is Some ==> reads(
            self.sender,
            event.sender,
            parts.sender,
        )
        &&& event.event_type is Some && parts.package_id is Some && parts.sender is Some ==> reads(
            self.module,
            event.module,
            parts.module,
        )
        &&& event.event_type is Some && parts.package_id is Some && parts.sender is Some
            && parts.module is Some ==> reads(self.type_tag, event.event_type, parts.type_)
    }

    /// `parts` can be what the readers gave for each of the events.
    pub open spec fn read_all<C: Chain>(
        self,
        events: Seq<ProtoEvent>,
        parts: Seq<EventParts<C>>,
    ) -> bool where
        P: Fn(&String) -> Option<C::PackageId>,
        A: Fn(&String) -> Option<C::Address>,
        M: Fn(&String) -> Option<C::Module>,
        T: Fn(&String) -> Option<C::TypeTag>,
     {
        &&& parts.len() == events.len()
        &&& forall|i: int| 0 <= i < events.len() ==> self.read(#[trigger] events[i], parts[i])
    }
}

/// The event that one message and the parts read from it make. It takes a type, a package, a
/// sender and a module, all of them named and read; with any of them missing there is none.
pub open spec fn event_of<C: Chain>(
    event_seq: nat,
    event: ProtoEvent,
    parts: EventParts<C>,
    tx_digest: C::Digest,
) -> Option<SuiEventModel<C>> {
    match (event.event_type, parts.package_id, parts.sender, parts.module, parts.type_) {
        (Some(_), Some(package_id), Some(sender), Some(module), Some(type_)) => Some(
            SuiEventModel {
                tx_digest,
                event_seq,
                package_id,
                transaction_module: module,
                sender,
                type_,
                parsed_json: event.json_contents(),
                bcs: event.encoded_contents(),
                timestamp_ms: None,
            },
        ),
        _ => None,
    }
}

/// The events that a transaction's messages make, in their order. Each is numbered by its place
/// among all the messages, those that make no event included.
pub open spec fn events_of<C: Chain>(
    events: Seq<ProtoEvent>,
    parts: Seq<EventParts<C>>,
    tx_digest: C::Digest,
) -> Seq<SuiEventModel<C>>
    decreases events.len(),
{
    if events.len() == 0 {
        Seq::empty()
    } else {
        let last = events.len() - 1;
        let rest = events_of(events.drop_last(), parts, tx_digest);
        match event_of(last as nat, events[last], parts[last], tx_digest) {
            Some(event) => rest.push(event),
            None => rest,
        }
    }
}

/// The events of some messages depend on the parts of those messages alone.
proof fn lemma_events_of_reads_no_further<C: Chain>(
    events: Seq<ProtoEvent>,
    parts: Seq<EventParts<C>>,
    others: Seq<EventParts<C>>,
    tx_digest: C::Digest,
)
    requires
        forall|i: int| 0 <= i < events.len() ==> parts[i] == others[i],
    ensures
        events_of(events, parts, tx_digest) == events_of(events, others, tx_digest),
    decreases events.len(),
{
    if events.len() > 0 {
        lemma_events_of_reads_no_further(events.drop_last(), parts, others, tx_digest);
    }
}

/// Reads the parts of one event.
pub fn read_parts<C: Chain, P, A, M, T>(
    event: &ProtoEvent,
    readers: &EventReaders<P, A, M, T>,
) -> (parts: EventParts<C>) where
    P: Fn(&String) -> Option<C::PackageId>,
    A: Fn(&String) -> Option<C::Address>,
    M: Fn(&String) -> Option<C::Module>,
    T: Fn(&String) -> Option<C::TypeTag>,

    requires
        readers.total::<C>(),
    ensures
        readers.read(*event, parts),
        event.event_type is None ==> parts.package_id is None,
        parts.package_id is None ==> parts.sender is None,
        parts.sender is None ==> parts.module is None,
        parts.module is None ==> parts.type_ is None,
{
    let mut parts: EventParts<C> = EventParts {
        package_id: None,
        sender: None,
        module: None,
        type_: None,
    };
    if event.event_type.is_none() {
        return parts;
    }
    parts.package_id = read_optional(&readers.package_id, &event.package_id);
    if parts.package_id.is_none() {
        return parts;
    }
    parts.sender = read_optional(&readers.sender, &event.sender);
    if parts.sender.is_none() {
        return parts;
    }
    parts.module = read_optional(&readers.module, &event.module);
    if parts.module.is_none() {
        return parts;
    }
    parts.type_ = read_optional(&readers.type_tag, &event.event_type);
    parts
}

/// Makes an event of one message and the parts read from it.
pub fn build_event<C: Chain>(
    event_seq: u64,
    event: ProtoEvent,
    parts: EventParts<C>,
    tx_digest: C::Digest,
) -> (built: Option<SuiEvent<C>>)
    ensures
        built is Some <==> event_of(event_seq as nat, event, parts, tx_digest) is Some,
        built matches Some(built) ==> event_of(event_seq as nat, event, parts, tx_digest) == Some(
            built@,
        ),
        built matches Some(built) ==> {
            &&& built.id.tx_digest == tx_digest
            &&& built.id.event_seq == event_seq
            &&& event.contents matches Some(Bcs { value: Some(bytes) }) ==> built.bcs->bcs@
                == bytes@
            &&& built.timestamp_ms is None
        },
{
    match (event.event_type, parts.package_id, parts.sender, parts.module, parts.type_) {
        (Some(_), Some(package_id), Some(sender), Some(module), Some(type_)) => {
            let parsed_json = match event.json {
                Some(value) => prost_value_to_serde_json(value).unwrap_or(JsonValue::Null),
                None => JsonValue::Null,
            };
            let bcs: Vec<u8> = match event.contents {
                Some(Bcs { value: Some(bytes) }) => bytes,
                _ => Vec::new(),
            };
            Some(
                SuiEvent {
                    id: EventId { tx_digest, event_seq },
                    package_id,
                    transaction_module: module,
                    sender,
                    type_,
                    parsed_json,
                    bcs: BcsEvent::Base64 { bcs },
                    timestamp_ms: None,
                },
            )
        },
        _ => None,
    }
}

/// Converts the events of one transaction.
pub fn convert_proto_events<C: Chain, P, A, M, T>(
    proto_events: Option<TransactionEvents>,
    tx_digest: C::Digest,
    readers: &EventReaders<P, A, M, T>,
) -> (events: Vec<SuiEvent<C>>) where
    P: Fn(&String) -> Option<C::PackageId>,
    A: Fn(&String) -> Option<C::Address>,
    M: Fn(&String) -> Option<C::Module>,
    T: Fn(&String) -> Option<C::TypeTag>,

    requires
        readers.total::<C>(),
    ensures
        exists|parts: Seq<EventParts<C>>|
            {
                &&& #[trigger] readers.read_all(crate::proto::event_list(proto_events), parts)
                &&& crate::chain::sui_event_models(events@) == events_of(
                    crate::proto::event_list(proto_events),
                    parts,
                    tx_digest,
                )
            },
{
    let ghost list = crate::proto::event_list(proto_events);
    let ghost mut all_parts: Seq<EventParts<C>> = Seq::empty();
    let mut events: Vec<SuiEvent<C>> = Vec::new();
    let tx_events = match proto_events {
        Some(tx_events) => tx_events,
        None => {
            assert(readers.read_all(list, all_parts));
            assert(crate::chain::sui_event_models(events@) =~= events_of(list, all_parts, tx_digest));
            return events;
        },
    };
    let count: usize = tx_events.events.len();
    let mut event_seq: u64 = 0;
    for proto_event in it: tx_events.events.into_iter()
        invariant
            readers.total::<C>(),
            it.seq() == list,
            event_seq == it.index(),
            list.len() == count,
            all_parts.len() == it.index(),
            forall|i: int|
                0 <= i < it.index() ==> readers.read(#[trigger] list[i], all_parts[i]),
            crate::chain::sui_event_models(events@) == events_of(
                list.take(it.index() as int),
                all_parts,
                tx_digest,
            ),
    {
        let parts: EventParts<C> = read_parts(&proto_event, readers);
        let ghost before = all_parts;
        let ghost done = events@;
        proof {
            all_parts = all_parts.push(parts);
            let shown = list.take(it.index() + 1);
            assert(shown.drop_last() =~= list.take(it.index() as int));
            lemma_events_of_reads_no_further(shown.drop_last(), before, all_parts, tx_digest);
        }
        if let Some(event) = build_event(event_seq, proto_event, parts, tx_digest) {
            events.push(event);
            assert(crate::chain::sui_event_models(events@)
                =~= crate::chain::sui_event_models(done).push(event@));
        }
        event_seq += 1;
    }
    assert(list.take(list.len() as int) =~= list);
    assert(readers.read_all(list, all_parts));
    events
}

/// The reader gives one value for one input.
pub open spec fn deterministic<I, O, F: Fn(&I) -> Option<O>>(reader: F) -> bool {
    forall|input: I, value: Option<O>, other: Option<O>|
        #[trigger] call_ensures(reader, (&input,), value) && #[trigger] call_ensures(
            reader,
            (&input,),
            other,
        ) ==> value == other
}

impl<P, A, M, T> EventReaders<P, A, M, T> {
    /// Every reader gives one value for one text.
    pub open spec fn deterministic<C: Chain>(self) -> bool where
        P: Fn(&String) -> Option<C::PackageId>,
        A: Fn(&String) -> Option<C::Address>,
        M: Fn(&String) -> Option<C::Module>,
        T: Fn(&String) -> Option<C::TypeTag>,
     {
        &&& deterministic::<String, C::PackageId, P>(self.package_id)
        &&& deterministic::<String, C::Address, A>(self.sender)
        &&& deterministic::<String, C::Module, M>(self.module)
        &&& deterministic::<String, C::TypeTag, T>(self.type_tag)
    }
}

/// Events keep their order and their numbers: each event given out is the one that the message
/// at its number makes, the numbers rise strictly, and no message that makes an event is left out.
pub proof fn law_events_keep_their_numbers<C: Chain>(
    events: Seq<ProtoEvent>,
    parts: Seq<EventParts<C>>,
    tx_digest: C::Digest,
)
    ensures
        forall|k: int|
            0 <= k < events_of(events, parts, tx_digest).len() ==> {
                let event = #[trigger] events_of(events, parts, tx_digest)[k];
                &&& event.event_seq < events.len()
                &&& event_of(
                    event.event_seq,
                    events[event.event_seq as int],
                    parts[event.event_seq as int],
                    tx_digest,
                ) == Some(event)
            },
        forall|j: int, k: int|
            0 <= j < k < events_of(events, parts, tx_digest).len() ==> (
            #[trigger] events_of(events, parts, tx_digest)[j]).event_seq < (
            #[trigger] events_of(events, parts, tx_digest)[k]).event_seq,
        forall|i: int|
            0 <= i < events.len() && #[trigger] event_of(i as nat, events[i], parts[i], tx_digest)
                is Some ==> events_of(events, parts, tx_digest).contains(
                event_of(i as nat, events[i], parts[i], tx_digest)->0,
            ),
    decreases events.len(),
{
    if events.len() > 0 {
        let last = events.len() - 1;
        let init = events.drop_last();
        let rest = events_of(init, parts, tx_digest);
        let all = events_of(events, parts, tx_digest);
        law_events_keep_their_numbers(init, parts, tx_digest);
        assert forall|i: int|
            0 <= i < events.len() && #[trigger] event_of(
                i as nat,
                events[i],
                parts[i],
                tx_digest,
            ) is Some implies all.contains(event_of(i as nat, events[i], parts[i], tx_digest)->0) by {
            let event = event_of(i as nat, events[i], parts[i], tx_digest)->0;
            if i < last {
                assert(event_of(i as nat, init[i], parts[i], tx_digest) is Some);
                let k = choose|k: int| 0 <= k < rest.len() && rest[k] == event;
                assert(all[k] == event);
            } else {
                assert(all[rest.len() as int] == event);
            }
        }
    }
}

/// Readers that give one value for one text leave nothing open: whatever they gave, the same
/// messages make the same events.
pub proof fn law_readers_decide_events<C: Chain, P, A, M, T>(
    events: Seq<ProtoEvent>,
    parts: Seq<EventParts<C>>,
    others: Seq<EventParts<C>>,
    tx_digest: C::Digest,
    readers: EventReaders<P, A, M, T>,
) where
    P: Fn(&String) -> Option<C::PackageId>,
    A: Fn(&String) -> Option<C::Address>,
    M: Fn(&String) -> Option<C::Module>,
    T: Fn(&String) -> Option<C::TypeTag>,

    requires
        readers.deterministic::<C>(),
        readers.read_all(events, parts),
        readers.read_all(events, others),
    ensures
        events_of(events, parts, tx_digest) == events_of(events, others, tx_digest),
    decreases events.len(),
{
    if events.len() > 0 {
        let last = events.len() - 1;
        let init = events.drop_last();
        assert forall|i: int| 0 <= i < init.len() implies readers.read(
            #[trigger] init[i],
            parts.drop_last()[i],
        ) && readers.read(init[i], others.drop_last()[i]) by {
            assert(init[i] == events[i]);
        }
        law_readers_decide_events(
            init,
            parts.drop_last(),
            others.drop_last(),
            tx_digest,
            readers,
        );
        lemma_events_of_reads_no_further(init, parts, parts.drop_last(), tx_digest);
        lemma_events_of_reads_no_further(init, others, others.drop_last(), tx_digest);
        assert(readers.read(events[last], parts[last]));
        assert(readers.read(events[last], others[last]));
        assert(event_of(last as nat, events[last], parts[last], tx_digest) == event_of(
            last as nat,
            events[last],
            others[last],
            tx_digest,
        ));
    }
}

/// The digest only marks the events: with readers that give one value for one text, the same
/// messages under two digests make the same events but for the digest, which is the given one in
/// each.
pub proof fn law_digest_only_marks_the_events<C: Chain, P, A, M, T>(
    events: Seq<ProtoEvent>,
    parts: Seq<EventParts<C>>,
    tx_digest: C::Digest,
    others: Seq<EventParts<C>>,
    other_digest: C::Digest,
    readers: EventReaders<P, A, M, T>,
) where
    P: Fn(&String) -> Option<C::PackageId>,
    A: Fn(&String) -> Option<C::Address>,
    M: Fn(&String) -> Option<C::Module>,
    T: Fn(&String) -> Option<C::TypeTag>,

    requires
        readers.deterministic::<C>(),
        readers.read_all(events, parts),
        readers.read_all(events, others),
    ensures
        events_of(events, parts, tx_digest).len() == events_of(events, others, other_digest).len(),
        forall|j: int|
            0 <= j < events_of(events, parts, tx_digest).len() ==> {
                let event = #[trigger] events_of(events, parts, tx_digest)[j];
                &&& event.tx_digest == tx_digest
                &&& events_of(events, others, other_digest)[j] == (SuiEventModel::<C> {
                    tx_digest: other_digest,
                    ..event
                })
            },
{
    law_readers_decide_events(events, parts, others, other_digest, readers);
    lemma_digest_only_marks_the_events(events, parts, tx_digest, other_digest);
}

pub(crate) proof fn lemma_digest_only_marks_the_events<C: Chain>(
    events: Seq<ProtoEvent>,
    parts: Seq<EventParts<C>>,
    tx_digest: C::Digest,
    other_digest: C::Digest,
)
    ensures
        events_of(events, parts, tx_digest).len() == events_of(events, parts, other_digest).len(),
        forall|j: int|
            0 <= j < events_of(events, parts, tx_digest).len() ==> {
                let event = #[trigger] events_of(events, parts, tx_digest)[j];
                &&& event.tx_digest == tx_digest
                &&& events_of(events, parts, other_digest)[j] == (SuiEventModel::<C> {
                    tx_digest: other_digest,
                    ..event
                })
            },
    decreases events.len(),
{
    if events.len() > 0 {
        let init = events.drop_last();
        let rest = events_of(init, parts, tx_digest);
        let all = events_of(events, parts, tx_digest);
        lemma_digest_only_marks_the_events(init, parts, tx_digest, other_digest);
        assert forall|j: int| 0 <= j < all.len() implies {
            let event = #[trigger] all[j];
            &&& event.tx_digest == tx_digest
            &&& events_of(events, parts, other_digest)[j] == (SuiEventModel::<C> {
                tx_digest: other_digest,
                ..event
            })
        } by {
            if j < rest.len() {
                assert(all[j] == rest[j]);
            }
        }
    }
}

/// The events whose number is another one, in their order.
pub open spec fn without_number<C: Chain>(events: Seq<SuiEventModel<C>>, number: nat) -> Seq<
    SuiEventModel<C>,
>
    decreases events.len(),
{
    if events.len() == 0 {
        Seq::empty()
    } else {
        let rest = without_number(events.drop_last(), number);
        if events.last().event_seq == number {
            rest
        } else {
            rest.push(events.last())
        }
    }
}

proof fn lemma_without_an_absent_number<C: Chain>(events: Seq<SuiEventModel<C>>, number: nat)
    requires
        forall|k: int| 0 <= k < events.len() ==> (#[trigger] events[k]).event_seq != number,
    ensures
        without_number(events, number) == events,
    decreases events.len(),
{
    if events.len() > 0 {
        assert(events[events.len() - 1].event_seq != number);
        assert forall|k: int| 0 <= k < events.drop_last().len() implies (
        #[trigger] events.drop_last()[k]).event_seq != number by {
            assert(events.drop_last()[k] == events[k]);
        }
        lemma_without_an_absent_number(events.drop_last(), number);
        assert(events.drop_last().push(events.last()) =~= events);
    }
}

/// A message that makes no event, put in the place of another, takes out the event of that place
/// alone: all other events stay as they were, their numbers with them.
pub proof fn law_spoiled_message_takes_out_its_event_alone<C: Chain, P, A, M, T>(
    events: Seq<ProtoEvent>,
    parts: Seq<EventParts<C>>,
    place: int,
    spoiled: ProtoEvent,
    others: Seq<EventParts<C>>,
    tx_digest: C::Digest,
    readers: EventReaders<P, A, M, T>,
) where
    P: Fn(&String) -> Option<C::PackageId>,
    A: Fn(&String) -> Option<C::Address>,
    M: Fn(&String) -> Option<C::Module>,
    T: Fn(&String) -> Option<C::TypeTag>,

    requires
        readers.deterministic::<C>(),
        0 <= place < events.len(),
        readers.read_all(events, parts),
        readers.read_all(events.update(place, spoiled), others),
        event_of(place as nat, spoiled, others[place], tx_digest) is None,
    ensures
        events_of(events.update(place, spoiled), others, tx_digest) == without_number(
            events_of(events, parts, tx_digest),
            place as nat,
        ),
    decreases events.len(),
{
    let last = events.len() - 1;
    let init = events.drop_last();
    let changed = events.update(place, spoiled);
    let init_changed = changed.drop_last();
    let all = events_of(events, parts, tx_digest);
    let rest = events_of(init, parts, tx_digest);
    assert forall|i: int| 0 <= i < init.len() implies readers.read(
        #[trigger] init[i],
        parts.drop_last()[i],
    ) by {
        assert(init[i] == events[i]);
    }
    assert forall|i: int| 0 <= i < init_changed.len() implies readers.read(
        #[trigger] init_changed[i],
        others.drop_last()[i],
    ) by {
        assert(init_changed[i] == changed[i]);
    }
    lemma_events_of_reads_no_further(init, parts, parts.drop_last(), tx_digest);
    lemma_events_of_reads_no_further(init_changed, others, others.drop_last(), tx_digest);
    assert(readers.read(events[last], parts[last]));
    assert(readers.read(changed[last], others[last]));
    if place == last {
        assert(init_changed =~= init);
        law_readers_decide_events(
            init,
            parts.drop_last(),
            others.drop_last(),
            tx_digest,
            readers,
        );
        law_events_keep_their_numbers(init, parts, tx_digest);
        assert forall|k: int| 0 <= k < rest.len() implies (#[trigger] rest[k]).event_seq
            != place as nat by {}
        lemma_without_an_absent_number(rest, place as nat);
        if event_of(last as nat, events[last], parts[last], tx_digest) is Some {
            assert(all.drop_last() =~= rest);
        }
    } else {
        assert(init_changed =~= init.update(place, spoiled));
        law_spoiled_message_takes_out_its_event_alone(
            init,
            parts.drop_last(),
            place,
            spoiled,
            others.drop_last(),
            tx_digest,
            readers,
        );
        assert(changed[last] == events[last]);
        assert(event_of(last as nat, events[last], parts[last], tx_digest) == event_of(
            last as nat,
            events[last],
            others[last],
            tx_digest,
        ));
        if event_of(last as nat, events[last], parts[last], tx_digest) is Some {
            assert(all.drop_last() =~= rest);
        }
    }
}

/// An event is made of its message and of what was read from it, each part in its field: there is
/// one just where the message names a type and all four parts were read, and it carries the digest
/// and the number it was given. Its encoded contents are those of the message whatever its JSON
/// form is, and its JSON form is that of the message whatever its contents are.
pub proof fn law_event_carries_its_message<C: Chain>(
    event_seq: nat,
    message: ProtoEvent,
    parts: EventParts<C>,
    tx_digest: C::Digest,
)
    ensures
        event_of(event_seq, message, parts, tx_digest) is Some <==> message.event_type is Some
            && parts.package_id is Some && parts.sender is Some && parts.module is Some
            && parts.type_ is Some,
        event_of(event_seq, message, parts, tx_digest) matches Some(event) ==> {
            &&& event.tx_digest == tx_digest
            &&& event.event_seq == event_seq
            &&& Some(event.package_id) == parts.package_id
            &&& Some(event.sender) == parts.sender
            &&& Some(event.transaction_module) == parts.module
            &&& Some(event.type_) == parts.type_
            &&& event.timestamp_ms is None
            &&& message.contents matches Some(Bcs { value: Some(bytes) }) ==> event.bcs == bytes@
            &&& message.contents matches Some(Bcs { value: None }) ==> event.bcs.len() == 0
            &&& message.contents is None ==> event.bcs.len() == 0
            &&& message.json is None ==> event.parsed_json == crate::json::JsonModel::Null
            &&& message.json matches Some(value) ==> match crate::json::json_of(value) {
                Some(json) => event.parsed_json == json,
                None => event.parsed_json == crate::json::JsonModel::Null,
            }
        },
{
}

/// The JSON form of a message says nothing but the JSON form of its event: two messages that
/// differ in it alone make the same event but for it.
pub proof fn law_json_changes_the_parsed_json_alone<C: Chain>(
    event_seq: nat,
    message: ProtoEvent,
    other: ProtoEvent,
    parts: EventParts<C>,
    tx_digest: C::Digest,
)
    requires
        other == (ProtoEvent { json: other.json, ..message }),
    ensures
        match (
            event_of(event_seq, message, parts, tx_digest),
            event_of(event_seq, other, parts, tx_digest),
        ) {
            (Some(event), Some(changed)) => changed == (SuiEventModel::<C> {
                parsed_json: changed.parsed_json,
                ..event
            }),
            (None, None) => true,
            _ => false,
        },
{
}

/// The contents of a message say nothing but the contents of its event: two messages that differ
/// in them alone make the same event but for them.
pub proof fn law_contents_change_the_contents_alone<C: Chain>(
    event_seq: nat,
    message: ProtoEvent,
    other: ProtoEvent,
    parts: EventParts<C>,
    tx_digest: C::Digest,
)
    requires
        other == (ProtoEvent { contents: other.contents, ..message }),
    ensures
        match (
            event_of(event_seq, message, parts, tx_digest),
            event_of(event_seq, other, parts, tx_digest),
        ) {
            (Some(event), Some(changed)) => changed == (SuiEventModel::<C> {
                bcs: changed.bcs,
                ..event
            }),
            (None, None) => true,
            _ => false,
        },
{
}

/// Each part of an event is what its own reader gives for its own text, and a part is missing only
/// where the message does not name it or its reader gives nothing, the parts before it being
/// there.
pub proof fn law_parts_are_what_their_readers_gave<C: Chain, P, A, M, T>(
    message: ProtoEvent,
    parts: EventParts<C>,
    readers: EventReaders<P, A, M, T>,
) where
    P: Fn(&String) -> Option<C::PackageId>,
    A: Fn(&String) -> Option<C::Address>,
    M: Fn(&String) -> Option<C::Module>,
    T: Fn(&String) -> Option<C::TypeTag>,

    requires
        readers.read(message, parts),
        message.event_type is Some,
    ensures
        match message.package_id {
            Some(text) => call_ensures(readers.package_id, (&text,), parts.package_id),
            None => parts.package_id is None,
        },
        parts.package_id is Some ==> match message.sender {
            Some(text) => call_ensures(readers.sender, (&text,), parts.sender),
            None => parts.sender is None,
        },
        parts.package_id is Some && parts.sender is Some ==> match message.module {
            Some(text) => call_ensures(readers.module, (&text,), parts.module),
            None => parts.module is None,
        },
        parts.package_id is Some && parts.sender is Some && parts.module is Some ==> call_ensures(
            readers.type_tag,
            (&message.event_type->0,),
            parts.type_,
        ),
{
}

/// Readers that take every text are all that is asked of readers.
pub proof fn law_readers_of_every_text_are_total<C: Chain, P, A, M, T>(
    readers: EventReaders<P, A, M, T>,
) where
    P: Fn(&String) -> Option<C::PackageId>,
    A: Fn(&String) -> Option<C::Address>,
    M: Fn(&String) -> Option<C::Module>,
    T: Fn(&String) -> Option<C::TypeTag>,

    requires
        forall|text: String| #[trigger] call_requires(readers.package_id, (&text,)),
        forall|text: String| #[trigger] call_requires(readers.sender, (&text,)),
        forall|text: String| #[trigger] call_requires(readers.module, (&text,)),
        forall|text: String| #[trigger] call_requires(readers.type_tag, (&text,)),
    ensures
        readers.total::<C>(),
{
}

/// The events of a transaction come from its messages: each has the number of its message among
/// all of them, the digest of the transaction, what the readers gave for the texts of that
/// message, and the contents of that message, in both forms. They stand in the order of the
/// messages. A message is left out only where it does not name a part, or a reader gave nothing
/// for it. Without a list of messages there are none.
pub proof fn law_events_come_from_their_messages<C: Chain, P, A, M, T>(
    proto_events: Option<TransactionEvents>,
    parts: Seq<EventParts<C>>,
    tx_digest: C::Digest,
    given: Seq<SuiEventModel<C>>,
    readers: EventReaders<P, A, M, T>,
) where
    P: Fn(&String) -> Option<C::PackageId>,
    A: Fn(&String) -> Option<C::Address>,
    M: Fn(&String) -> Option<C::Module>,
    T: Fn(&String) -> Option<C::TypeTag>,

    requires
        readers.read_all(crate::proto::event_list(proto_events), parts),
        given == events_of(crate::proto::event_list(proto_events), parts, tx_digest),
    ensures
        proto_events is None ==> given.len() == 0,
        proto_events matches Some(list) ==> {
            &&& forall|k: int|
                0 <= k < given.len() ==> {
                    let event = #[trigger] given[k];
                    let message = list.events@[event.event_seq as int];
                    &&& event.event_seq < list.events@.len()
                    &&& event.tx_digest == tx_digest
                    &&& message.package_id matches Some(text) && call_ensures(
                        readers.package_id,
                        (&text,),
                        Some(event.package_id),
                    )
                    &&& message.sender matches Some(text) && call_ensures(
                        readers.sender,
                        (&text,),
                        Some(event.sender),
                    )
                    &&& message.module matches Some(text) && call_ensures(
                        readers.module,
                        (&text,),
                        Some(event.transaction_module),
                    )
                    &&& message.event_type matches Some(text) && call_ensures(
                        readers.type_tag,
                        (&text,),
                        Some(event.type_),
                    )
                    &&& match message.contents {
                        Some(Bcs { value: Some(bytes) }) => event.bcs == bytes@,
                        _ => event.bcs.len() == 0,
                    }
                    &&& match message.json {
                        Some(value) => match crate::json::json_of(value) {
                            Some(json) => event.parsed_json == json,
                            None => event.parsed_json == crate::json::JsonModel::Null,
                        },
                        None => event.parsed_json == crate::json::JsonModel::Null,
                    }
                    &&& event.timestamp_ms is None
                }
            &&& forall|j: int, k: int|
                0 <= j < k < given.len() ==> (#[trigger] given[j]).event_seq < (
                #[trigger] given[k]).event_seq
            &&& forall|i: int|
                0 <= i < list.events@.len() ==> {
                    let message = #[trigger] list.events@[i];
                    ||| exists|k: int|
                        0 <= k < given.len() && (#[trigger] given[k]).event_seq == i
                    ||| message.event_type is None
                    ||| message.package_id is None
                    ||| message.sender is None
                    ||| message.module is None
                    ||| call_ensures(readers.package_id, (&message.package_id->0,), None)
                    ||| call_ensures(readers.sender, (&message.sender->0,), None)
                    ||| call_ensures(readers.module, (&message.module->0,), None)
                    ||| call_ensures(readers.type_tag, (&message.event_type->0,), None)
                }
        },
{
    let messages = crate::proto::event_list(proto_events);
    law_events_keep_their_numbers(messages, parts, tx_digest);
    if let Some(list) = proto_events {
        assert forall|k: int| 0 <= k < given.len() implies {
            let event = #[trigger] given[k];
            let message = list.events@[event.event_seq as int];
            &&& event.event_seq < list.events@.len()
            &&& readers.read(message, parts[event.event_seq as int])
            &&& event_of(
                event.event_seq,
                message,
                parts[event.event_seq as int],
                tx_digest,
            ) == Some(event)
        } by {
            let n = given[k].event_seq as int;
            assert(readers.read(messages[n], parts[n]));
        }
        assert forall|i: int| 0 <= i < list.events@.len() implies {
            let message = #[trigger] list.events@[i];
            ||| exists|k: int| 0 <= k < given.len() && (#[trigger] given[k]).event_seq == i
            ||| message.event_type is None
            ||| message.package_id is None
            ||| message.sender is None
            ||| message.module is None
            ||| call_ensures(readers.package_id, (&message.package_id->0,), None)
            ||| call_ensures(readers.sender, (&message.sender->0,), None)
            ||| call_ensures(readers.module, (&message.module->0,), None)
            ||| call_ensures(readers.type_tag, (&message.event_type->0,), None)
        } by {
            assert(readers.read(messages[i], parts[i]));
            if event_of(i as nat, messages[i], parts[i], tx_digest) is Some {
                let event = event_of(i as nat, messages[i], parts[i], tx_digest)->0;
                let k = choose|k: int| 0 <= k < given.len() && given[k] == event;
                assert(given[k].event_seq == i);
            }
        }
    }
}

} // verus!
