//! Conversion of one message of a checkpoint stream.

use crate::chain::{Chain, Event, EventModel, SuiEvent, SuiEventModel};
use crate::events::{convert_proto_events, read_optional, EventParts, EventReaders};
use crate::proto::{Bcs, ExecutedTransaction, SubscribeCheckpointsResponse, TransactionEffects};
use vstd::prelude::*;

verus! {

/// How the parts of a transaction are read: its digest from a text, its effects from their
/// encoding and then into the form that events report, and the parts of its events.
pub struct TransactionReaders<D, B, V, P, A, M, T> {
    pub digest: D,
    pub decode_effects: B,
    pub convert_effects: V,
    pub events: EventReaders<P, A, M, T>,
}

/// What the readers gave for one transaction.
#[verifier::reject_recursive_types(C)]
pub struct TransactionParts<C: Chain> {
    pub digest: Option<C::Digest>,
    pub raw_effects: Option<C::RawEffects>,
    pub effects: Option<C::Effects>,
    pub events: Seq<EventParts<C>>,
}

impl<D, B, V, P, A, M, T> TransactionReaders<D, B, V, P, A, M, T> {
    /// Every reader takes every input.
    pub open spec fn total<C: Chain>(self) -> bool where
        D: Fn(&String) -> Option<C::Digest>,
        B: Fn(&Vec<u8>) -> Option<C::RawEffects>,
        V: Fn(C::RawEffects) -> Option<C::Effects>,
        P: Fn(&String) -> Option<C::PackageId>,
        A: Fn(&String) -> Option<C::Address>,
        M: Fn(&String) -> Option<C::Module>,
        T: Fn(&String) -> Option<C::TypeTag>,
     {
        &&& crate::events::total::<String, C::Digest, D>(self.digest)
        &&& crate::events::total::<Vec<u8>, C::RawEffects, B>(self.decode_effects)
        &&& forall|raw: C::RawEffects| #[trigger] call_requires(self.convert_effects, (raw,))
        &&& self.events.total::<C>()
    }

    /// `parts` can be what the readers gave for the transaction. Effects are converted only
    /// where they were decoded, and events are read only where the effects were converted.
    pub open spec fn read<C: Chain>(
        self,
        tx: ExecutedTransaction,
        parts: TransactionParts<C>,
    ) -> bool where
        D: Fn(&String) -> Option<C::Digest>,
        B: Fn(&Vec<u8>) -> Option<C::RawEffects>,
        V: Fn(C::RawEffects) -> Option<C::Effects>,
        P: Fn(&String) -> Option<C::PackageId>,
        A: Fn(&String) -> Option<C::Address>,
        M: Fn(&String) -> Option<C::Module>,
        T: Fn(&String) -> Option<C::TypeTag>,
     {
        &&& crate::events::reads(self.digest, tx.digest, parts.digest)
        &&& crate::events::reads(self.decode_effects, tx.encoded_effects(), parts.raw_effects)
        &&& match parts.raw_effects {
            Some(raw) => call_ensures(self.convert_effects, (raw,), parts.effects),
            None => parts.effects is None,
        }
        &&& parts.effects is Some ==> self.events.read_all(
            crate::proto::event_list(tx.events),
            parts.events,
        )
    }

    /// `parts` can be what the readers gave for each of the transactions.
    pub open spec fn read_all<C: Chain>(
        self,
        txs: Seq<ExecutedTransaction>,
        parts: Seq<TransactionParts<C>>,
    ) -> bool where
        D: Fn(&String) -> Option<C::Digest>,
        B: Fn(&Vec<u8>) -> Option<C::RawEffects>,
        V: Fn(C::RawEffects) -> Option<C::Effects>,
        P: Fn(&String) -> Option<C::PackageId>,
        A: Fn(&String) -> Option<C::Address>,
        M: Fn(&String) -> Option<C::Module>,
        T: Fn(&String) -> Option<C::TypeTag>,
     {
        &&& parts.len() == txs.len()
        &&& forall|i: int| 0 <= i < txs.len() ==> self.read(#[trigger] txs[i], parts[i])
    }
}

/// What a transaction is reported as. Without effects it is not reported. A digest that is
/// missing or not valid is replaced by the default, and the transaction is reported all the same.
pub open spec fn transaction_event<C: Chain>(
    tx: ExecutedTransaction,
    parts: TransactionParts<C>,
    default_digest: C::Digest,
) -> Option<EventModel<C, SuiEventModel<C>>> {
    let tx_digest = match parts.digest {
        Some(digest) => digest,
        None => default_digest,
    };
    match parts.effects {
        Some(effects) => Some(
            EventModel::PublicTx(
                effects,
                crate::events::events_of(
                    crate::proto::event_list(tx.events),
                    parts.events,
                    tx_digest,
                ),
            ),
        ),
        None => None,
    }
}

/// What the transactions of a checkpoint are reported as, in their order.
pub open spec fn checkpoint_events<C: Chain>(
    txs: Seq<ExecutedTransaction>,
    parts: Seq<TransactionParts<C>>,
    default_digest: C::Digest,
) -> Seq<EventModel<C, SuiEventModel<C>>>
    decreases txs.len(),
{
    if txs.len() == 0 {
        Seq::empty()
    } else {
        let last = txs.len() - 1;
        let rest = checkpoint_events(txs.drop_last(), parts, default_digest);
        match transaction_event(txs[last], parts[last], default_digest) {
            Some(event) => rest.push(event),
            None => rest,
        }
    }
}

/// What each of a list of events says.
pub open spec fn event_models<C: Chain>(events: Seq<Event<C, SuiEvent<C>>>) -> Seq<
    EventModel<C, SuiEventModel<C>>,
> {
    events.map_values(|event: Event<C, SuiEvent<C>>| event@)
}

impl<D, B, V, P, A, M, T> TransactionReaders<D, B, V, P, A, M, T> {
    /// `given` can be what a message is reported as: what its transactions are reported as, for
    /// parts that the readers can have given.
    pub open spec fn reports<C: Chain>(
        self,
        resp: SubscribeCheckpointsResponse,
        default_digest: C::Digest,
        given: Seq<EventModel<C, SuiEventModel<C>>>,
    ) -> bool where
        D: Fn(&String) -> Option<C::Digest>,
        B: Fn(&Vec<u8>) -> Option<C::RawEffects>,
        V: Fn(C::RawEffects) -> Option<C::Effects>,
        P: Fn(&String) -> Option<C::PackageId>,
        A: Fn(&String) -> Option<C::Address>,
        M: Fn(&String) -> Option<C::Module>,
        T: Fn(&String) -> Option<C::TypeTag>,
     {
        exists|parts: Seq<TransactionParts<C>>|
            {
                &&& #[trigger] self.read_all(resp.transactions(), parts)
                &&& given == checkpoint_events(resp.transactions(), parts, default_digest)
            }
    }
}

/// The reports of some transactions depend on the parts of those transactions alone.
proof fn lemma_checkpoint_events_reads_no_further<C: Chain>(
    txs: Seq<ExecutedTransaction>,
    parts: Seq<TransactionParts<C>>,
    others: Seq<TransactionParts<C>>,
    default_digest: C::Digest,
)
    requires
        forall|i: int| 0 <= i < txs.len() ==> parts[i] == others[i],
    ensures
        checkpoint_events(txs, parts, default_digest) == checkpoint_events(
            txs,
            others,
            default_digest,
        ),
    decreases txs.len(),
{
    if txs.len() > 0 {
        lemma_checkpoint_events_reads_no_further(txs.drop_last(), parts, others, default_digest);
    }
}

/// Takes the encoded effects out of a message, where it holds them.
fn take_encoded_effects(effects: Option<TransactionEffects>) -> (bytes: Option<Vec<u8>>)
    ensures
        bytes == (ExecutedTransaction { digest: None, effects, events: None }).encoded_effects(),
{
    match effects {
        Some(TransactionEffects { bcs: Some(Bcs { value: Some(bytes) }) }) => Some(bytes),
        _ => None,
    }
}

/// Converts one message of the stream: records its place in the stream, and reports its
/// transactions.
pub fn process_checkpoint_internal<C: Chain, D, B, V, P, A, M, T>(
    last_checkpoint: &mut u64,
    resp: SubscribeCheckpointsResponse,
    default_digest: C::Digest,
    readers: &TransactionReaders<D, B, V, P, A, M, T>,
) -> (events: Vec<Event<C, SuiEvent<C>>>) where
    D: Fn(&String) -> Option<C::Digest>,
    B: Fn(&Vec<u8>) -> Option<C::RawEffects>,
    V: Fn(C::RawEffects) -> Option<C::Effects>,
    P: Fn(&String) -> Option<C::PackageId>,
    A: Fn(&String) -> Option<C::Address>,
    M: Fn(&String) -> Option<C::Module>,
    T: Fn(&String) -> Option<C::TypeTag>,

    requires
        readers.total::<C>(),
    ensures
        *final(last_checkpoint) == resp.position(),
        resp.cursor matches Some(cursor) ==> *final(last_checkpoint) == cursor,
        resp.cursor is None ==> *final(last_checkpoint) == 0,
        readers.reports(resp, default_digest, event_models(events@)),
{
    let ghost txs = resp.transactions();
    let ghost mut all_parts: Seq<TransactionParts<C>> = Seq::empty();
    let mut events: Vec<Event<C, SuiEvent<C>>> = Vec::new();

    *last_checkpoint = resp.place();

    let checkpoint = match resp.checkpoint {
        Some(checkpoint) => checkpoint,
        None => {
            assert(readers.read_all(txs, all_parts));
            assert(event_models(events@) =~= checkpoint_events(txs, all_parts, default_digest));
            return events;
        },
    };

    for tx in it: checkpoint.transactions.into_iter()
        invariant
            readers.total::<C>(),
            it.seq() == txs,
            all_parts.len() == it.index(),
            forall|i: int| 0 <= i < it.index() ==> readers.read(#[trigger] txs[i], all_parts[i]),
            event_models(events@) == checkpoint_events(
                txs.take(it.index() as int),
                all_parts,
                default_digest,
            ),
    {
        let ghost whole = tx;
        let ghost before = all_parts;
        let ghost done = events@;
        let ghost mut event_parts: Seq<EventParts<C>> = Seq::empty();

        let digest: Option<C::Digest> = read_optional(&readers.digest, &tx.digest);
        let bytes = take_encoded_effects(tx.effects);
        let raw_effects: Option<C::RawEffects> = read_optional(&readers.decode_effects, &bytes);
        let ghost raw = raw_effects;
        let effects: Option<C::Effects> = match raw_effects {
            Some(raw) => (readers.convert_effects)(raw),
            None => None,
        };
        let ghost converted = effects;
        if let Some(effects) = effects {
            let tx_digest = digest.unwrap_or(default_digest);
            let sui_events: Vec<SuiEvent<C>> = convert_proto_events(
                tx.events,
                tx_digest,
                &readers.events,
            );
            proof {
                let list = crate::proto::event_list(whole.events);
                event_parts = choose|parts: Seq<EventParts<C>>|
                    {
                        &&& #[trigger] readers.events.read_all(list, parts)
                        &&& crate::chain::sui_event_models(sui_events@)
                            == crate::events::events_of(list, parts, tx_digest)
                    };
            }
            let event: Event<C, SuiEvent<C>> = Event::PublicTx(effects, sui_events);
            events.push(event);
            assert(event_models(events@) =~= event_models(done).push(event@));
        }
        proof {
            let parts = TransactionParts::<C> {
                digest,
                raw_effects: raw,
                effects: converted,
                events: event_parts,
            };
            all_parts = all_parts.push(parts);
            assert(readers.read(whole, parts));
            let shown = txs.take(it.index() + 1);
            assert(shown.drop_last() =~= txs.take(it.index() as int));
            lemma_checkpoint_events_reads_no_further(
                shown.drop_last(),
                before,
                all_parts,
                default_digest,
            );
        }
    }
    assert(txs.take(txs.len() as int) =~= txs);
    assert(readers.read_all(txs, all_parts));
    events
}

impl<D, B, V, P, A, M, T> TransactionReaders<D, B, V, P, A, M, T> {
    /// Every reader gives one value for one input.
    pub open spec fn deterministic<C: Chain>(self) -> bool where
        D: Fn(&String) -> Option<C::Digest>,
        B: Fn(&Vec<u8>) -> Option<C::RawEffects>,
        V: Fn(C::RawEffects) -> Option<C::Effects>,
        P: Fn(&String) -> Option<C::PackageId>,
        A: Fn(&String) -> Option<C::Address>,
        M: Fn(&String) -> Option<C::Module>,
        T: Fn(&String) -> Option<C::TypeTag>,
     {
        &&& crate::events::deterministic::<String, C::Digest, D>(self.digest)
        &&& crate::events::deterministic::<Vec<u8>, C::RawEffects, B>(self.decode_effects)
        &&& forall|raw: C::RawEffects, value: Option<C::Effects>, other: Option<C::Effects>|
            #[trigger] call_ensures(self.convert_effects, (raw,), value)
                && #[trigger] call_ensures(self.convert_effects, (raw,), other) ==> value == other
        &&& self.events.deterministic::<C>()
    }
}

/// The places of the transactions whose effects were read, in their order.
pub open spec fn reported_places<C: Chain>(parts: Seq<TransactionParts<C>>) -> Seq<int>
    decreases parts.len(),
{
    if parts.len() == 0 {
        Seq::empty()
    } else {
        let rest = reported_places(parts.drop_last());
        if parts.last().effects is Some {
            rest.push(parts.len() - 1)
        } else {
            rest
        }
    }
}

/// A checkpoint reports each transaction whose effects were read, and no other, once and in the
/// order of the checkpoint. So the reports and the transactions without effects together are as
/// many as the transactions.
pub proof fn law_checkpoint_reports_in_order<C: Chain>(
    txs: Seq<ExecutedTransaction>,
    parts: Seq<TransactionParts<C>>,
    default_digest: C::Digest,
)
    requires
        parts.len() == txs.len(),
    ensures
        checkpoint_events(txs, parts, default_digest).len() == reported_places(parts).len(),
        forall|k: int|
            0 <= k < reported_places(parts).len() ==> {
                let place = #[trigger] reported_places(parts)[k];
                &&& 0 <= place < txs.len()
                &&& parts[place].effects is Some
                &&& transaction_event(txs[place], parts[place], default_digest) == Some(
                    checkpoint_events(txs, parts, default_digest)[k],
                )
            },
        forall|j: int, k: int|
            0 <= j < k < reported_places(parts).len() ==> #[trigger] reported_places(parts)[j]
                < #[trigger] reported_places(parts)[k],
        forall|i: int|
            0 <= i < parts.len() && (#[trigger] parts[i]).effects is Some ==> reported_places(
                parts,
            ).contains(i),
    decreases txs.len(),
{
    if txs.len() > 0 {
        let last = txs.len() - 1;
        let init = txs.drop_last();
        let init_parts = parts.drop_last();
        let rest = reported_places(init_parts);
        let all = reported_places(parts);
        law_checkpoint_reports_in_order(init, init_parts, default_digest);
        lemma_checkpoint_events_reads_no_further(init, parts, init_parts, default_digest);
        assert forall|k: int| 0 <= k < all.len() implies {
            let place = #[trigger] all[k];
            &&& 0 <= place < txs.len()
            &&& parts[place].effects is Some
            &&& transaction_event(txs[place], parts[place], default_digest) == Some(
                checkpoint_events(txs, parts, default_digest)[k],
            )
        } by {
            if k < rest.len() {
                assert(all[k] == rest[k]);
                assert(init[rest[k]] == txs[rest[k]]);
            }
        }
        assert forall|i: int|
            0 <= i < parts.len() && (#[trigger] parts[i]).effects is Some implies all.contains(i) by {
            if i < last {
                assert(init_parts[i] == parts[i]);
                let k = choose|k: int| 0 <= k < rest.len() && rest[k] == i;
                assert(all[k] == i);
            } else {
                assert(all[rest.len() as int] == i);
            }
        }
    }
}

/// Readers that give one value for one input leave nothing open: whatever they gave, the same
/// checkpoint is reported as the same events.
pub proof fn law_readers_decide_reports<C: Chain, D, B, V, P, A, M, T>(
    txs: Seq<ExecutedTransaction>,
    parts: Seq<TransactionParts<C>>,
    others: Seq<TransactionParts<C>>,
    default_digest: C::Digest,
    readers: TransactionReaders<D, B, V, P, A, M, T>,
) where
    D: Fn(&String) -> Option<C::Digest>,
    B: Fn(&Vec<u8>) -> Option<C::RawEffects>,
    V: Fn(C::RawEffects) -> Option<C::Effects>,
    P: Fn(&String) -> Option<C::PackageId>,
    A: Fn(&String) -> Option<C::Address>,
    M: Fn(&String) -> Option<C::Module>,
    T: Fn(&String) -> Option<C::TypeTag>,

    requires
        readers.deterministic::<C>(),
        readers.read_all(txs, parts),
        readers.read_all(txs, others),
    ensures
        checkpoint_events(txs, parts, default_digest) == checkpoint_events(
            txs,
            others,
            default_digest,
        ),
    decreases txs.len(),
{
    if txs.len() > 0 {
        let last = txs.len() - 1;
        let init = txs.drop_last();
        assert forall|i: int| 0 <= i < init.len() implies readers.read(
            #[trigger] init[i],
            parts.drop_last()[i],
        ) && readers.read(init[i], others.drop_last()[i]) by {
            assert(init[i] == txs[i]);
        }
        law_readers_decide_reports(
            init,
            parts.drop_last(),
            others.drop_last(),
            default_digest,
            readers,
        );
        lemma_checkpoint_events_reads_no_further(init, parts, parts.drop_last(), default_digest);
        lemma_checkpoint_events_reads_no_further(init, others, others.drop_last(), default_digest);
        let tx = txs[last];
        let one = parts[last];
        let two = others[last];
        assert(readers.read(tx, one));
        assert(readers.read(tx, two));
        assert(one.raw_effects == two.raw_effects);
        assert(one.effects == two.effects);
        assert(one.digest == two.digest);
        if one.effects is Some {
            let tx_digest = match one.digest {
                Some(digest) => digest,
                None => default_digest,
            };
            crate::events::law_readers_decide_events(
                crate::proto::event_list(tx.events),
                one.events,
                two.events,
                tx_digest,
                readers.events,
            );
        }
    }
}

/// Transactions are reported each on its own: the reports of two lists of transactions joined are
/// the reports of the one followed by the reports of the other, and no transactions have none.
pub proof fn law_transactions_are_reported_each_on_its_own<C: Chain>(
    txs: Seq<ExecutedTransaction>,
    parts: Seq<TransactionParts<C>>,
    more_txs: Seq<ExecutedTransaction>,
    more_parts: Seq<TransactionParts<C>>,
    default_digest: C::Digest,
)
    requires
        parts.len() == txs.len(),
        more_parts.len() == more_txs.len(),
    ensures
        checkpoint_events(Seq::<ExecutedTransaction>::empty(), parts, default_digest).len() == 0,
        checkpoint_events(txs + more_txs, parts + more_parts, default_digest) == checkpoint_events(
            txs,
            parts,
            default_digest,
        ) + checkpoint_events(more_txs, more_parts, default_digest),
    decreases more_txs.len(),
{
    let all = txs + more_txs;
    let all_parts = parts + more_parts;
    if more_txs.len() == 0 {
        assert(all =~= txs);
        assert(all_parts =~= parts);
        assert(checkpoint_events(txs, parts, default_digest) + checkpoint_events(
            more_txs,
            more_parts,
            default_digest,
        ) =~= checkpoint_events(txs, parts, default_digest));
    } else {
        let init = more_txs.drop_last();
        let init_parts = more_parts.drop_last();
        law_transactions_are_reported_each_on_its_own(txs, parts, init, init_parts, default_digest);
        assert(all.drop_last() =~= txs + init);
        lemma_checkpoint_events_reads_no_further(
            txs + init,
            all_parts,
            parts + init_parts,
            default_digest,
        );
        lemma_checkpoint_events_reads_no_further(init, more_parts, init_parts, default_digest);
        let before = checkpoint_events(txs, parts, default_digest);
        let more = checkpoint_events(more_txs, more_parts, default_digest);
        assert(checkpoint_events(all, all_parts, default_digest) =~= before + more);
    }
}

/// The same of whole messages, with readers that give one value for one input: a message whose
/// transactions are those of two others joined is reported as the one and then the other.
pub proof fn law_joined_message_is_reported_as_its_halves<C: Chain, D, B, V, P, A, M, T>(
    resp: SubscribeCheckpointsResponse,
    given: Seq<EventModel<C, SuiEventModel<C>>>,
    one: SubscribeCheckpointsResponse,
    one_given: Seq<EventModel<C, SuiEventModel<C>>>,
    two: SubscribeCheckpointsResponse,
    two_given: Seq<EventModel<C, SuiEventModel<C>>>,
    default_digest: C::Digest,
    readers: TransactionReaders<D, B, V, P, A, M, T>,
) where
    D: Fn(&String) -> Option<C::Digest>,
    B: Fn(&Vec<u8>) -> Option<C::RawEffects>,
    V: Fn(C::RawEffects) -> Option<C::Effects>,
    P: Fn(&String) -> Option<C::PackageId>,
    A: Fn(&String) -> Option<C::Address>,
    M: Fn(&String) -> Option<C::Module>,
    T: Fn(&String) -> Option<C::TypeTag>,

    requires
        readers.deterministic::<C>(),
        resp.transactions() == one.transactions() + two.transactions(),
        readers.reports(resp, default_digest, given),
        readers.reports(one, default_digest, one_given),
        readers.reports(two, default_digest, two_given),
    ensures
        given == one_given + two_given,
{
    let txs = resp.transactions();
    let a = one.transactions();
    let b = two.transactions();
    let parts = choose|parts: Seq<TransactionParts<C>>|
        {
            &&& #[trigger] readers.read_all(txs, parts)
            &&& given == checkpoint_events(txs, parts, default_digest)
        };
    let a_parts = choose|parts: Seq<TransactionParts<C>>|
        {
            &&& #[trigger] readers.read_all(a, parts)
            &&& one_given == checkpoint_events(a, parts, default_digest)
        };
    let b_parts = choose|parts: Seq<TransactionParts<C>>|
        {
            &&& #[trigger] readers.read_all(b, parts)
            &&& two_given == checkpoint_events(b, parts, default_digest)
        };
    let joined = a_parts + b_parts;
    assert forall|i: int| 0 <= i < txs.len() implies readers.read(#[trigger] txs[i], joined[i]) by {
        if i < a.len() {
            assert(txs[i] == a[i]);
        } else {
            assert(txs[i] == b[i - a.len()]);
        }
    }
    law_readers_decide_reports(txs, parts, joined, default_digest, readers);
    law_transactions_are_reported_each_on_its_own(a, a_parts, b, b_parts, default_digest);
}

/// The place of a message has no say in its reports, nor has what was recorded before: with
/// readers that give one value for one input, two messages with the same transactions are
/// reported the same, a checkpoint that was seen before again in full.
pub proof fn law_place_has_no_say_in_the_reports<C: Chain, D, B, V, P, A, M, T>(
    resp: SubscribeCheckpointsResponse,
    given: Seq<EventModel<C, SuiEventModel<C>>>,
    other: SubscribeCheckpointsResponse,
    other_given: Seq<EventModel<C, SuiEventModel<C>>>,
    default_digest: C::Digest,
    readers: TransactionReaders<D, B, V, P, A, M, T>,
) where
    D: Fn(&String) -> Option<C::Digest>,
    B: Fn(&Vec<u8>) -> Option<C::RawEffects>,
    V: Fn(C::RawEffects) -> Option<C::Effects>,
    P: Fn(&String) -> Option<C::PackageId>,
    A: Fn(&String) -> Option<C::Address>,
    M: Fn(&String) -> Option<C::Module>,
    T: Fn(&String) -> Option<C::TypeTag>,

    requires
        readers.deterministic::<C>(),
        resp.transactions() == other.transactions(),
        readers.reports(resp, default_digest, given),
        readers.reports(other, default_digest, other_given),
    ensures
        given == other_given,
{
    let txs = resp.transactions();
    let parts = choose|parts: Seq<TransactionParts<C>>|
        {
            &&& #[trigger] readers.read_all(txs, parts)
            &&& given == checkpoint_events(txs, parts, default_digest)
        };
    let others = choose|parts: Seq<TransactionParts<C>>|
        {
            &&& #[trigger] readers.read_all(txs, parts)
            &&& other_given == checkpoint_events(txs, parts, default_digest)
        };
    law_readers_decide_reports(txs, parts, others, default_digest, readers);
}

/// A report tells its transaction. It is there just where effects were decoded from the bytes of
/// the message and converted, and it carries those effects. Every event in it carries one digest:
/// the one read from the text of the transaction, however many events there are, and the default
/// only where the text is missing or names none. Those events are what the messages of the
/// transaction make under that digest.
pub proof fn law_report_tells_its_transaction<C: Chain, D, B, V, P, A, M, T>(
    tx: ExecutedTransaction,
    parts: TransactionParts<C>,
    default_digest: C::Digest,
    readers: TransactionReaders<D, B, V, P, A, M, T>,
) where
    D: Fn(&String) -> Option<C::Digest>,
    B: Fn(&Vec<u8>) -> Option<C::RawEffects>,
    V: Fn(C::RawEffects) -> Option<C::Effects>,
    P: Fn(&String) -> Option<C::PackageId>,
    A: Fn(&String) -> Option<C::Address>,
    M: Fn(&String) -> Option<C::Module>,
    T: Fn(&String) -> Option<C::TypeTag>,

    requires
        readers.read(tx, parts),
    ensures
        match transaction_event(tx, parts, default_digest) {
            Some(EventModel::PublicTx(effects, events)) => {
                &&& tx.effects matches Some(
                    TransactionEffects { bcs: Some(Bcs { value: Some(bytes) }) },
                ) && exists|raw: C::RawEffects|
                    {
                        &&& #[trigger] call_ensures(readers.decode_effects, (&bytes,), Some(raw))
                        &&& call_ensures(readers.convert_effects, (raw,), Some(effects))
                    }
                &&& exists|digest: C::Digest|
                    {
                        &&& match tx.digest {
                            None => digest == default_digest,
                            Some(text) => {
                                ||| call_ensures(readers.digest, (&text,), Some(digest))
                                ||| call_ensures(readers.digest, (&text,), None) && digest
                                    == default_digest
                            },
                        }
                        &&& readers.events.read_all(
                            crate::proto::event_list(tx.events),
                            parts.events,
                        )
                        &&& events == #[trigger] crate::events::events_of(
                            crate::proto::event_list(tx.events),
                            parts.events,
                            digest,
                        )
                        &&& forall|j: int|
                            0 <= j < events.len() ==> (#[trigger] events[j]).tx_digest == digest
                    }
                &&& parts.digest matches Some(digest) ==> forall|j: int|
                    0 <= j < events.len() ==> (#[trigger] events[j]).tx_digest == digest
                &&& parts.digest is None ==> forall|j: int|
                    0 <= j < events.len() ==> (#[trigger] events[j]).tx_digest == default_digest
            },
            Some(EventModel::PrivateTx(_)) => false,
            None => match tx.effects {
                Some(TransactionEffects { bcs: Some(Bcs { value: Some(bytes) }) }) => {
                    ||| call_ensures(readers.decode_effects, (&bytes,), None)
                    ||| exists|raw: C::RawEffects|
                        {
                            &&& #[trigger] call_ensures(
                                readers.decode_effects,
                                (&bytes,),
                                Some(raw),
                            )
                            &&& call_ensures(readers.convert_effects, (raw,), None)
                        }
                },
                _ => true,
            },
        },
        match tx.digest {
            Some(text) => call_ensures(readers.digest, (&text,), parts.digest),
            None => parts.digest is None,
        },
{
    if let Some(EventModel::PublicTx(effects, events)) = transaction_event(
        tx,
        parts,
        default_digest,
    ) {
        let digest = match parts.digest {
            Some(digest) => digest,
            None => default_digest,
        };
        crate::events::law_events_come_from_their_messages(
            tx.events,
            parts.events,
            digest,
            events,
            readers.events,
        );
        assert(events == crate::events::events_of(
            crate::proto::event_list(tx.events),
            parts.events,
            digest,
        ));
    } else {
        assert(parts.effects is None);
    }
}

/// The default digest stands in and does nothing else: a transaction whose digest was read is
/// reported the same whatever the default is, and any other is reported with the same effects and
/// the same events but for the digest.
pub proof fn law_default_digest_only_stands_in<C: Chain>(
    tx: ExecutedTransaction,
    parts: TransactionParts<C>,
    default_digest: C::Digest,
    other_default: C::Digest,
)
    ensures
        parts.digest is Some ==> transaction_event(tx, parts, default_digest) == transaction_event(
            tx,
            parts,
            other_default,
        ),
        match (
            transaction_event(tx, parts, default_digest),
            transaction_event(tx, parts, other_default),
        ) {
            (
                Some(EventModel::PublicTx(effects, events)),
                Some(EventModel::PublicTx(other_effects, other_events)),
            ) => {
                &&& other_effects == effects
                &&& other_events.len() == events.len()
                &&& forall|j: int|
                    0 <= j < events.len() ==> #[trigger] other_events[j] == (SuiEventModel::<C> {
                        tx_digest: other_events[j].tx_digest,
                        ..events[j]
                    })
            },
            (None, None) => true,
            _ => false,
        },
{
    let list = crate::proto::event_list(tx.events);
    crate::events::lemma_digest_only_marks_the_events(
        list,
        parts.events,
        default_digest,
        other_default,
    );
}

/// A message reports its transactions: those whose effects were read, each once, in their order,
/// and each by its own report. One that is not reported had no effects to read. A message without
/// a checkpoint reports nothing.
pub proof fn law_message_reports_its_transactions<C: Chain, D, B, V, P, A, M, T>(
    resp: SubscribeCheckpointsResponse,
    default_digest: C::Digest,
    given: Seq<EventModel<C, SuiEventModel<C>>>,
    readers: TransactionReaders<D, B, V, P, A, M, T>,
) where
    D: Fn(&String) -> Option<C::Digest>,
    B: Fn(&Vec<u8>) -> Option<C::RawEffects>,
    V: Fn(C::RawEffects) -> Option<C::Effects>,
    P: Fn(&String) -> Option<C::PackageId>,
    A: Fn(&String) -> Option<C::Address>,
    M: Fn(&String) -> Option<C::Module>,
    T: Fn(&String) -> Option<C::TypeTag>,

    requires
        readers.reports(resp, default_digest, given),
    ensures
        resp.checkpoint is None ==> given.len() == 0,
        resp.checkpoint matches Some(checkpoint) ==> exists|
            parts: Seq<TransactionParts<C>>,
            places: Seq<int>,
        |
            {
                let txs = checkpoint.transactions@;
                &&& parts.len() == txs.len()
                &&& places.len() == given.len()
                &&& #[trigger] crate::json::rising(places, parts.len())
                &&& forall|i: int|
                    0 <= i < txs.len() ==> readers.read(#[trigger] txs[i], parts[i])
                &&& forall|k: int|
                    0 <= k < given.len() ==> transaction_event(
                        txs[places[k]],
                        parts[places[k]],
                        default_digest,
                    ) == Some(#[trigger] given[k])
                &&& forall|i: int|
                    0 <= i < txs.len() ==> {
                        ||| places.contains(i)
                        ||| transaction_event(#[trigger] txs[i], parts[i], default_digest) is None
                    }
            },
{
    if let Some(checkpoint) = resp.checkpoint {
        let txs = checkpoint.transactions@;
        let parts = choose|parts: Seq<TransactionParts<C>>|
            {
                &&& #[trigger] readers.read_all(resp.transactions(), parts)
                &&& given == checkpoint_events(resp.transactions(), parts, default_digest)
            };
        let places = reported_places(parts);
        law_checkpoint_reports_in_order(txs, parts, default_digest);
        assert(crate::json::rising(places, parts.len()));
        assert forall|i: int| 0 <= i < txs.len() implies readers.read(#[trigger] txs[i], parts[i]) by {
            assert(resp.transactions()[i] == txs[i]);
        }
        assert forall|k: int| 0 <= k < given.len() implies transaction_event(
            txs[places[k]],
            parts[places[k]],
            default_digest,
        ) == Some(#[trigger] given[k]) by {
            let place = places[k];
        }
        assert forall|i: int| 0 <= i < txs.len() implies {
            ||| places.contains(i)
            ||| transaction_event(#[trigger] txs[i], parts[i], default_digest) is None
        } by {
            if parts[i].effects is Some {
                assert(places.contains(i));
            }
        }
    }
}

/// Readers that take every input are all that is asked of readers.
pub proof fn law_readers_of_every_input_are_total<C: Chain, D, B, V, P, A, M, T>(
    readers: TransactionReaders<D, B, V, P, A, M, T>,
) where
    D: Fn(&String) -> Option<C::Digest>,
    B: Fn(&Vec<u8>) -> Option<C::RawEffects>,
    V: Fn(C::RawEffects) -> Option<C::Effects>,
    P: Fn(&String) -> Option<C::PackageId>,
    A: Fn(&String) -> Option<C::Address>,
    M: Fn(&String) -> Option<C::Module>,
    T: Fn(&String) -> Option<C::TypeTag>,

    requires
        forall|text: String| #[trigger] call_requires(readers.digest, (&text,)),
        forall|bytes: Vec<u8>| #[trigger] call_requires(readers.decode_effects, (&bytes,)),
        forall|raw: C::RawEffects| #[trigger] call_requires(readers.convert_effects, (raw,)),
        forall|text: String| #[trigger] call_requires(readers.events.package_id, (&text,)),
        forall|text: String| #[trigger] call_requires(readers.events.sender, (&text,)),
        forall|text: String| #[trigger] call_requires(readers.events.module, (&text,)),
        forall|text: String| #[trigger] call_requires(readers.events.type_tag, (&text,)),
    ensures
        readers.total::<C>(),
{
}

/// The model of a list of reports shows every one of them, in its place, and nothing else.
pub proof fn law_list_model_shows_every_report<C: Chain>(events: Seq<Event<C, SuiEvent<C>>>)
    ensures
        event_models(events).len() == events.len(),
        forall|i: int| 0 <= i < events.len() ==> #[trigger] event_models(events)[i] == events[i]@,
{
}

} // verus!
