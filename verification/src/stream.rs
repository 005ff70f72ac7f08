//! The checkpoint feed as a whole: what it gives out and what it records, over connections,
//! outages and retries.

use crate::chain::{Chain, Event, EventModel, SuiEvent, SuiEventModel};
use crate::checkpoint::{TransactionParts, TransactionReaders};
use crate::grpc::{GrpcCheckpointCollector, Session, SessionEvent};
use crate::proto::SubscribeCheckpointsResponse;
use vstd::prelude::*;

verus! {

/// What can happen to an event stream.
pub enum StreamEvent {
    /// This message was received.
    Message(SubscribeCheckpointsResponse),
    /// Anything else that can happen to the connection.
    Connection(SessionEvent),
}

impl StreamEvent {
    /// What happens to the connection.
    pub open spec fn to_session(self) -> SessionEvent {
        match self {
            StreamEvent::Message(_) => SessionEvent::Message,
            StreamEvent::Connection(event) => event,
        }
    }

    /// A message comes with its content.
    pub open spec fn valid(self) -> bool {
        self != StreamEvent::Connection(SessionEvent::Message)
    }
}

impl Session {
    /// The event is one that the stream with this session waits for.
    pub open spec fn takes(self, event: StreamEvent) -> bool {
        event.valid() && self.waits_for(event.to_session())
    }

    /// Whether the event is one that the stream with this session waits for.
    pub fn can_take(&self, event: &StreamEvent) -> (awaited: bool)
        ensures
            awaited == self.takes(*event),
    {
        match event {
            StreamEvent::Message(_) => self.awaits(SessionEvent::Message),
            StreamEvent::Connection(event) => match event {
                SessionEvent::Message => false,
                _ => self.awaits(*event),
            },
        }
    }
}

impl GrpcCheckpointCollector {
    /// The collector after an event of one of its streams. A message is recorded as the latest
    /// one; nothing else touches what is recorded.
    pub open spec fn after(self, event: StreamEvent) -> GrpcCheckpointCollector {
        match event {
            StreamEvent::Message(resp) => GrpcCheckpointCollector {
                last_checkpoint: resp.position(),
                ..self
            },
            StreamEvent::Connection(_) => self,
        }
    }

    /// Opens an event stream of the collector: its session, not connected yet. All streams of a
    /// collector share its record, which outlives them.
    pub fn event_stream(&self) -> (session: Session)
        ensures
            session == crate::grpc::fresh_session(),
            session.wf(),
    {
        Session::new()
    }

    /// Takes an event of the stream with the given session. Gives what is to be given out before
    /// anything else happens to the stream: the reports of a message, and nothing for any other
    /// event.
    pub fn on_event<C: Chain, D, B, V, P, A, M, T>(
        &mut self,
        session: &mut Session,
        event: StreamEvent,
        default_digest: C::Digest,
        readers: &TransactionReaders<D, B, V, P, A, M, T>,
    ) -> (given: Vec<Event<C, SuiEvent<C>>>) where
        D: Fn(&String) -> Option<C::Digest>,
        B: Fn(&Vec<u8>) -> Option<C::RawEffects>,
        V: Fn(C::RawEffects) -> Option<C::Effects>,
        P: Fn(&String) -> Option<C::PackageId>,
        A: Fn(&String) -> Option<C::Address>,
        M: Fn(&String) -> Option<C::Module>,
        T: Fn(&String) -> Option<C::TypeTag>,

        requires
            old(session).wf(),
            old(session).takes(event),
            readers.total::<C>(),
        ensures
            *final(self) == old(self).after(event),
            *final(session) == old(session).after(
                event.to_session(),
                old(self).max_disconnect_secs,
            ),
            final(session).wf(),
            gives(event, default_digest, *readers, crate::checkpoint::event_models(given@)),
    {
        let max_disconnect_secs: u64 = self.max_disconnect_secs;
        match event {
            StreamEvent::Message(resp) => {
                session.on_event(SessionEvent::Message, max_disconnect_secs);
                self.process_checkpoint(resp, default_digest, readers)
            },
            StreamEvent::Connection(event) => {
                session.on_event(event, max_disconnect_secs);
                let given: Vec<Event<C, SuiEvent<C>>> = Vec::new();
                assert(crate::checkpoint::event_models(given@) =~= Seq::empty());
                given
            },
        }
    }
}

/// A collector and the session of one of its streams.
pub struct CheckpointStream {
    pub collector: GrpcCheckpointCollector,
    pub session: Session,
}

impl CheckpointStream {
    /// Collector and session after an event of the stream.
    pub open spec fn after(self, event: StreamEvent) -> CheckpointStream {
        CheckpointStream {
            collector: self.collector.after(event),
            session: self.session.after(event.to_session(), self.collector.max_disconnect_secs),
        }
    }
}

/// The collector after a row of events of its streams, however many there are and in whatever
/// order their events came.
pub open spec fn collector_after(
    collector: GrpcCheckpointCollector,
    events: Seq<StreamEvent>,
) -> GrpcCheckpointCollector
    decreases events.len(),
{
    if events.len() == 0 {
        collector
    } else {
        collector_after(collector, events.drop_last()).after(events.last())
    }
}

/// `given` can be what the stream gives for an event.
pub open spec fn gives<C: Chain, D, B, V, P, A, M, T>(
    event: StreamEvent,
    default_digest: C::Digest,
    readers: TransactionReaders<D, B, V, P, A, M, T>,
    given: Seq<EventModel<C, SuiEventModel<C>>>,
) -> bool where
    D: Fn(&String) -> Option<C::Digest>,
    B: Fn(&Vec<u8>) -> Option<C::RawEffects>,
    V: Fn(C::RawEffects) -> Option<C::Effects>,
    P: Fn(&String) -> Option<C::PackageId>,
    A: Fn(&String) -> Option<C::Address>,
    M: Fn(&String) -> Option<C::Module>,
    T: Fn(&String) -> Option<C::TypeTag>,
 {
    match event {
        StreamEvent::Message(resp) => readers.reports(resp, default_digest, given),
        StreamEvent::Connection(_) => given == Seq::<EventModel<C, SuiEventModel<C>>>::empty(),
    }
}

/// `given` can be what the stream gives for each event of a row.
pub open spec fn gives_all<C: Chain, D, B, V, P, A, M, T>(
    events: Seq<StreamEvent>,
    default_digest: C::Digest,
    readers: TransactionReaders<D, B, V, P, A, M, T>,
    given: Seq<Seq<EventModel<C, SuiEventModel<C>>>>,
) -> bool where
    D: Fn(&String) -> Option<C::Digest>,
    B: Fn(&Vec<u8>) -> Option<C::RawEffects>,
    V: Fn(C::RawEffects) -> Option<C::Effects>,
    P: Fn(&String) -> Option<C::PackageId>,
    A: Fn(&String) -> Option<C::Address>,
    M: Fn(&String) -> Option<C::Module>,
    T: Fn(&String) -> Option<C::TypeTag>,
 {
    &&& given.len() == events.len()
    &&& forall|i: int|
        0 <= i < events.len() ==> gives(#[trigger] events[i], default_digest, readers, given[i])
}

/// Collector and session after a row of events of the stream.
pub open spec fn stream_after(stream: CheckpointStream, events: Seq<StreamEvent>) -> CheckpointStream
    decreases events.len(),
{
    if events.len() == 0 {
        stream
    } else {
        stream_after(stream, events.drop_last()).after(events.last())
    }
}

/// Each event of the row is one that the stream waits for when it comes.
pub open spec fn stream_can_happen(stream: CheckpointStream, events: Seq<StreamEvent>) -> bool
    decreases events.len(),
{
    events.len() > 0 ==> {
        &&& stream_can_happen(stream, events.drop_last())
        &&& stream_after(stream, events.drop_last()).session.takes(events.last())
    }
}

/// What happens to the connection in a row of events.
pub open spec fn session_events(events: Seq<StreamEvent>) -> Seq<SessionEvent> {
    events.map_values(|event: StreamEvent| event.to_session())
}

/// The messages in a row of events, in the order in which they were received, over all
/// subscriptions.
pub open spec fn messages(events: Seq<StreamEvent>) -> Seq<SubscribeCheckpointsResponse>
    decreases events.len(),
{
    if events.len() == 0 {
        Seq::empty()
    } else {
        match events.last() {
            StreamEvent::Message(resp) => messages(events.drop_last()).push(resp),
            StreamEvent::Connection(_) => messages(events.drop_last()),
        }
    }
}

/// Lists one after the other.
pub open spec fn joined<E>(lists: Seq<Seq<E>>) -> Seq<E>
    decreases lists.len(),
{
    if lists.len() == 0 {
        Seq::empty()
    } else {
        joined(lists.drop_last()) + lists.last()
    }
}

/// `parts` can be what the readers gave for the transactions of each of the messages.
pub open spec fn read_messages<C: Chain, D, B, V, P, A, M, T>(
    messages: Seq<SubscribeCheckpointsResponse>,
    readers: TransactionReaders<D, B, V, P, A, M, T>,
    parts: Seq<Seq<TransactionParts<C>>>,
) -> bool where
    D: Fn(&String) -> Option<C::Digest>,
    B: Fn(&Vec<u8>) -> Option<C::RawEffects>,
    V: Fn(C::RawEffects) -> Option<C::Effects>,
    P: Fn(&String) -> Option<C::PackageId>,
    A: Fn(&String) -> Option<C::Address>,
    M: Fn(&String) -> Option<C::Module>,
    T: Fn(&String) -> Option<C::TypeTag>,
 {
    &&& parts.len() == messages.len()
    &&& forall|i: int|
        0 <= i < messages.len() ==> readers.read_all(
            (#[trigger] messages[i]).transactions(),
            parts[i],
        )
}

/// The reports of each of the messages.
pub open spec fn message_reports<C: Chain>(
    messages: Seq<SubscribeCheckpointsResponse>,
    parts: Seq<Seq<TransactionParts<C>>>,
    default_digest: C::Digest,
) -> Seq<Seq<EventModel<C, SuiEventModel<C>>>> {
    Seq::new(
        messages.len(),
        |i: int|
            crate::checkpoint::checkpoint_events(
                messages[i].transactions(),
                parts[i],
                default_digest,
            ),
    )
}

/// What a stream gives out is the reports of the messages it received, one after the other:
/// whatever connections, outages and retries lie between them, nothing is reordered, left out,
/// repeated or added.
pub proof fn law_stream_gives_the_reports_of_its_messages<C: Chain, D, B, V, P, A, M, T>(
    events: Seq<StreamEvent>,
    default_digest: C::Digest,
    readers: TransactionReaders<D, B, V, P, A, M, T>,
    given: Seq<Seq<EventModel<C, SuiEventModel<C>>>>,
) where
    D: Fn(&String) -> Option<C::Digest>,
    B: Fn(&Vec<u8>) -> Option<C::RawEffects>,
    V: Fn(C::RawEffects) -> Option<C::Effects>,
    P: Fn(&String) -> Option<C::PackageId>,
    A: Fn(&String) -> Option<C::Address>,
    M: Fn(&String) -> Option<C::Module>,
    T: Fn(&String) -> Option<C::TypeTag>,

    requires
        gives_all(events, default_digest, readers, given),
    ensures
        exists|parts: Seq<Seq<TransactionParts<C>>>|
            {
                &&& #[trigger] read_messages(messages(events), readers, parts)
                &&& joined(given) == joined(
                    message_reports(messages(events), parts, default_digest),
                )
            },
    decreases events.len(),
{
    if events.len() == 0 {
        let parts: Seq<Seq<TransactionParts<C>>> = Seq::empty();
        assert(read_messages(messages(events), readers, parts));
    } else {
        let init = events.drop_last();
        let last = events.len() - 1;
        assert forall|i: int| 0 <= i < init.len() implies gives(
            #[trigger] init[i],
            default_digest,
            readers,
            given.drop_last()[i],
        ) by {
            assert(init[i] == events[i]);
        }
        law_stream_gives_the_reports_of_its_messages(
            init,
            default_digest,
            readers,
            given.drop_last(),
        );
        let before = choose|parts: Seq<Seq<TransactionParts<C>>>|
            {
                &&& #[trigger] read_messages(messages(init), readers, parts)
                &&& joined(given.drop_last()) == joined(
                    message_reports(messages(init), parts, default_digest),
                )
            };
        assert(gives(events[last], default_digest, readers, given[last]));
        match events[last] {
            StreamEvent::Message(resp) => {
                let tx_parts = choose|parts: Seq<TransactionParts<C>>|
                    {
                        &&& #[trigger] readers.read_all(resp.transactions(), parts)
                        &&& given[last] == crate::checkpoint::checkpoint_events(
                            resp.transactions(),
                            parts,
                            default_digest,
                        )
                    };
                let parts = before.push(tx_parts);
                let all = messages(events);
                assert forall|i: int| 0 <= i < all.len() implies readers.read_all(
                    (#[trigger] all[i]).transactions(),
                    parts[i],
                ) by {
                    if i < messages(init).len() {
                        assert(all[i] == messages(init)[i]);
                    }
                }
                assert(read_messages(all, readers, parts));
                let reports = message_reports(all, parts, default_digest);
                assert(reports.drop_last() =~= message_reports(
                    messages(init),
                    before,
                    default_digest,
                ));
                assert(reports.last() == given[last]);
            },
            StreamEvent::Connection(_) => {
                assert(joined(given) =~= joined(given.drop_last()));
                assert(read_messages(messages(events), readers, before));
            },
        }
    }
}

/// Reconnects change nothing: with readers that give one value for one input, two streams that
/// received the same messages give out the same, however their connections fared.
pub proof fn law_reconnects_change_nothing<C: Chain, D, B, V, P, A, M, T>(
    events: Seq<StreamEvent>,
    given: Seq<Seq<EventModel<C, SuiEventModel<C>>>>,
    other_events: Seq<StreamEvent>,
    other_given: Seq<Seq<EventModel<C, SuiEventModel<C>>>>,
    default_digest: C::Digest,
    readers: TransactionReaders<D, B, V, P, A, M, T>,
) where
    D: Fn(&String) -> Option<C::Digest>,
    B: Fn(&Vec<u8>) -> Option<C::RawEffects>,
    V: Fn(C::RawEffects) -> Option<C::Effects>,
    P: Fn(&String) -> Option<C::PackageId>,
    A: Fn(&String) -> Option<C::Address>,
    M: Fn(&String) -> Option<C::Module>,
    T: Fn(&String) -> Option<C::TypeTag>,

    requires
        readers.deterministic::<C>(),
        gives_all(events, default_digest, readers, given),
        gives_all(other_events, default_digest, readers, other_given),
        messages(events) == messages(other_events),
    ensures
        joined(given) == joined(other_given),
{
    let all = messages(events);
    law_stream_gives_the_reports_of_its_messages(events, default_digest, readers, given);
    law_stream_gives_the_reports_of_its_messages(
        other_events,
        default_digest,
        readers,
        other_given,
    );
    let parts = choose|parts: Seq<Seq<TransactionParts<C>>>|
        {
            &&& #[trigger] read_messages(all, readers, parts)
            &&& joined(given) == joined(message_reports(all, parts, default_digest))
        };
    let others = choose|parts: Seq<Seq<TransactionParts<C>>>|
        {
            &&& #[trigger] read_messages(all, readers, parts)
            &&& joined(other_given) == joined(message_reports(all, parts, default_digest))
        };
    assert forall|i: int| 0 <= i < all.len() implies message_reports(
        all,
        parts,
        default_digest,
    )[i] == message_reports(all, others, default_digest)[i] by {
        assert(readers.read_all(all[i].transactions(), parts[i]));
        assert(readers.read_all(all[i].transactions(), others[i]));
        crate::checkpoint::law_readers_decide_reports(
            all[i].transactions(),
            parts[i],
            others[i],
            default_digest,
            readers,
        );
    }
    assert(message_reports(all, parts, default_digest) =~= message_reports(
        all,
        others,
        default_digest,
    ));
}

/// The collector records the place of the latest message, at every time and over all its streams:
/// attempts that fail, subscriptions that are refused, streams that fail or end and new
/// connections leave it alone, and so it is what it was until the first message comes. The
/// endpoint and the limit of an outage never change.
pub proof fn law_recorded_place_is_that_of_the_latest_message(
    collector: GrpcCheckpointCollector,
    events: Seq<StreamEvent>,
)
    ensures
        collector_after(collector, events) == (GrpcCheckpointCollector {
            last_checkpoint: if messages(events).len() == 0 {
                collector.last_checkpoint
            } else {
                messages(events).last().position()
            },
            ..collector
        }),
    decreases events.len(),
{
    if events.len() > 0 {
        law_recorded_place_is_that_of_the_latest_message(collector, events.drop_last());
    }
}

/// The connection of a stream takes its course as a session does, so that what holds of every
/// session holds of every stream; and the stream keeps the record of its collector.
pub proof fn law_stream_runs_a_session(stream: CheckpointStream, events: Seq<StreamEvent>)
    requires
        stream_can_happen(stream, events),
    ensures
        crate::grpc::can_happen(
            stream.session,
            session_events(events),
            stream.collector.max_disconnect_secs,
        ),
        stream_after(stream, events).session == crate::grpc::after_all(
            stream.session,
            session_events(events),
            stream.collector.max_disconnect_secs,
        ),
        stream_after(stream, events).collector == collector_after(stream.collector, events),
    decreases events.len(),
{
    if events.len() > 0 {
        let init = events.drop_last();
        law_stream_runs_a_session(stream, init);
        law_recorded_place_is_that_of_the_latest_message(stream.collector, init);
        assert(session_events(events).drop_last() =~= session_events(init));
    }
}

/// All that a message gives is given out before the next message is received.
pub proof fn law_reports_are_given_out_before_the_next_message(
    stream: CheckpointStream,
    events: Seq<StreamEvent>,
    i: int,
    j: int,
)
    requires
        stream_can_happen(stream, events),
        0 <= i < j < events.len(),
        events[i] is Message,
        events[j] is Message,
    ensures
        exists|k: int|
            i < k < j && #[trigger] events[k] == StreamEvent::Connection(SessionEvent::Delivered),
{
    let row = session_events(events);
    law_stream_runs_a_session(stream, events);
    crate::grpc::law_message_is_delivered_before_the_next(
        stream.session,
        row,
        i,
        j,
        stream.collector.max_disconnect_secs,
    );
    let k = choose|k: int| i < k < j && #[trigger] row[k] == SessionEvent::Delivered;
    assert(events[k].to_session() == SessionEvent::Delivered);
    assert(events[k] == StreamEvent::Connection(SessionEvent::Delivered));
}

/// A message is recorded under its cursor, and under the start of the stream without one, whatever
/// was recorded before; nothing else is touched, and no other event touches anything.
pub proof fn law_message_is_recorded_under_its_cursor(
    collector: GrpcCheckpointCollector,
    event: StreamEvent,
)
    ensures
        collector.after(event).grpc_endpoint == collector.grpc_endpoint,
        collector.after(event).max_disconnect_secs == collector.max_disconnect_secs,
        match event {
            StreamEvent::Message(resp) => {
                &&& resp.cursor matches Some(cursor) ==> collector.after(event).last_checkpoint
                    == cursor
                &&& resp.cursor is None ==> collector.after(event).last_checkpoint == 0
            },
            StreamEvent::Connection(_) => collector.after(event).last_checkpoint
                == collector.last_checkpoint,
        },
{
}

/// A stream takes a message just where it asks for one, and any other event just where its session
/// waits for it; and each event moves the session as the same event of the connection does.
pub proof fn law_stream_takes_what_its_session_asks_for(
    session: Session,
    resp: SubscribeCheckpointsResponse,
    event: SessionEvent,
)
    ensures
        session.takes(StreamEvent::Message(resp)) <==> session.asks()
            == crate::grpc::SessionAction::Receive,
        session.takes(StreamEvent::Connection(event)) <==> event != SessionEvent::Message
            && session.waits_for(event),
        StreamEvent::Message(resp).to_session() == SessionEvent::Message,
        StreamEvent::Connection(event).to_session() == event,
{
}

/// What is given out for one event: for a message, all that the message reports and nothing else;
/// for any other event, nothing.
pub proof fn law_event_gives_the_reports_of_its_message<C: Chain, D, B, V, P, A, M, T>(
    event: StreamEvent,
    default_digest: C::Digest,
    readers: TransactionReaders<D, B, V, P, A, M, T>,
    given: Seq<EventModel<C, SuiEventModel<C>>>,
) where
    D: Fn(&String) -> Option<C::Digest>,
    B: Fn(&Vec<u8>) -> Option<C::RawEffects>,
    V: Fn(C::RawEffects) -> Option<C::Effects>,
    P: Fn(&String) -> Option<C::PackageId>,
    A: Fn(&String) -> Option<C::Address>,
    M: Fn(&String) -> Option<C::Module>,
    T: Fn(&String) -> Option<C::TypeTag>,

    requires
        gives(event, default_digest, readers, given),
    ensures
        event matches StreamEvent::Message(resp) ==> readers.reports(resp, default_digest, given),
        event is Connection ==> given.len() == 0,
{
}

} // verus!
