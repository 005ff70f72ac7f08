//! The feed of checkpoints over gRPC: the collector, and the course of its connection.

use crate::chain::{Chain, Event, SuiEvent};
use crate::checkpoint::{process_checkpoint_internal, TransactionReaders};
use crate::proto::SubscribeCheckpointsResponse;
use vstd::prelude::*;

verus! {

/// Nanoseconds in a second.
pub const NANOS_PER_SEC: u128 = 1_000_000_000;

/// Seconds between two attempts to connect.
pub const BACKOFF_SECS: u64 = 1;

/// Seconds between two signs of life on an open connection.
pub const KEEP_ALIVE_INTERVAL_SECS: u64 = 30;

/// Seconds that a sign of life may stay unanswered.
pub const KEEP_ALIVE_TIMEOUT_SECS: u64 = 10;

/// The status with which the process ends after an outage that is too long.
pub const EXIT_CODE: i32 = 1;

/// A collector that subscribes to the checkpoint stream of a full node. Within one subscription
/// the node promises checkpoints as they are finalized, in order and without gaps; the collector
/// takes them as they come.
pub struct GrpcCheckpointCollector {
    pub grpc_endpoint: String,
    /// The place of the latest message that was processed.
    pub last_checkpoint: u64,
    pub max_disconnect_secs: u64,
}

impl GrpcCheckpointCollector {
    /// A collector for the full node at `grpc_endpoint`, which gives up after an outage of more
    /// than `max_disconnect_mins` minutes.
    pub fn new(grpc_endpoint: &str, max_disconnect_mins: u64) -> (collector: Self)
        requires
            max_disconnect_mins * 60 <= u64::MAX,
        ensures
            collector.grpc_endpoint@ == grpc_endpoint@,
            collector.last_checkpoint == 0,
            collector.max_disconnect_secs == max_disconnect_mins * 60,
    {
        GrpcCheckpointCollector {
            grpc_endpoint: grpc_endpoint.to_string(),
            last_checkpoint: 0,
            max_disconnect_secs: max_disconnect_mins * 60,
        }
    }

    /// The name of the collector.
    pub fn name(&self) -> (name: &str)
        ensures
            name@ == "GrpcCheckpointCollector"@,
    {
        "GrpcCheckpointCollector"
    }

    /// Processes a message of the stream: records its place, and reports its transactions.
    pub fn process_checkpoint<C: Chain, D, B, V, P, A, M, T>(
        &mut self,
        resp: SubscribeCheckpointsResponse,
        default_digest: C::Digest,
        readers: &TransactionReaders<D, B, V, P, A, M, T>,
    ) -> (events: Vec<Event<C, SuiEvent<C>>>) where
        D: Fn(&String) -> Option<C::Digest>,
        B: Fn(&Vec<u8>) -> Option<C::RawEffects>,
        V: Fn(C::RawEffects) -> Option<C::Effects>,
        P: Fn(&String) -> Option<C::PackageId>,
        A: Fn(&String) -> Option<C::Address>,
        M: Fn(&String) -> Option<C::Module>,
        T: Fn(&String) -> Option<C::TypeTag>,

        requires
            readers.total::<C>(),
        ensures
            *final(self) == (GrpcCheckpointCollector {
                last_checkpoint: resp.position(),
                ..*old(self)
            }),
            readers.reports(resp, default_digest, crate::checkpoint::event_models(events@)),
    {
        process_checkpoint_internal(&mut self.last_checkpoint, resp, default_digest, readers)
    }
}

/// The parts of a checkpoint that the subscription asks for, named relative to the checkpoint.
pub fn checkpoint_read_mask() -> (paths: Vec<String>)
    ensures
        paths@.len() == 3,
        paths@[0]@ == "sequence_number"@,
        paths@[1]@ == "digest"@,
        paths@[2]@ == "transactions"@,
{
    let mut paths: Vec<String> = Vec::new();
    paths.push("sequence_number".to_string());
    paths.push("digest".to_string());
    paths.push("transactions".to_string());
    paths
}

/// What a session waits for.
#[derive(Clone, Copy, PartialEq, Eq, Debug, Structural)]
pub enum Phase {
    /// The endpoint is being configured.
    Configure,
    /// The connection is being opened.
    Connect,
    /// The subscription is being made.
    Subscribe,
    /// The next message of the stream is being received.
    Receive,
    /// A message is being converted and given out.
    Deliver,
    /// The connection is lost, and the clock is being read for the start of the outage.
    Mark,
    /// The clock is being read for the length of the outage.
    Measure,
    /// The pause before the next attempt runs.
    Wait,
    /// The session is over.
    Exited,
}

/// What can happen to a session. Times are readings of a monotonic clock, in nanoseconds.
#[derive(Clone, Copy, PartialEq, Eq, Debug, Structural)]
pub enum SessionEvent {
    /// The endpoint is configured.
    Configured,
    /// The endpoint is not a valid address.
    EndpointInvalid,
    /// The connection is open.
    Connected,
    /// The connection could not be opened.
    ConnectFailed,
    /// The subscription is made.
    Subscribed,
    /// The subscription was refused.
    SubscribeFailed,
    /// A message of the stream was received.
    Message,
    /// The stream failed.
    StreamFailed,
    /// The stream ended.
    StreamEnded,
    /// The message was converted and given out.
    Delivered,
    /// The clock was read.
    Clock(u128),
    /// The pause is over.
    Waited,
}

/// What a session asks for.
#[derive(Clone, Copy, PartialEq, Eq, Debug, Structural)]
pub enum SessionAction {
    /// Configure the endpoint, with signs of life on an open connection, idle or not.
    Configure { keep_alive_interval_secs: u64, keep_alive_timeout_secs: u64, while_idle: bool },
    /// Open the connection.
    Connect,
    /// Subscribe to checkpoints.
    Subscribe,
    /// Receive the next message.
    Receive,
    /// Convert the message and give its events out.
    Deliver,
    /// Read the clock.
    ReadClock,
    /// Pause.
    Wait { secs: u64 },
    /// End the process.
    Exit { code: i32 },
}

/// The course of a subscription through connections, outages and retries.
#[derive(Clone, Copy, PartialEq, Eq, Debug, Structural)]
pub struct Session {
    pub phase: Phase,
    /// When the outage at hand started; nothing while there is none.
    pub disconnect_start: Option<u128>,
}

/// How long an outage has lasted. A clock that stands before the start has not moved.
pub open spec fn outage(start: u128, now: u128) -> int {
    if now > start {
        now - start
    } else {
        0
    }
}

impl Session {
    /// The start of an outage is known while it is measured and until the next attempt, and
    /// there is no outage while the connection is open.
    pub open spec fn wf(self) -> bool {
        match self.phase {
            Phase::Configure | Phase::Connect => true,
            Phase::Subscribe | Phase::Receive | Phase::Deliver | Phase::Mark =>
                self.disconnect_start is None,
            Phase::Measure | Phase::Wait | Phase::Exited => self.disconnect_start is Some,
        }
    }

    /// The event is one that the session waits for.
    pub open spec fn waits_for(self, event: SessionEvent) -> bool {
        match event {
            SessionEvent::Configured | SessionEvent::EndpointInvalid => self.phase
                == Phase::Configure,
            SessionEvent::Connected | SessionEvent::ConnectFailed => self.phase == Phase::Connect,
            SessionEvent::Subscribed | SessionEvent::SubscribeFailed => self.phase
                == Phase::Subscribe,
            SessionEvent::Message | SessionEvent::StreamFailed | SessionEvent::StreamEnded =>
                self.phase == Phase::Receive,
            SessionEvent::Delivered => self.phase == Phase::Deliver,
            SessionEvent::Clock(_) => self.phase == Phase::Mark || self.phase == Phase::Measure,
            SessionEvent::Waited => self.phase == Phase::Wait,
        }
    }

    /// The session without a connection: the outage starts now, unless it already runs.
    pub open spec fn disconnected(self) -> Session {
        Session {
            phase: if self.disconnect_start is Some {
                Phase::Measure
            } else {
                Phase::Mark
            },
            disconnect_start: self.disconnect_start,
        }
    }

    /// The session after an event.
    pub open spec fn after(self, event: SessionEvent, max_disconnect_secs: u64) -> Session {
        match event {
            SessionEvent::Configured => Session { phase: Phase::Connect, ..self },
            SessionEvent::EndpointInvalid => self,
            SessionEvent::Connected => Session { phase: Phase::Subscribe, disconnect_start: None },
            SessionEvent::Subscribed => Session { phase: Phase::Receive, ..self },
            SessionEvent::Message => Session { phase: Phase::Deliver, ..self },
            SessionEvent::Delivered => Session { phase: Phase::Receive, ..self },
            SessionEvent::ConnectFailed
            | SessionEvent::SubscribeFailed
            | SessionEvent::StreamFailed
            | SessionEvent::StreamEnded => self.disconnected(),
            SessionEvent::Clock(now) => match self.disconnect_start {
                None => Session { phase: Phase::Measure, disconnect_start: Some(now) },
                Some(start) => Session {
                    phase: if outage(start, now) > max_disconnect_secs * NANOS_PER_SEC {
                        Phase::Exited
                    } else {
                        Phase::Wait
                    },
                    ..self
                },
            },
            SessionEvent::Waited => Session { phase: Phase::Configure, ..self },
        }
    }

    /// What the session asks for.
    pub open spec fn asks(self) -> SessionAction {
        match self.phase {
            Phase::Configure => SessionAction::Configure {
                keep_alive_interval_secs: KEEP_ALIVE_INTERVAL_SECS,
                keep_alive_timeout_secs: KEEP_ALIVE_TIMEOUT_SECS,
                while_idle: true,
            },
            Phase::Connect => SessionAction::Connect,
            Phase::Subscribe => SessionAction::Subscribe,
            Phase::Receive => SessionAction::Receive,
            Phase::Deliver => SessionAction::Deliver,
            Phase::Mark | Phase::Measure => SessionAction::ReadClock,
            Phase::Wait => SessionAction::Wait { secs: BACKOFF_SECS },
            Phase::Exited => SessionAction::Exit { code: EXIT_CODE },
        }
    }

    /// A session that has not connected yet.
    pub fn new() -> (session: Self)
        ensures
            session == (Session { phase: Phase::Configure, disconnect_start: None }),
            session.wf(),
    {
        Session { phase: Phase::Configure, disconnect_start: None }
    }

    /// What the session asks for.
    pub fn action(&self) -> (action: SessionAction)
        ensures
            action == self.asks(),
    {
        match self.phase {
            Phase::Configure => SessionAction::Configure {
                keep_alive_interval_secs: KEEP_ALIVE_INTERVAL_SECS,
                keep_alive_timeout_secs: KEEP_ALIVE_TIMEOUT_SECS,
                while_idle: true,
            },
            Phase::Connect => SessionAction::Connect,
            Phase::Subscribe => SessionAction::Subscribe,
            Phase::Receive => SessionAction::Receive,
            Phase::Deliver => SessionAction::Deliver,
            Phase::Mark | Phase::Measure => SessionAction::ReadClock,
            Phase::Wait => SessionAction::Wait { secs: BACKOFF_SECS },
            Phase::Exited => SessionAction::Exit { code: EXIT_CODE },
        }
    }

    /// Whether the event is one that the session waits for.
    pub fn awaits(&self, event: SessionEvent) -> (awaited: bool)
        ensures
            awaited == self.waits_for(event),
    {
        match event {
            SessionEvent::Configured | SessionEvent::EndpointInvalid => self.phase
                == Phase::Configure,
            SessionEvent::Connected | SessionEvent::ConnectFailed => self.phase == Phase::Connect,
            SessionEvent::Subscribed | SessionEvent::SubscribeFailed => self.phase
                == Phase::Subscribe,
            SessionEvent::Message | SessionEvent::StreamFailed | SessionEvent::StreamEnded =>
                self.phase == Phase::Receive,
            SessionEvent::Delivered => self.phase == Phase::Deliver,
            SessionEvent::Clock(_) => self.phase == Phase::Mark || self.phase == Phase::Measure,
            SessionEvent::Waited => self.phase == Phase::Wait,
        }
    }

    /// Ends the connection: the outage starts now, unless it already runs.
    fn lose_connection(&mut self)
        ensures
            *final(self) == old(self).disconnected(),
    {
        if self.disconnect_start.is_some() {
            self.phase = Phase::Measure;
        } else {
            self.phase = Phase::Mark;
        }
    }

    /// Takes an event.
    pub fn on_event(&mut self, event: SessionEvent, max_disconnect_secs: u64)
        requires
            old(self).wf(),
            old(self).waits_for(event),
        ensures
            *final(self) == old(self).after(event, max_disconnect_secs),
            final(self).wf(),
    {
        match event {
            SessionEvent::Configured => {
                self.phase = Phase::Connect;
            },
            SessionEvent::EndpointInvalid => {},
            SessionEvent::Connected => {
                self.disconnect_start = None;
                self.phase = Phase::Subscribe;
            },
            SessionEvent::Subscribed | SessionEvent::Delivered => {
                self.phase = Phase::Receive;
            },
            SessionEvent::Message => {
                self.phase = Phase::Deliver;
            },
            SessionEvent::ConnectFailed
            | SessionEvent::SubscribeFailed
            | SessionEvent::StreamFailed
            | SessionEvent::StreamEnded => {
                self.lose_connection();
            },
            SessionEvent::Clock(now) => match self.disconnect_start {
                None => {
                    self.disconnect_start = Some(now);
                    self.phase = Phase::Measure;
                },
                Some(start) => {
                    let elapsed: u128 = if now > start {
                        now - start
                    } else {
                        0
                    };
                    assert(max_disconnect_secs * NANOS_PER_SEC <= u128::MAX) by (nonlinear_arith)
                        requires
                            max_disconnect_secs <= u64::MAX,
                            NANOS_PER_SEC == 1_000_000_000,
                    ;
                    if elapsed > max_disconnect_secs as u128 * NANOS_PER_SEC {
                        self.phase = Phase::Exited;
                    } else {
                        self.phase = Phase::Wait;
                    }
                },
            },
            SessionEvent::Waited => {
                self.phase = Phase::Configure;
            },
        }
    }
}

/// The session after a row of events.
pub open spec fn after_all(
    session: Session,
    events: Seq<SessionEvent>,
    max_disconnect_secs: u64,
) -> Session
    decreases events.len(),
{
    if events.len() == 0 {
        session
    } else {
        after_all(session, events.drop_last(), max_disconnect_secs).after(
            events.last(),
            max_disconnect_secs,
        )
    }
}

/// Each event of the row is one that the session waits for when it comes.
pub open spec fn can_happen(
    session: Session,
    events: Seq<SessionEvent>,
    max_disconnect_secs: u64,
) -> bool
    decreases events.len(),
{
    events.len() > 0 ==> {
        &&& can_happen(session, events.drop_last(), max_disconnect_secs)
        &&& after_all(session, events.drop_last(), max_disconnect_secs).waits_for(events.last())
    }
}

/// A session that has not connected yet.
pub open spec fn fresh_session() -> Session {
    Session { phase: Phase::Configure, disconnect_start: None }
}

/// How often an event occurs in a row.
pub open spec fn occurrences(events: Seq<SessionEvent>, event: SessionEvent) -> nat
    decreases events.len(),
{
    if events.len() == 0 {
        0
    } else {
        occurrences(events.drop_last(), event) + if events.last() == event {
            1nat
        } else {
            0nat
        }
    }
}

/// No connection is opened from the place `from` of the row on.
pub open spec fn no_connection_since(events: Seq<SessionEvent>, from: int) -> bool {
    forall|k: int| from <= k < events.len() ==> #[trigger] events[k] != SessionEvent::Connected
}

/// Whatever happens, a session stays well formed.
pub proof fn law_session_stays_well_formed(
    session: Session,
    events: Seq<SessionEvent>,
    max_disconnect_secs: u64,
)
    requires
        session.wf(),
        can_happen(session, events, max_disconnect_secs),
    ensures
        after_all(session, events, max_disconnect_secs).wf(),
    decreases events.len(),
{
    if events.len() > 0 {
        law_session_stays_well_formed(session, events.drop_last(), max_disconnect_secs);
    }
}

/// Retries do not reset an outage: as long as no connection is opened, the start of the outage
/// stays what it was.
pub proof fn law_retries_keep_the_start_of_an_outage(
    session: Session,
    events: Seq<SessionEvent>,
    max_disconnect_secs: u64,
)
    requires
        session.wf(),
        session.disconnect_start is Some,
        can_happen(session, events, max_disconnect_secs),
        no_connection_since(events, 0),
    ensures
        after_all(session, events, max_disconnect_secs).disconnect_start
            == session.disconnect_start,
    decreases events.len(),
{
    if events.len() > 0 {
        let init = events.drop_last();
        assert(no_connection_since(init, 0)) by {
            assert forall|k: int| 0 <= k < init.len() implies #[trigger] init[k]
                != SessionEvent::Connected by {
                assert(init[k] == events[k]);
            }
        }
        law_retries_keep_the_start_of_an_outage(session, init, max_disconnect_secs);
        assert(events[events.len() - 1] != SessionEvent::Connected);
    }
}

/// An open connection ends the outage: the next one is measured from its own start.
pub proof fn law_connection_ends_the_outage(session: Session, max_disconnect_secs: u64)
    ensures
        session.after(SessionEvent::Connected, max_disconnect_secs).disconnect_start is None,
{
}

/// The start of an outage is a reading of the clock, and no connection was opened since.
proof fn lemma_start_was_read(events: Seq<SessionEvent>, max_disconnect_secs: u64)
    requires
        can_happen(fresh_session(), events, max_disconnect_secs),
    ensures
        after_all(fresh_session(), events, max_disconnect_secs).disconnect_start matches Some(start)
            ==> exists|i: int|
            {
                &&& 0 <= i < events.len()
                &&& #[trigger] events[i] == SessionEvent::Clock(start)
                &&& no_connection_since(events, i)
            },
    decreases events.len(),
{
    if events.len() > 0 {
        let init = events.drop_last();
        let last = events.len() - 1;
        let before = after_all(fresh_session(), init, max_disconnect_secs);
        let now = after_all(fresh_session(), events, max_disconnect_secs);
        lemma_start_was_read(init, max_disconnect_secs);
        if now.disconnect_start is Some {
            let start = now.disconnect_start->0;
            if before.disconnect_start == now.disconnect_start {
                let i = choose|i: int|
                    {
                        &&& 0 <= i < init.len()
                        &&& #[trigger] init[i] == SessionEvent::Clock(start)
                        &&& no_connection_since(init, i)
                    };
                assert(events[i] == SessionEvent::Clock(start));
                assert(no_connection_since(events, i)) by {
                    assert forall|k: int| i <= k < events.len() implies #[trigger] events[k]
                        != SessionEvent::Connected by {
                        if k < last {
                            assert(init[k] == events[k]);
                        }
                    }
                }
            } else {
                assert(events[last] == SessionEvent::Clock(start));
                assert(no_connection_since(events, last));
            }
        }
    }
}

/// A session ends only after an outage that is too long: two readings of the clock lie further
/// apart than the limit, and no connection was opened from the first of them on.
pub proof fn law_exit_follows_a_long_outage(events: Seq<SessionEvent>, max_disconnect_secs: u64)
    requires
        can_happen(fresh_session(), events, max_disconnect_secs),
        after_all(fresh_session(), events, max_disconnect_secs).phase == Phase::Exited,
    ensures
        exists|i: int, j: int|
            {
                &&& 0 <= i < j < events.len()
                &&& #[trigger] events[i] is Clock
                &&& #[trigger] events[j] is Clock
                &&& outage(events[i]->Clock_0, events[j]->Clock_0) > max_disconnect_secs
                    * NANOS_PER_SEC
                &&& no_connection_since(events, i)
            },
{
    let init = events.drop_last();
    let j = events.len() - 1;
    let before = after_all(fresh_session(), init, max_disconnect_secs);
    law_session_stays_well_formed(fresh_session(), init, max_disconnect_secs);
    lemma_start_was_read(init, max_disconnect_secs);
    assert(events[j] is Clock);
    let now = events[j]->Clock_0;
    assert(before.phase == Phase::Measure);
    let start = before.disconnect_start->0;
    let i = choose|i: int|
        {
            &&& 0 <= i < init.len()
            &&& #[trigger] init[i] == SessionEvent::Clock(start)
            &&& no_connection_since(init, i)
        };
    assert(events[i] == SessionEvent::Clock(start));
    assert(events[j] == SessionEvent::Clock(now));
    assert(no_connection_since(events, i)) by {
        assert forall|k: int| i <= k < events.len() implies #[trigger] events[k]
            != SessionEvent::Connected by {
            if k < j {
                assert(init[k] == events[k]);
            }
        }
    }
}

/// An outage that is too long ends the session at the first measurement that shows it, whatever
/// attempts were made since it started.
pub proof fn law_long_outage_ends_the_session(
    session: Session,
    events: Seq<SessionEvent>,
    now: u128,
    max_disconnect_secs: u64,
)
    requires
        session.wf(),
        session.disconnect_start matches Some(start) && outage(start, now) > max_disconnect_secs
            * NANOS_PER_SEC,
        can_happen(session, events, max_disconnect_secs),
        no_connection_since(events, 0),
        after_all(session, events, max_disconnect_secs).waits_for(SessionEvent::Clock(now)),
    ensures
        after_all(session, events, max_disconnect_secs).after(
            SessionEvent::Clock(now),
            max_disconnect_secs,
        ).asks() == (SessionAction::Exit { code: EXIT_CODE }),
{
    law_retries_keep_the_start_of_an_outage(session, events, max_disconnect_secs);
}

/// A session that has ended waits for nothing more.
pub proof fn law_exit_is_final(session: Session, event: SessionEvent)
    requires
        session.phase == Phase::Exited,
    ensures
        !session.waits_for(event),
{
}

/// Every message that was received is given out once, before the next is received: at any time
/// all of them are, but for the one at hand.
pub proof fn law_each_message_is_delivered_once(
    events: Seq<SessionEvent>,
    max_disconnect_secs: u64,
)
    requires
        can_happen(fresh_session(), events, max_disconnect_secs),
    ensures
        occurrences(events, SessionEvent::Message) == occurrences(events, SessionEvent::Delivered)
            + if after_all(fresh_session(), events, max_disconnect_secs).phase == Phase::Deliver {
            1nat
        } else {
            0nat
        },
    decreases events.len(),
{
    if events.len() > 0 {
        law_each_message_is_delivered_once(events.drop_last(), max_disconnect_secs);
    }
}

/// Two messages never meet: between any two of them the first is given out.
pub proof fn law_message_is_delivered_before_the_next(
    session: Session,
    events: Seq<SessionEvent>,
    i: int,
    j: int,
    max_disconnect_secs: u64,
)
    requires
        can_happen(session, events, max_disconnect_secs),
        0 <= i < j < events.len(),
        events[i] == SessionEvent::Message,
        events[j] == SessionEvent::Message,
    ensures
        exists|k: int| i < k < j && #[trigger] events[k] == SessionEvent::Delivered,
    decreases events.len(),
{
    if j < events.len() - 1 {
        let init = events.drop_last();
        law_message_is_delivered_before_the_next(session, init, i, j, max_disconnect_secs);
        let k = choose|k: int| i < k < j && #[trigger] init[k] == SessionEvent::Delivered;
        assert(events[k] == SessionEvent::Delivered);
    } else {
        lemma_message_stays_at_hand(session, events.drop_last(), i, max_disconnect_secs);
        let k = choose|k: int|
            i < k < events.len() - 1 && #[trigger] events.drop_last()[k] == SessionEvent::Delivered;
        assert(events[k] == SessionEvent::Delivered);
    }
}

/// After a message the session gives it out, until it has.
proof fn lemma_message_stays_at_hand(
    session: Session,
    events: Seq<SessionEvent>,
    i: int,
    max_disconnect_secs: u64,
)
    requires
        can_happen(session, events, max_disconnect_secs),
        0 <= i < events.len(),
        events[i] == SessionEvent::Message,
        after_all(session, events, max_disconnect_secs).phase != Phase::Deliver,
    ensures
        exists|k: int| i < k < events.len() && #[trigger] events[k] == SessionEvent::Delivered,
    decreases events.len(),
{
    let init = events.drop_last();
    let last = events.len() - 1;
    if i < last {
        if events[last] != SessionEvent::Delivered {
            lemma_message_stays_at_hand(session, init, i, max_disconnect_secs);
            let k = choose|k: int|
                i < k < init.len() && #[trigger] init[k] == SessionEvent::Delivered;
            assert(events[k] == SessionEvent::Delivered);
        }
    }
}

/// A new session starts with the endpoint, outside any outage.
pub proof fn law_new_session_configures()
    ensures
        fresh_session().wf(),
        fresh_session().disconnect_start is None,
        fresh_session().asks() is Configure,
{
}

/// Each action is answered by its own outcomes, and by nothing else; one that ends the process is
/// not answered.
pub proof fn law_actions_are_answered_by_their_outcomes(session: Session, event: SessionEvent)
    ensures
        match session.asks() {
            SessionAction::Configure { .. } => session.waits_for(event) <==> event
                == SessionEvent::Configured || event == SessionEvent::EndpointInvalid,
            SessionAction::Connect => session.waits_for(event) <==> event == SessionEvent::Connected
                || event == SessionEvent::ConnectFailed,
            SessionAction::Subscribe => session.waits_for(event) <==> event
                == SessionEvent::Subscribed || event == SessionEvent::SubscribeFailed,
            SessionAction::Receive => session.waits_for(event) <==> event == SessionEvent::Message
                || event == SessionEvent::StreamFailed || event == SessionEvent::StreamEnded,
            SessionAction::Deliver => session.waits_for(event) <==> event
                == SessionEvent::Delivered,
            SessionAction::ReadClock => session.waits_for(event) <==> event is Clock,
            SessionAction::Wait { .. } => session.waits_for(event) <==> event
                == SessionEvent::Waited,
            SessionAction::Exit { .. } => !session.waits_for(event),
        },
{
}

/// The endpoint is configured for a sign of life every half minute, to be answered within ten
/// seconds, on an idle connection too. Once it is configured the connection is opened. An address
/// that is not valid is tried again at once, and neither touches an outage.
pub proof fn law_endpoint_is_configured_before_it_is_connected(
    session: Session,
    max_disconnect_secs: u64,
)
    requires
        session.asks() is Configure,
    ensures
        session.asks() == (SessionAction::Configure {
            keep_alive_interval_secs: 30,
            keep_alive_timeout_secs: 10,
            while_idle: true,
        }),
        session.after(SessionEvent::Configured, max_disconnect_secs).asks()
            == SessionAction::Connect,
        session.after(SessionEvent::Configured, max_disconnect_secs).disconnect_start
            == session.disconnect_start,
        session.after(SessionEvent::EndpointInvalid, max_disconnect_secs) == session,
{
}

/// An open connection ends every outage and is subscribed on at once; then messages are received,
/// and each is given out before the next is received. No outage runs in all that time.
pub proof fn law_open_connection_is_subscribed_and_received(
    session: Session,
    max_disconnect_secs: u64,
)
    requires
        session.wf(),
    ensures
        session.asks() == SessionAction::Connect ==> {
            let open = session.after(SessionEvent::Connected, max_disconnect_secs);
            open.asks() == SessionAction::Subscribe && open.disconnect_start is None
        },
        session.asks() == SessionAction::Subscribe ==> {
            let subscribed = session.after(SessionEvent::Subscribed, max_disconnect_secs);
            subscribed.asks() == SessionAction::Receive && subscribed.disconnect_start is None
        },
        session.asks() == SessionAction::Receive ==> {
            let full = session.after(SessionEvent::Message, max_disconnect_secs);
            &&& full.asks() == SessionAction::Deliver
            &&& full.disconnect_start is None
            &&& full.after(SessionEvent::Delivered, max_disconnect_secs) == session
        },
        session.asks() == SessionAction::Deliver ==> {
            let empty = session.after(SessionEvent::Delivered, max_disconnect_secs);
            empty.asks() == SessionAction::Receive && empty.disconnect_start is None
        },
{
}

/// However a connection is lost, the clock is read next. An outage that runs already keeps its
/// start; otherwise the first reading is the start, and the clock is read once more.
pub proof fn law_lost_connection_is_timed(
    session: Session,
    event: SessionEvent,
    now: u128,
    max_disconnect_secs: u64,
)
    requires
        session.waits_for(event),
        event == SessionEvent::ConnectFailed || event == SessionEvent::SubscribeFailed || event
            == SessionEvent::StreamFailed || event == SessionEvent::StreamEnded,
    ensures
        session.after(event, max_disconnect_secs).asks() == SessionAction::ReadClock,
        session.after(event, max_disconnect_secs).disconnect_start == session.disconnect_start,
        session.disconnect_start is None ==> {
            let timed = session.after(event, max_disconnect_secs).after(
                SessionEvent::Clock(now),
                max_disconnect_secs,
            );
            timed.asks() == SessionAction::ReadClock && timed.disconnect_start == Some(now)
        },
{
}

/// A measured outage is answered by its length alone. One of more than the limit ends the process
/// with status one. Any other is followed by a pause of one second, then by the endpoint and the
/// connection once more, the outage running on from its start.
pub proof fn law_measured_outage_is_retried_or_ends_the_process(
    session: Session,
    start: u128,
    now: u128,
    max_disconnect_secs: u64,
)
    requires
        session.asks() == SessionAction::ReadClock,
        session.disconnect_start == Some(start),
    ensures
        ({
            let measured = session.after(SessionEvent::Clock(now), max_disconnect_secs);
            let paused = measured.after(SessionEvent::Waited, max_disconnect_secs);
            let configured = paused.after(SessionEvent::Configured, max_disconnect_secs);
            &&& measured.disconnect_start == Some(start)
            &&& now - start > max_disconnect_secs * 1_000_000_000 ==> measured.asks() == (
            SessionAction::Exit { code: 1 })
            &&& now - start <= max_disconnect_secs * 1_000_000_000 ==> {
                &&& measured.asks() == (SessionAction::Wait { secs: 1 })
                &&& measured.waits_for(SessionEvent::Waited)
                &&& paused.asks() is Configure
                &&& paused.waits_for(SessionEvent::Configured)
                &&& paused.disconnect_start == Some(start)
                &&& configured.asks() == SessionAction::Connect
                &&& configured.waits_for(SessionEvent::Connected)
                &&& configured.disconnect_start == Some(start)
            }
        }),
{
    assert(max_disconnect_secs * NANOS_PER_SEC == max_disconnect_secs * 1_000_000_000);
    assert(max_disconnect_secs * 1_000_000_000 >= 0);
}

/// Every pause is one second, and the endpoint is configured again after it.
pub proof fn law_pause_is_followed_by_another_attempt(session: Session, max_disconnect_secs: u64)
    requires
        session.asks() is Wait,
    ensures
        session.asks() == (SessionAction::Wait { secs: 1 }),
        session.after(SessionEvent::Waited, max_disconnect_secs).asks() is Configure,
        session.after(SessionEvent::Waited, max_disconnect_secs).disconnect_start
            == session.disconnect_start,
{
}

/// Only differences between readings count: with every reading later by the same amount, a
/// session takes the same course.
pub proof fn law_only_differences_of_readings_count(
    session: Session,
    later: Session,
    start: u128,
    now: u128,
    shift: int,
    max_disconnect_secs: u64,
)
    requires
        0 <= start + shift <= u128::MAX,
        0 <= now + shift <= u128::MAX,
        session.disconnect_start == Some(start),
        later == (Session { disconnect_start: Some((start + shift) as u128), ..session }),
    ensures
        later.after(SessionEvent::Clock((now + shift) as u128), max_disconnect_secs).asks()
            == session.after(SessionEvent::Clock(now), max_disconnect_secs).asks(),
{
}

} // verus!
