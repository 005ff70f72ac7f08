//! The feed of executed transactions over a local socket.
//!
//! The socket carries frames. A frame is the encoded effects of a transaction followed by its
//! events in JSON, each of the two preceded by its length in four bytes, the most significant
//! first.

use crate::chain::{Chain, Event, EventModel};
use vstd::prelude::*;

verus! {

/// A collector that reads the local socket of a full node.
pub struct PublicTxCollector {
    pub path: String,
}

impl PublicTxCollector {
    /// A collector for the socket at `path`.
    pub fn new(path: &str) -> (collector: Self)
        ensures
            collector.path@ == path@,
    {
        PublicTxCollector { path: path.to_string() }
    }

    /// The name of the collector.
    pub fn name(&self) -> (name: &str)
        ensures
            name@ == "PublicTxCollector"@,
    {
        "PublicTxCollector"
    }
}

/// The number that four bytes write, the most significant first.
pub open spec fn be_value(bytes: Seq<u8>) -> nat {
    (bytes[0] * 0x100_0000 + bytes[1] * 0x1_0000 + bytes[2] * 0x100 + bytes[3]) as nat
}

/// The four bytes that write a number, the most significant first.
pub open spec fn be_bytes(n: nat) -> Seq<u8> {
    seq![
        (n / 0x100_0000 % 0x100) as u8,
        (n / 0x1_0000 % 0x100) as u8,
        (n / 0x100 % 0x100) as u8,
        (n % 0x100) as u8,
    ]
}

/// Reads a length.
fn read_len(bytes: &Vec<u8>) -> (len: usize)
    requires
        bytes@.len() == 4,
    ensures
        len == be_value(bytes@),
{
    let value: u32 = bytes[0] as u32 * 0x100_0000 + bytes[1] as u32 * 0x1_0000 + bytes[2] as u32
        * 0x100 + bytes[3] as u32;
    value as usize
}

/// One frame: the encoded effects of a transaction and its events in JSON.
pub struct Frame {
    pub effects: Vec<u8>,
    pub events: Vec<u8>,
}

/// What a [`Frame`] holds.
#[verifier::ext_equal]
pub struct FrameModel {
    pub effects: Seq<u8>,
    pub events: Seq<u8>,
}

impl View for Frame {
    type V = FrameModel;

    open spec fn view(&self) -> FrameModel {
        FrameModel { effects: self.effects@, events: self.events@ }
    }
}

/// How far the frame at hand has been read.
pub enum FrameReader {
    /// At the boundary between two frames.
    EffectsLen,
    /// The length of the effects is known.
    Effects { len: usize },
    /// The effects are read.
    EventsLen { effects: Vec<u8> },
    /// The effects are read, and the length of the events is known.
    Events { effects: Vec<u8>, len: usize },
}

/// What a [`FrameReader`] knows of the frame at hand.
#[verifier::ext_equal]
pub enum FrameProgress {
    EffectsLen,
    Effects(nat),
    EventsLen(Seq<u8>),
    Events(Seq<u8>, nat),
}

impl View for FrameReader {
    type V = FrameProgress;

    open spec fn view(&self) -> FrameProgress {
        match *self {
            FrameReader::EffectsLen => FrameProgress::EffectsLen,
            FrameReader::Effects { len } => FrameProgress::Effects(len as nat),
            FrameReader::EventsLen { effects } => FrameProgress::EventsLen(effects@),
            FrameReader::Events { effects, len } => FrameProgress::Events(effects@, len as nat),
        }
    }
}

impl FrameProgress {
    /// How many bytes are to be read next.
    pub open spec fn wanted(self) -> nat {
        match self {
            FrameProgress::EffectsLen => 4,
            FrameProgress::Effects(len) => len,
            FrameProgress::EventsLen(_) => 4,
            FrameProgress::Events(_, len) => len,
        }
    }

    /// What is known once the wanted bytes are read, and the frame that they complete.
    pub open spec fn advance(self, bytes: Seq<u8>) -> (FrameProgress, Option<FrameModel>) {
        match self {
            FrameProgress::EffectsLen => (FrameProgress::Effects(be_value(bytes)), None),
            FrameProgress::Effects(_) => (FrameProgress::EventsLen(bytes), None),
            FrameProgress::EventsLen(effects) => (
                FrameProgress::Events(effects, be_value(bytes)),
                None,
            ),
            FrameProgress::Events(effects, _) => (
                FrameProgress::EffectsLen,
                Some(FrameModel { effects, events: bytes }),
            ),
        }
    }

    /// What is known after a read, and the frame that it completes. A read that failed gives up
    /// the frame at hand.
    pub open spec fn after_read(self, read: Option<Seq<u8>>) -> (FrameProgress, Option<FrameModel>) {
        match read {
            Some(bytes) => self.advance(bytes),
            None => (FrameProgress::EffectsLen, None),
        }
    }
}

impl FrameReader {
    /// A reader at the boundary between two frames.
    pub fn new() -> (reader: Self)
        ensures
            reader@ == FrameProgress::EffectsLen,
    {
        FrameReader::EffectsLen
    }

    /// How many bytes are to be read next.
    pub fn wanted(&self) -> (len: usize)
        ensures
            len == self@.wanted(),
    {
        match self {
            FrameReader::EffectsLen => 4,
            FrameReader::Effects { len } => *len,
            FrameReader::EventsLen { .. } => 4,
            FrameReader::Events { len, .. } => *len,
        }
    }

    /// Takes the bytes that were read. Gives the reader for what follows, and the frame that the
    /// bytes complete.
    pub fn advance(self, bytes: Vec<u8>) -> (next: (FrameReader, Option<Frame>))
        requires
            bytes@.len() == self@.wanted(),
        ensures
            next.0@ == self@.advance(bytes@).0,
            next.1 is Some <==> self@.advance(bytes@).1 is Some,
            next.1 matches Some(frame) ==> self@.advance(bytes@).1 == Some(frame@),
    {
        match self {
            FrameReader::EffectsLen => (FrameReader::Effects { len: read_len(&bytes) }, None),
            FrameReader::Effects { .. } => (FrameReader::EventsLen { effects: bytes }, None),
            FrameReader::EventsLen { effects } => (
                FrameReader::Events { effects, len: read_len(&bytes) },
                None,
            ),
            FrameReader::Events { effects, .. } => (
                FrameReader::EffectsLen,
                Some(Frame { effects, events: bytes }),
            ),
        }
    }

    /// Takes the outcome of a read: the bytes, or nothing where it failed. A read that failed
    /// gives up the frame at hand: the socket is opened anew, and reading starts at the boundary
    /// of a frame.
    pub fn on_read(self, read: Option<Vec<u8>>) -> (next: (FrameReader, SocketAction))
        requires
            read matches Some(bytes) ==> bytes@.len() == self@.wanted(),
        ensures
            match read {
                None => {
                    &&& next.0@ == self@.after_read(None).0
                    &&& next.1 == SocketAction::Reconnect
                },
                Some(bytes) => {
                    &&& next.0@ == self@.after_read(Some(bytes@)).0
                    &&& match self@.after_read(Some(bytes@)).1 {
                        Some(frame) => next.1 matches SocketAction::Decode(read) && read@ == frame,
                        None => next.1 == SocketAction::Read,
                    }
                },
            },
    {
        match read {
            Some(bytes) => {
                let (reader, frame) = self.advance(bytes);
                match frame {
                    Some(frame) => (reader, SocketAction::Decode(frame)),
                    None => (reader, SocketAction::Read),
                }
            },
            None => (FrameReader::EffectsLen, SocketAction::Reconnect),
        }
    }
}

/// What follows a read of the socket. The next read, of as many bytes as are wanted, comes after
/// it in any case.
pub enum SocketAction {
    /// Nothing: the frame is not complete.
    Read,
    /// The socket is opened anew.
    Reconnect,
    /// The frame is complete and can be decoded.
    Decode(Frame),
}

/// How a frame is decoded: the effects from their encoding and then into the form that events
/// report, and the events from JSON.
pub struct FrameDecoders<B, J, V> {
    pub effects: B,
    pub events: J,
    pub convert_effects: V,
}

/// Why a frame was not decoded.
pub enum FrameError<X, Y> {
    /// The effects are not valid.
    Effects(X),
    /// The events are not valid.
    Events(Y),
}

/// What the decoders gave for one frame.
#[verifier::reject_recursive_types(C)]
#[verifier::reject_recursive_types(X)]
#[verifier::reject_recursive_types(Y)]
pub struct FrameParts<C: Chain, X, Y> {
    pub raw_effects: Result<C::RawEffects, X>,
    pub events: Result<Vec<C::RpcEvent>, Y>,
    pub effects: Option<C::Effects>,
}

impl<B, J, V> FrameDecoders<B, J, V> {
    /// Every decoder takes every input.
    pub open spec fn total<C: Chain, X, Y>(self) -> bool where
        B: Fn(&Vec<u8>) -> Result<C::RawEffects, X>,
        J: Fn(&Vec<u8>) -> Result<Vec<C::RpcEvent>, Y>,
        V: Fn(C::RawEffects) -> Option<C::Effects>,
     {
        &&& forall|bytes: Vec<u8>| #[trigger] call_requires(self.effects, (&bytes,))
        &&& forall|bytes: Vec<u8>| #[trigger] call_requires(self.events, (&bytes,))
        &&& forall|raw: C::RawEffects| #[trigger] call_requires(self.convert_effects, (raw,))
    }

    /// `parts` can be what the decoders gave for the frame. Effects come first, then the events,
    /// then the conversion of the effects, and what failed ends the row. No events at all are an
    /// empty list, and are not decoded.
    pub open spec fn read<C: Chain, X, Y>(self, frame: Frame, parts: FrameParts<C, X, Y>) -> bool where
        B: Fn(&Vec<u8>) -> Result<C::RawEffects, X>,
        J: Fn(&Vec<u8>) -> Result<Vec<C::RpcEvent>, Y>,
        V: Fn(C::RawEffects) -> Option<C::Effects>,
     {
        &&& call_ensures(self.effects, (&frame.effects,), parts.raw_effects)
        &&& parts.raw_effects is Ok ==> if frame.events@.len() == 0 {
            parts.events matches Ok(events) && events@.len() == 0
        } else {
            call_ensures(self.events, (&frame.events,), parts.events)
        }
        &&& parts.raw_effects is Ok && parts.events is Ok ==> call_ensures(
            self.convert_effects,
            (parts.raw_effects->Ok_0,),
            parts.effects,
        )
    }
}

/// What a frame is reported as: an error where its effects or its events are not valid, nothing
/// where its effects cannot be converted, and the transaction otherwise.
pub open spec fn frame_event<C: Chain, X, Y>(parts: FrameParts<C, X, Y>) -> Result<
    Option<Event<C, C::RpcEvent>>,
    FrameError<X, Y>,
> {
    match (parts.raw_effects, parts.events, parts.effects) {
        (Err(error), _, _) => Err(FrameError::Effects(error)),
        (Ok(_), Err(error), _) => Err(FrameError::Events(error)),
        (Ok(_), Ok(_), None) => Ok(None),
        (Ok(_), Ok(events), Some(effects)) => Ok(Some(Event::PublicTx(effects, events))),
    }
}

/// What is given out of what a frame is reported as: the transaction, and nothing in any other
/// case.
pub open spec fn given_out<C: Chain, X, Y>(
    event: Result<Option<Event<C, C::RpcEvent>>, FrameError<X, Y>>,
) -> Option<EventModel<C, C::RpcEvent>> {
    match event {
        Ok(Some(Event::PublicTx(effects, events))) => Some(EventModel::PublicTx(effects, events@)),
        Ok(Some(Event::PrivateTx(data))) => Some(EventModel::PrivateTx(data)),
        _ => None,
    }
}

impl<B, J, V> FrameDecoders<B, J, V> {
    /// `given` can be what is given out for a frame with this content.
    pub open spec fn gives<C: Chain, X, Y>(
        self,
        content: FrameModel,
        given: Option<EventModel<C, C::RpcEvent>>,
    ) -> bool where
        B: Fn(&Vec<u8>) -> Result<C::RawEffects, X>,
        J: Fn(&Vec<u8>) -> Result<Vec<C::RpcEvent>, Y>,
        V: Fn(C::RawEffects) -> Option<C::Effects>,
     {
        exists|frame: Frame, parts: FrameParts<C, X, Y>|
            {
                &&& frame@ == content
                &&& #[trigger] self.read(frame, parts)
                &&& given == given_out(frame_event(parts))
            }
    }

    /// `given` can be what is given out for each frame of a row.
    pub open spec fn gives_all<C: Chain, X, Y>(
        self,
        frames: Seq<FrameModel>,
        given: Seq<Option<EventModel<C, C::RpcEvent>>>,
    ) -> bool where
        B: Fn(&Vec<u8>) -> Result<C::RawEffects, X>,
        J: Fn(&Vec<u8>) -> Result<Vec<C::RpcEvent>, Y>,
        V: Fn(C::RawEffects) -> Option<C::Effects>,
     {
        &&& given.len() == frames.len()
        &&& forall|i: int|
            0 <= i < frames.len() ==> self.gives::<C, X, Y>(#[trigger] frames[i], given[i])
    }
}

/// Decodes a frame.
pub fn decode_frame<C: Chain, X, Y, B, J, V>(
    frame: Frame,
    decoders: &FrameDecoders<B, J, V>,
) -> (event: Result<Option<Event<C, C::RpcEvent>>, FrameError<X, Y>>) where
    B: Fn(&Vec<u8>) -> Result<C::RawEffects, X>,
    J: Fn(&Vec<u8>) -> Result<Vec<C::RpcEvent>, Y>,
    V: Fn(C::RawEffects) -> Option<C::Effects>,

    requires
        decoders.total::<C, X, Y>(),
    ensures
        exists|parts: FrameParts<C, X, Y>| #[trigger]
            decoders.read(frame, parts) && event == frame_event(parts),
        decoders.gives(frame@, given_out(event)),
{
    let raw_effects: Result<C::RawEffects, X> = (decoders.effects)(&frame.effects);
    let ghost decoded = raw_effects;
    let raw = match raw_effects {
        Ok(raw) => raw,
        Err(error) => {
            proof {
                let parts = FrameParts::<C, X, Y> {
                    raw_effects: decoded,
                    events: arbitrary(),
                    effects: None,
                };
                assert(decoders.read(frame, parts));
            }
            return Err(FrameError::Effects(error));
        },
    };
    let all_events: Result<Vec<C::RpcEvent>, Y> = if frame.events.len() == 0 {
        Ok(Vec::new())
    } else {
        (decoders.events)(&frame.events)
    };
    let ghost listed = all_events;
    let events = match all_events {
        Ok(events) => events,
        Err(error) => {
            proof {
                let parts = FrameParts::<C, X, Y> {
                    raw_effects: decoded,
                    events: listed,
                    effects: None,
                };
                assert(decoders.read(frame, parts));
            }
            return Err(FrameError::Events(error));
        },
    };
    let effects: Option<C::Effects> = (decoders.convert_effects)(raw);
    proof {
        let parts = FrameParts::<C, X, Y> { raw_effects: decoded, events: listed, effects };
        assert(decoders.read(frame, parts));
    }
    match effects {
        Some(effects) => Ok(Some(Event::PublicTx(effects, events))),
        None => Ok(None),
    }
}

impl<B, J, V> FrameDecoders<B, J, V> {
    /// Every decoder gives one outcome for one content.
    pub open spec fn deterministic<C: Chain, X, Y>(self) -> bool where
        B: Fn(&Vec<u8>) -> Result<C::RawEffects, X>,
        J: Fn(&Vec<u8>) -> Result<Vec<C::RpcEvent>, Y>,
        V: Fn(C::RawEffects) -> Option<C::Effects>,
     {
        &&& forall|
            bytes: Vec<u8>,
            same: Vec<u8>,
            one: Result<C::RawEffects, X>,
            two: Result<C::RawEffects, X>,
        |
            bytes@ == same@ && #[trigger] call_ensures(self.effects, (&bytes,), one)
                && #[trigger] call_ensures(self.effects, (&same,), two) ==> one == two
        &&& forall|
            bytes: Vec<u8>,
            same: Vec<u8>,
            one: Result<Vec<C::RpcEvent>, Y>,
            two: Result<Vec<C::RpcEvent>, Y>,
        |
            bytes@ == same@ && #[trigger] call_ensures(self.events, (&bytes,), one)
                && #[trigger] call_ensures(self.events, (&same,), two) ==> match (one, two) {
                (Ok(events), Ok(others)) => events@ == others@,
                (Err(error), Err(other)) => error == other,
                _ => false,
            }
        &&& forall|raw: C::RawEffects, one: Option<C::Effects>, two: Option<C::Effects>|
            #[trigger] call_ensures(self.convert_effects, (raw,), one) && #[trigger] call_ensures(
                self.convert_effects,
                (raw,),
                two,
            ) ==> one == two
    }
}

/// Decoders that give one outcome for one content leave nothing open: whatever they gave, the same
/// frame is reported as the same error, as nothing, or as the same effects with the same events.
pub proof fn law_decoders_decide_the_report<C: Chain, X, Y, B, J, V>(
    frame: Frame,
    parts: FrameParts<C, X, Y>,
    others: FrameParts<C, X, Y>,
    decoders: FrameDecoders<B, J, V>,
) where
    B: Fn(&Vec<u8>) -> Result<C::RawEffects, X>,
    J: Fn(&Vec<u8>) -> Result<Vec<C::RpcEvent>, Y>,
    V: Fn(C::RawEffects) -> Option<C::Effects>,

    requires
        decoders.deterministic::<C, X, Y>(),
        decoders.read(frame, parts),
        decoders.read(frame, others),
    ensures
        match frame_event(parts) {
            Ok(Some(Event::PublicTx(effects, events))) => frame_event(others) matches Ok(
                Some(Event::PublicTx(other_effects, other_events)),
            ) && other_effects == effects && other_events@ == events@,
            report => frame_event(others) == report,
        },
{
}

/// A frame as the socket carries it.
pub open spec fn frame_bytes(frame: FrameModel) -> Seq<u8> {
    be_bytes(frame.effects.len()) + frame.effects + be_bytes(frame.events.len()) + frame.events
}

/// The lengths of a frame fit the four bytes that write them.
pub open spec fn frame_fits(frame: FrameModel) -> bool {
    frame.effects.len() < 0x1_0000_0000 && frame.events.len() < 0x1_0000_0000
}

/// Frames one after the other, as the socket carries them.
pub open spec fn stream_bytes(frames: Seq<FrameModel>) -> Seq<u8>
    decreases frames.len(),
{
    if frames.len() == 0 {
        Seq::empty()
    } else {
        frame_bytes(frames.first()) + stream_bytes(frames.drop_first())
    }
}

/// The frames that a reader gives while it reads a stream, read by read, as long as the stream
/// holds the bytes that are wanted; and what the reader knows at the end of it.
pub open spec fn read_stream(progress: FrameProgress, stream: Seq<u8>) -> (
    FrameProgress,
    Seq<FrameModel>,
)
    decreases stream.len(), if progress is Effects || progress is Events { 1int } else { 0int },
{
    let wanted = progress.wanted() as int;
    if stream.len() < wanted {
        (progress, Seq::empty())
    } else {
        let (next, frame) = progress.advance(stream.take(wanted));
        let (end, frames) = read_stream(next, stream.skip(wanted));
        match frame {
            Some(frame) => (end, seq![frame] + frames),
            None => (end, frames),
        }
    }
}

/// A length survives being written and read.
pub proof fn law_length_round_trip(n: nat)
    requires
        n < 0x1_0000_0000,
    ensures
        be_bytes(n).len() == 4,
        be_value(be_bytes(n)) == n,
{
    let q1 = n / 0x100;
    let q2 = q1 / 0x100;
    let q3 = q2 / 0x100;
    assert(n / 0x1_0000 == q2);
    assert(n / 0x100_0000 == q3);
    assert(q3 < 0x100);
    assert(n == q1 * 0x100 + n % 0x100);
    assert(q1 == q2 * 0x100 + q1 % 0x100);
    assert(q2 == q3 * 0x100 + q2 % 0x100);
}

/// One read of a stream that starts with the wanted bytes.
proof fn lemma_one_read(progress: FrameProgress, bytes: Seq<u8>, rest: Seq<u8>)
    requires
        bytes.len() == progress.wanted(),
    ensures
        ({
            let (next, frame) = progress.advance(bytes);
            let (end, frames) = read_stream(next, rest);
            read_stream(progress, bytes + rest) == match frame {
                Some(frame) => (end, seq![frame] + frames),
                None => (end, frames),
            }
        }),
{
    assert((bytes + rest).take(bytes.len() as int) =~= bytes);
    assert((bytes + rest).skip(bytes.len() as int) =~= rest);
}

/// A frame that stands at the start of a stream is read first, and the reader is then at the
/// boundary where the rest of the stream starts.
pub proof fn law_frame_is_read_first(frame: FrameModel, rest: Seq<u8>)
    requires
        frame_fits(frame),
    ensures
        read_stream(FrameProgress::EffectsLen, frame_bytes(frame) + rest).0 == read_stream(
            FrameProgress::EffectsLen,
            rest,
        ).0,
        read_stream(FrameProgress::EffectsLen, frame_bytes(frame) + rest).1 == seq![frame]
            + read_stream(FrameProgress::EffectsLen, rest).1,
{
    law_length_round_trip(frame.effects.len());
    law_length_round_trip(frame.events.len());
    lemma_four_reads(
        be_bytes(frame.effects.len()),
        frame.effects,
        be_bytes(frame.events.len()),
        frame.events,
        rest,
    );
    assert(FrameModel { effects: frame.effects, events: frame.events } == frame);
}

/// The four reads of one frame.
proof fn lemma_four_reads(
    effects_len: Seq<u8>,
    effects: Seq<u8>,
    events_len: Seq<u8>,
    events: Seq<u8>,
    rest: Seq<u8>,
)
    requires
        effects_len.len() == 4,
        events_len.len() == 4,
        be_value(effects_len) == effects.len(),
        be_value(events_len) == events.len(),
    ensures
        read_stream(
            FrameProgress::EffectsLen,
            effects_len + effects + events_len + events + rest,
        ) == (
            read_stream(FrameProgress::EffectsLen, rest).0,
            seq![FrameModel { effects, events }] + read_stream(FrameProgress::EffectsLen, rest).1,
        ),
{
    let after_events_len = events + rest;
    let after_effects = events_len + after_events_len;
    let after_effects_len = effects + after_effects;
    assert(effects_len + effects + events_len + events + rest =~= effects_len + after_effects_len);
    lemma_one_read(FrameProgress::EffectsLen, effects_len, after_effects_len);
    lemma_one_read(FrameProgress::Effects(effects.len()), effects, after_effects);
    lemma_one_read(FrameProgress::EventsLen(effects), events_len, after_events_len);
    lemma_one_read(FrameProgress::Events(effects, events.len()), events, rest);
}

/// A stream of frames is read back frame by frame: the same frames, in the same order, with the
/// reader at a boundary after the last.
pub proof fn law_stream_is_read_back(frames: Seq<FrameModel>)
    requires
        forall|i: int| 0 <= i < frames.len() ==> frame_fits(#[trigger] frames[i]),
    ensures
        read_stream(FrameProgress::EffectsLen, stream_bytes(frames)) == (
            FrameProgress::EffectsLen,
            frames,
        ),
    decreases frames.len(),
{
    if frames.len() > 0 {
        let rest = frames.drop_first();
        assert forall|i: int| 0 <= i < rest.len() implies frame_fits(#[trigger] rest[i]) by {
            assert(rest[i] == frames[i + 1]);
        }
        law_stream_is_read_back(rest);
        assert(frame_fits(frames[0]));
        law_frame_is_read_first(frames[0], stream_bytes(rest));
        assert(seq![frames[0]] + rest =~= frames);
    }
}

/// A stream that ends inside a frame gives the frames before it and no part of that frame.
pub proof fn law_torn_frame_is_not_given(frames: Seq<FrameModel>, torn: FrameModel, cut: int)
    requires
        forall|i: int| 0 <= i < frames.len() ==> frame_fits(#[trigger] frames[i]),
        frame_fits(torn),
        0 <= cut < frame_bytes(torn).len(),
    ensures
        read_stream(
            FrameProgress::EffectsLen,
            stream_bytes(frames) + frame_bytes(torn).take(cut),
        ).1 == frames,
    decreases frames.len(),
{
    let tail = frame_bytes(torn).take(cut);
    if frames.len() > 0 {
        let rest = frames.drop_first();
        assert forall|i: int| 0 <= i < rest.len() implies frame_fits(#[trigger] rest[i]) by {
            assert(rest[i] == frames[i + 1]);
        }
        law_torn_frame_is_not_given(rest, torn, cut);
        assert(frame_fits(frames[0]));
        assert(stream_bytes(frames) + tail =~= frame_bytes(frames[0]) + (stream_bytes(rest)
            + tail));
        law_frame_is_read_first(frames[0], stream_bytes(rest) + tail);
        assert(seq![frames[0]] + rest =~= frames);
    } else {
        assert(stream_bytes(frames) + tail =~= tail);
        lemma_torn_frame(torn, cut);
    }
}

proof fn lemma_torn_frame(torn: FrameModel, cut: int)
    requires
        frame_fits(torn),
        0 <= cut < frame_bytes(torn).len(),
    ensures
        read_stream(FrameProgress::EffectsLen, frame_bytes(torn).take(cut)).1 == Seq::<
            FrameModel,
        >::empty(),
{
    let effects_len = be_bytes(torn.effects.len());
    let events_len = be_bytes(torn.events.len());
    law_length_round_trip(torn.effects.len());
    law_length_round_trip(torn.events.len());
    let whole = frame_bytes(torn);
    let n = torn.effects.len() as int;
    let s0 = whole.take(cut);
    let p1 = FrameProgress::Effects(torn.effects.len());
    let p2 = FrameProgress::EventsLen(torn.effects);
    let p3 = FrameProgress::Events(torn.effects, torn.events.len());
    if cut >= 4 {
        let s1 = s0.skip(4);
        assert(s0.take(4) =~= effects_len);
        assert(read_stream(FrameProgress::EffectsLen, s0).1 == read_stream(p1, s1).1);
        if s1.len() >= n {
            let s2 = s1.skip(n);
            assert(s1.take(n) =~= torn.effects);
            assert(read_stream(p1, s1).1 == read_stream(p2, s2).1);
            if s2.len() >= 4 {
                let s3 = s2.skip(4);
                assert(s2.take(4) =~= events_len);
                assert(read_stream(p2, s2).1 == read_stream(p3, s3).1);
                assert(s3.len() < torn.events.len());
            }
        }
    }
}

/// What is known after a row of reads, and the frames that they complete, in their order.
pub open spec fn after_reads(progress: FrameProgress, reads: Seq<Option<Seq<u8>>>) -> (
    FrameProgress,
    Seq<FrameModel>,
)
    decreases reads.len(),
{
    if reads.len() == 0 {
        (progress, Seq::empty())
    } else {
        let (next, frame) = progress.after_read(reads.first());
        let (end, frames) = after_reads(next, reads.drop_first());
        match frame {
            Some(frame) => (end, seq![frame] + frames),
            None => (end, frames),
        }
    }
}

/// Each read that did not fail gave the bytes that were wanted.
pub open spec fn reads_fit(progress: FrameProgress, reads: Seq<Option<Seq<u8>>>) -> bool
    decreases reads.len(),
{
    reads.len() > 0 ==> {
        &&& reads.first() matches Some(bytes) ==> bytes.len() == progress.wanted()
        &&& reads_fit(progress.after_read(reads.first()).0, reads.drop_first())
    }
}

/// The bytes of a row of reads, one after the other.
pub open spec fn bytes_of_reads(reads: Seq<Option<Seq<u8>>>) -> Seq<u8>
    decreases reads.len(),
{
    if reads.len() == 0 {
        Seq::empty()
    } else {
        match reads.first() {
            Some(bytes) => bytes + bytes_of_reads(reads.drop_first()),
            None => bytes_of_reads(reads.drop_first()),
        }
    }
}

/// Reads that do not fail give the frames of the stream that they read, up to the point where
/// the next byte of it is wanted.
pub proof fn law_reads_give_the_frames_of_the_stream(
    progress: FrameProgress,
    reads: Seq<Option<Seq<u8>>>,
)
    requires
        reads_fit(progress, reads),
        forall|i: int| 0 <= i < reads.len() ==> (#[trigger] reads[i]) is Some,
        after_reads(progress, reads).0.wanted() > 0,
    ensures
        after_reads(progress, reads) == read_stream(progress, bytes_of_reads(reads)),
    decreases reads.len(),
{
    if reads.len() > 0 {
        let rest = reads.drop_first();
        assert(reads[0] is Some);
        let bytes = reads[0]->0;
        let next = progress.advance(bytes).0;
        assert forall|i: int| 0 <= i < rest.len() implies (#[trigger] rest[i]) is Some by {
            assert(rest[i] == reads[i + 1]);
        }
        law_reads_give_the_frames_of_the_stream(next, rest);
        lemma_one_read(progress, bytes, bytes_of_reads(rest));
    }
}

/// A failed read costs the frame at hand and nothing else: the frames before it were given, and
/// what follows is read as by a new reader.
pub proof fn law_failed_read_starts_afresh(
    progress: FrameProgress,
    before: Seq<Option<Seq<u8>>>,
    after: Seq<Option<Seq<u8>>>,
)
    ensures
        after_reads(progress, before + seq![None::<Seq<u8>>] + after) == (
            after_reads(FrameProgress::EffectsLen, after).0,
            after_reads(progress, before).1 + after_reads(FrameProgress::EffectsLen, after).1,
        ),
    decreases before.len(),
{
    let all = before + seq![None::<Seq<u8>>] + after;
    if before.len() == 0 {
        assert(all.drop_first() =~= after);
        assert(after_reads(progress, before).1 + after_reads(FrameProgress::EffectsLen, after).1
            =~= after_reads(FrameProgress::EffectsLen, after).1);
    } else {
        let (next, frame) = progress.after_read(before.first());
        let rest = before.drop_first();
        assert(all.first() == before.first());
        assert(all.drop_first() =~= rest + seq![None::<Seq<u8>>] + after);
        law_failed_read_starts_afresh(next, rest, after);
        if let Some(frame) = frame {
            assert(seq![frame] + (after_reads(next, rest).1 + after_reads(
                FrameProgress::EffectsLen,
                after,
            ).1) =~= seq![frame] + after_reads(next, rest).1 + after_reads(
                FrameProgress::EffectsLen,
                after,
            ).1);
        }
    }
}

/// What a row of frames gives out, one after the other.
pub open spec fn kept<E>(given: Seq<Option<E>>) -> Seq<E>
    decreases given.len(),
{
    if given.len() == 0 {
        Seq::empty()
    } else {
        match given.last() {
            Some(event) => kept(given.drop_last()).push(event),
            None => kept(given.drop_last()),
        }
    }
}

proof fn lemma_kept_of_joined<E>(given: Seq<Option<E>>, more: Seq<Option<E>>)
    ensures
        kept(given + more) == kept(given) + kept(more),
    decreases more.len(),
{
    if more.len() == 0 {
        assert(given + more =~= given);
        assert(kept(given) + kept(more) =~= kept(given));
    } else {
        lemma_kept_of_joined(given, more.drop_last());
        assert((given + more).drop_last() =~= given + more.drop_last());
        assert(kept(given + more) =~= kept(given) + kept(more));
    }
}

proof fn lemma_stream_bytes_of_joined(frames: Seq<FrameModel>, more: Seq<FrameModel>)
    ensures
        stream_bytes(frames + more) == stream_bytes(frames) + stream_bytes(more),
    decreases frames.len(),
{
    if frames.len() == 0 {
        assert(frames + more =~= more);
        assert(stream_bytes(frames) + stream_bytes(more) =~= stream_bytes(more));
    } else {
        lemma_stream_bytes_of_joined(frames.drop_first(), more);
        assert((frames + more).drop_first() =~= frames.drop_first() + more);
        assert(stream_bytes(frames + more) =~= stream_bytes(frames) + stream_bytes(more));
    }
}

/// With decoders that give one outcome for one content, one frame gives out one thing.
proof fn lemma_frame_gives_one_thing<C: Chain, X, Y, B, J, V>(
    content: FrameModel,
    one: Option<EventModel<C, C::RpcEvent>>,
    two: Option<EventModel<C, C::RpcEvent>>,
    decoders: FrameDecoders<B, J, V>,
) where
    B: Fn(&Vec<u8>) -> Result<C::RawEffects, X>,
    J: Fn(&Vec<u8>) -> Result<Vec<C::RpcEvent>, Y>,
    V: Fn(C::RawEffects) -> Option<C::Effects>,

    requires
        decoders.deterministic::<C, X, Y>(),
        decoders.gives::<C, X, Y>(content, one),
        decoders.gives::<C, X, Y>(content, two),
    ensures
        one == two,
{
    let (frame, parts) = choose|frame: Frame, parts: FrameParts<C, X, Y>|
        {
            &&& frame@ == content
            &&& #[trigger] decoders.read(frame, parts)
            &&& one == given_out(frame_event(parts))
        };
    let (same, others) = choose|frame: Frame, parts: FrameParts<C, X, Y>|
        {
            &&& frame@ == content
            &&& #[trigger] decoders.read(frame, parts)
            &&& two == given_out(frame_event(parts))
        };
    assert(frame.effects@ == same.effects@);
    assert(frame.events@ == same.events@);
    assert(parts.raw_effects == others.raw_effects);
    if parts.raw_effects is Ok {
        if frame.events@.len() == 0 {
            assert(parts.events->Ok_0@ =~= others.events->Ok_0@);
        }
    }
}

/// A frame that is not reported, because its effects or its events do not decode or its effects
/// do not convert, costs nothing but itself: a stream with such a frame between others is still
/// read frame by frame, and gives out what the stream without it gives out, which is what the
/// frames before it give out followed by what the frames after it do.
pub proof fn law_undecodable_frame_changes_nothing<C: Chain, X, Y, B, J, V>(
    before: Seq<FrameModel>,
    spoiled: FrameModel,
    after: Seq<FrameModel>,
    given: Seq<Option<EventModel<C, C::RpcEvent>>>,
    clean: Seq<Option<EventModel<C, C::RpcEvent>>>,
    decoders: FrameDecoders<B, J, V>,
) where
    B: Fn(&Vec<u8>) -> Result<C::RawEffects, X>,
    J: Fn(&Vec<u8>) -> Result<Vec<C::RpcEvent>, Y>,
    V: Fn(C::RawEffects) -> Option<C::Effects>,

    requires
        decoders.deterministic::<C, X, Y>(),
        forall|i: int| 0 <= i < before.len() ==> frame_fits(#[trigger] before[i]),
        frame_fits(spoiled),
        forall|i: int| 0 <= i < after.len() ==> frame_fits(#[trigger] after[i]),
        decoders.gives_all::<C, X, Y>(before + seq![spoiled] + after, given),
        decoders.gives_all::<C, X, Y>(before + after, clean),
        given[before.len() as int] is None,
    ensures
        read_stream(
            FrameProgress::EffectsLen,
            stream_bytes(before) + frame_bytes(spoiled) + stream_bytes(after),
        ) == (FrameProgress::EffectsLen, before + seq![spoiled] + after),
        read_stream(FrameProgress::EffectsLen, stream_bytes(before) + stream_bytes(after)) == (
            FrameProgress::EffectsLen,
            before + after,
        ),
        kept(given) == kept(clean),
        kept(clean) == kept(clean.take(before.len() as int)) + kept(
            clean.skip(before.len() as int),
        ),
{
    let n = before.len() as int;
    let with = before + seq![spoiled] + after;
    let without = before + after;
    lemma_stream_bytes_of_joined(before, after);
    lemma_stream_bytes_of_joined(before + seq![spoiled], after);
    lemma_stream_bytes_of_joined(before, seq![spoiled]);
    assert(seq![spoiled].drop_first() =~= Seq::<FrameModel>::empty());
    assert(stream_bytes(seq![spoiled]) =~= frame_bytes(spoiled)) by {
        reveal_with_fuel(stream_bytes, 2);
        assert(stream_bytes(Seq::<FrameModel>::empty()) =~= Seq::<u8>::empty());
        assert(seq![spoiled].first() == spoiled);
    }
    law_stream_is_read_back(with);
    law_stream_is_read_back(without);

    let head = given.take(n);
    let tail = given.skip(n + 1);
    assert forall|i: int| 0 <= i < n implies head[i] == clean[i] by {
        assert(with[i] == without[i]);
        assert(decoders.gives::<C, X, Y>(with[i], given[i]));
        assert(decoders.gives::<C, X, Y>(without[i], clean[i]));
        lemma_frame_gives_one_thing::<C, X, Y, B, J, V>(with[i], given[i], clean[i], decoders);
    }
    assert forall|i: int| 0 <= i < after.len() implies tail[i] == clean[n + i] by {
        assert(with[n + 1 + i] == without[n + i]);
        assert(decoders.gives::<C, X, Y>(with[n + 1 + i], given[n + 1 + i]));
        assert(decoders.gives::<C, X, Y>(without[n + i], clean[n + i]));
        lemma_frame_gives_one_thing::<C, X, Y, B, J, V>(
            with[n + 1 + i],
            given[n + 1 + i],
            clean[n + i],
            decoders,
        );
    }
    assert(head =~= clean.take(n));
    assert(tail =~= clean.skip(n));
    assert(clean =~= head + tail);
    lemma_kept_of_joined(head, tail);
    assert(given =~= head.push(given[n]) + tail);
    lemma_kept_of_joined(head.push(given[n]), tail);
    assert(head.push(given[n]).drop_last() =~= head);
}

/// Four bytes write a number digit by digit to the base 256, the most significant first.
pub proof fn law_lengths_are_big_endian(bytes: Seq<u8>)
    requires
        bytes.len() == 4,
    ensures
        be_value(bytes) == ((bytes[0] * 256 + bytes[1]) * 256 + bytes[2]) * 256 + bytes[3],
{
}

/// A frame takes four reads: four bytes for the length of the effects, as many bytes as they say,
/// four bytes for the length of the events, as many bytes as those say. Only the last completes a
/// frame, which holds the bytes of the second and the fourth read, and after it the next frame
/// starts. A read that fails at any time completes nothing, and the next frame starts after it.
pub proof fn law_frame_takes_four_reads(
    progress: FrameProgress,
    effects_len: Seq<u8>,
    effects: Seq<u8>,
    events_len: Seq<u8>,
    events: Seq<u8>,
)
    requires
        effects_len.len() == 4,
        events_len.len() == 4,
    ensures
        ({
            let (one, first) = FrameProgress::EffectsLen.after_read(Some(effects_len));
            let (two, second) = one.after_read(Some(effects));
            let (three, third) = two.after_read(Some(events_len));
            let (four, fourth) = three.after_read(Some(events));
            &&& FrameProgress::EffectsLen.wanted() == 4
            &&& one.wanted() == ((effects_len[0] * 256 + effects_len[1]) * 256 + effects_len[2])
                * 256 + effects_len[3]
            &&& two.wanted() == 4
            &&& three.wanted() == ((events_len[0] * 256 + events_len[1]) * 256 + events_len[2])
                * 256 + events_len[3]
            &&& first is None
            &&& second is None
            &&& third is None
            &&& fourth matches Some(frame) && frame.effects == effects && frame.events == events
            &&& four == FrameProgress::EffectsLen
        }),
        progress.after_read(None) == (FrameProgress::EffectsLen, None::<FrameModel>),
{
    law_lengths_are_big_endian(effects_len);
    law_lengths_are_big_endian(events_len);
}

/// The models of a frame and of a reader show all that they hold.
pub proof fn law_models_show_frame_and_reader(frame: Frame, reader: FrameReader)
    ensures
        frame@.effects == frame.effects@,
        frame@.events == frame.events@,
        match reader {
            FrameReader::EffectsLen => reader@ == FrameProgress::EffectsLen,
            FrameReader::Effects { len } => reader@ == FrameProgress::Effects(len as nat),
            FrameReader::EventsLen { effects } => reader@ == FrameProgress::EventsLen(effects@),
            FrameReader::Events { effects, len } => reader@ == FrameProgress::Events(
                effects@,
                len as nat,
            ),
        },
{
}

/// A frame is reported by what its own bytes decode to. An error is that of the decoder that
/// refused its bytes, the effects asked first. Nothing is reported only where effects that
/// decoded, with events that decoded or are absent, did not convert. Otherwise it is the
/// transaction, with the converted effects and all of the decoded events, and without events only
/// where the frame holds no bytes for them or the decoder gave none.
pub proof fn law_frame_is_reported_as_it_decodes<C: Chain, X, Y, B, J, V>(
    frame: Frame,
    parts: FrameParts<C, X, Y>,
    decoders: FrameDecoders<B, J, V>,
) where
    B: Fn(&Vec<u8>) -> Result<C::RawEffects, X>,
    J: Fn(&Vec<u8>) -> Result<Vec<C::RpcEvent>, Y>,
    V: Fn(C::RawEffects) -> Option<C::Effects>,

    requires
        decoders.read(frame, parts),
    ensures
        match frame_event(parts) {
            Err(FrameError::Effects(error)) => call_ensures(
                decoders.effects,
                (&frame.effects,),
                Err(error),
            ),
            Err(FrameError::Events(error)) => exists|raw: C::RawEffects|
                {
                    &&& #[trigger] call_ensures(decoders.effects, (&frame.effects,), Ok(raw))
                    &&& frame.events@.len() > 0
                    &&& call_ensures(decoders.events, (&frame.events,), Err(error))
                },
            Ok(None) => exists|raw: C::RawEffects|
                {
                    &&& #[trigger] call_ensures(decoders.effects, (&frame.effects,), Ok(raw))
                    &&& frame.events@.len() == 0 || exists|events: Vec<C::RpcEvent>| #[trigger]
                        call_ensures(decoders.events, (&frame.events,), Ok(events))
                    &&& call_ensures(decoders.convert_effects, (raw,), None)
                },
            Ok(Some(Event::PublicTx(effects, events))) => exists|raw: C::RawEffects|
                {
                    &&& #[trigger] call_ensures(decoders.effects, (&frame.effects,), Ok(raw))
                    &&& frame.events@.len() == 0 ==> events@.len() == 0
                    &&& frame.events@.len() > 0 ==> call_ensures(
                        decoders.events,
                        (&frame.events,),
                        Ok(events),
                    )
                    &&& call_ensures(decoders.convert_effects, (raw,), Some(effects))
                },
            Ok(Some(Event::PrivateTx(_))) => false,
        },
{
    match frame_event(parts) {
        Err(FrameError::Effects(error)) => {
            assert(parts.raw_effects == Err::<C::RawEffects, X>(error));
        },
        Err(FrameError::Events(error)) => {
            let raw = parts.raw_effects->Ok_0;
            assert(parts.raw_effects == Ok::<C::RawEffects, X>(raw));
            assert(parts.events == Err::<Vec<C::RpcEvent>, Y>(error));
            assert(call_ensures(decoders.effects, (&frame.effects,), Ok(raw)));
        },
        Ok(report) => {
            let raw = parts.raw_effects->Ok_0;
            let events = parts.events->Ok_0;
            assert(parts.raw_effects == Ok::<C::RawEffects, X>(raw));
            assert(parts.events == Ok::<Vec<C::RpcEvent>, Y>(events));
            assert(call_ensures(decoders.effects, (&frame.effects,), Ok(raw)));
            if frame.events@.len() > 0 {
                assert(call_ensures(decoders.events, (&frame.events,), Ok(events)));
            }
        },
    }
}

/// A frame that decodes is given out, whole: where the decoders give these effects and these
/// events for its bytes, and the effects convert, what is given out is the transaction with the
/// converted effects and every one of the events. A frame without bytes for events is given out
/// with none.
pub proof fn law_decodable_frame_is_given_out<C: Chain, X, Y, B, J, V>(
    content: FrameModel,
    raw: C::RawEffects,
    effects: C::Effects,
    events: Seq<C::RpcEvent>,
    given: Option<EventModel<C, C::RpcEvent>>,
    decoders: FrameDecoders<B, J, V>,
) where
    B: Fn(&Vec<u8>) -> Result<C::RawEffects, X>,
    J: Fn(&Vec<u8>) -> Result<Vec<C::RpcEvent>, Y>,
    V: Fn(C::RawEffects) -> Option<C::Effects>,

    requires
        decoders.gives::<C, X, Y>(content, given),
        forall|bytes: Vec<u8>, outcome: Result<C::RawEffects, X>|
            bytes@ == content.effects && #[trigger] call_ensures(
                decoders.effects,
                (&bytes,),
                outcome,
            ) ==> outcome == Ok::<C::RawEffects, X>(raw),
        forall|outcome: Option<C::Effects>| #[trigger]
            call_ensures(decoders.convert_effects, (raw,), outcome) ==> outcome == Some(effects),
        content.events.len() == 0 ==> events.len() == 0,
        content.events.len() > 0 ==> forall|bytes: Vec<u8>, outcome: Result<Vec<C::RpcEvent>, Y>|
            bytes@ == content.events && #[trigger] call_ensures(
                decoders.events,
                (&bytes,),
                outcome,
            ) ==> (outcome matches Ok(list) && list@ == events),
    ensures
        given matches Some(EventModel::PublicTx(given_effects, given_events)) && given_effects
            == effects && given_events == events,
{
    let (frame, parts) = choose|frame: Frame, parts: FrameParts<C, X, Y>|
        {
            &&& frame@ == content
            &&& #[trigger] decoders.read(frame, parts)
            &&& given == given_out(frame_event(parts))
        };
    assert(frame.effects@ == content.effects);
    assert(frame.events@ == content.events);
    law_frame_is_reported_as_it_decodes(frame, parts, decoders);
    if content.events.len() == 0 {
        assert(parts.events->Ok_0@ =~= events);
    }
}

/// Nothing is given out only where a decoder failed: on the effects, on events that are there, or
/// on the conversion.
pub proof fn law_frame_is_dropped_only_where_a_decoder_failed<C: Chain, X, Y, B, J, V>(
    content: FrameModel,
    given: Option<EventModel<C, C::RpcEvent>>,
    decoders: FrameDecoders<B, J, V>,
) where
    B: Fn(&Vec<u8>) -> Result<C::RawEffects, X>,
    J: Fn(&Vec<u8>) -> Result<Vec<C::RpcEvent>, Y>,
    V: Fn(C::RawEffects) -> Option<C::Effects>,

    requires
        decoders.gives::<C, X, Y>(content, given),
        given is None,
    ensures
        ({
            ||| exists|bytes: Vec<u8>, error: X|
                bytes@ == content.effects && #[trigger] call_ensures(
                    decoders.effects,
                    (&bytes,),
                    Err(error),
                )
            ||| content.events.len() > 0 && exists|bytes: Vec<u8>, error: Y|
                bytes@ == content.events && #[trigger] call_ensures(
                    decoders.events,
                    (&bytes,),
                    Err(error),
                )
            ||| exists|bytes: Vec<u8>, raw: C::RawEffects|
                {
                    &&& bytes@ == content.effects
                    &&& #[trigger] call_ensures(decoders.effects, (&bytes,), Ok(raw))
                    &&& call_ensures(decoders.convert_effects, (raw,), None)
                }
        }),
{
    let (frame, parts) = choose|frame: Frame, parts: FrameParts<C, X, Y>|
        {
            &&& frame@ == content
            &&& #[trigger] decoders.read(frame, parts)
            &&& given == given_out(frame_event(parts))
        };
    assert(frame.effects@ == content.effects);
    assert(frame.events@ == content.events);
    law_frame_is_reported_as_it_decodes(frame, parts, decoders);
}

/// What is given out of a report is the whole of it.
pub proof fn law_report_is_given_out_whole<C: Chain, X, Y>(
    event: Result<Option<Event<C, C::RpcEvent>>, FrameError<X, Y>>,
)
    ensures
        match event {
            Ok(Some(Event::PublicTx(effects, events))) => given_out(event) matches Some(
                EventModel::PublicTx(given_effects, given_events),
            ) && given_effects == effects && given_events == events@,
            Ok(Some(Event::PrivateTx(data))) => given_out(event) == Some(
                EventModel::<C, C::RpcEvent>::PrivateTx(data),
            ),
            _ => given_out(event) is None,
        },
{
}

/// Decoders that take every input are all that is asked of decoders.
pub proof fn law_decoders_of_every_input_are_total<C: Chain, X, Y, B, J, V>(
    decoders: FrameDecoders<B, J, V>,
) where
    B: Fn(&Vec<u8>) -> Result<C::RawEffects, X>,
    J: Fn(&Vec<u8>) -> Result<Vec<C::RpcEvent>, Y>,
    V: Fn(C::RawEffects) -> Option<C::Effects>,

    requires
        forall|bytes: Vec<u8>| #[trigger] call_requires(decoders.effects, (&bytes,)),
        forall|bytes: Vec<u8>| #[trigger] call_requires(decoders.events, (&bytes,)),
        forall|raw: C::RawEffects| #[trigger] call_requires(decoders.convert_effects, (raw,)),
    ensures
        decoders.total::<C, X, Y>(),
{
}

} // verus!
