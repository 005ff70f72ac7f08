//! Collectors that turn feeds of Sui transactions into events.
//!
//! There are three feeds: the local socket of a full node ([`socket`]), the websocket of a relay
//! ([`relay`]) and the checkpoint stream of a full node over gRPC ([`grpc`] and [`stream`]).
//! This crate holds what they decide and compute. Reading and sending is left to the program
//! around it, and so is the chain's own decoding: a collector takes the readers of the chain's
//! values as arguments, and its contracts say what it gives out for whatever they gave.

pub mod chain;
pub mod checkpoint;
pub mod events;
pub mod grpc;
pub mod json;
pub mod proto;
pub mod relay;
pub mod socket;
pub mod stream;

pub use chain::{BcsEvent, Chain, Event, EventId, SuiEvent};
pub use checkpoint::{process_checkpoint_internal, TransactionReaders};
pub use events::{convert_proto_events, EventReaders};
pub use grpc::{GrpcCheckpointCollector, Session, SessionAction, SessionEvent};
pub use json::{prost_value_to_serde_json, JsonValue, ProtoValue};
pub use relay::{relay_event, PrivateTxCollector, TxMessage};
pub use socket::{decode_frame, FrameDecoders, FrameReader, PublicTxCollector, SocketAction};
pub use stream::StreamEvent;
