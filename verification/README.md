# arb_collector

Collectors that turn feeds of Sui transactions into events for an arbitrage engine, verified with
Verus.

| Feed | Module | What is proved |
| --- | --- | --- |
| local socket of a full node | `src/socket.rs` | frames are read back as they were written, what each is reported as, and that one that does not decode costs nothing but itself |
| websocket of a relay | `src/relay.rs` | which event or error each message gives, that errors end nothing, and that a transaction written into a message is given back |
| checkpoint stream over gRPC | `src/grpc.rs` | the course of the connection: retries, the length of an outage, when to give up |
| | `src/stream.rs` | the feed as a whole: it gives out the reports of its messages, one after the other, and its collector records the place of the latest |

`src/checkpoint.rs` and `src/events.rs` convert the messages of the checkpoint stream,
`src/json.rs` converts the dynamic values in them to JSON, `src/proto.rs` holds the messages and
`src/chain.rs` the events that are given out.

The chain's own values (digests, effects, addresses) are opaque to the library. It takes the
functions that read them as arguments. A contract says what is given out for whatever those
functions gave, and that they give one result for one input is enough for one input to have one
outcome.

Base64 is decoded by `fastcrypto`; that call is the only one the proofs trust. They take from it
that one text has one outcome, and that it gives back what `fastcrypto` wrote in Base64.

`app/` is the program around the library: sockets, streams, clocks and the types of Sui. It needs
the Sui crates and the types generated from Sui's protocol definitions.
