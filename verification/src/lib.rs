//! Verified core of a peer-to-peer application host.
//!
//! The library holds the logic of the host runtime: the wire codec for the
//! request/response protocol, the address blob codec, the length-prefixed
//! stream framing, the connection registry and pending-work tables, the
//! event-loop decision functions, and the path-type monitor.  I/O, the
//! transport library and the embedder bindings live outside, in a thin
//! unverified shell that calls into these functions with plain values.
pub mod address;
pub mod bridge;
pub mod cbor;
pub mod codec;
pub mod engine;
pub mod framing;
pub mod identity;
pub mod monitor;
pub mod protocol;
pub mod registry;
pub mod ticket;
