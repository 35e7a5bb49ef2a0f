//! A minimal peer-to-peer counter-exchange protocol: two or more processes
//! pass a strictly increasing integer token back and forth over a byte-stream
//! transport, and any break in the ordering is a fatal protocol violation.
//!
//! This crate holds the protocol logic only: the wire codec for the counter,
//! the role resolver, the exchange state machines for the bidirectional and
//! the unidirectional transport variants, and the multi-peer fan-out checks.
//! The transport itself (sockets, connections, streams) is left to the caller.

pub mod addr;
pub mod codec;
pub mod engine_bi;
pub mod engine_uni;
pub mod errors;
pub mod fanout;
pub mod ordering;
pub mod role;
