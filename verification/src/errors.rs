use vstd::prelude::*;

verus! {

/// Every failure this protocol can report. All of them are fatal by design:
/// the protocol has no retry and no resynchronization policy, so a caller
/// that receives any of these must end the session.
#[derive(Clone, Copy, Debug, PartialEq, Eq, Structural)]
pub enum ProtocolError {
    /// The startup directive was absent or unrecognized, or its peer
    /// address does not parse.
    InvalidArguments,
    /// A received payload is not well-formed UTF-8 text.
    NonUtf8Payload,
    /// A received payload is text, but not the decimal form of a
    /// non-negative integer that fits the counter range.
    NotAnInteger,
    /// A received value is not the exact successor the session required.
    OrderingViolation { expected: u64, got: u64 },
}

} // verus!
