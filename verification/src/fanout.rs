use vstd::prelude::*;

use crate::addr::PeerAddress;
use crate::codec::bytes_eq;

verus! {

// ---------------------------------------------------------------------------
// The multi-peer fan-out checks: one hub connects to every other peer in
// turn, and the harness asserts that each peer saw exactly the hub's
// address, and that each pairwise message round-trip carried exactly the
// two payloads exchanged, attributed to the right sender. The checks are
// exact equalities, not patterns.
// ---------------------------------------------------------------------------

/// One inbound delivery is exactly the payload `payload` sent by `from`.
pub open spec fn delivery_matches(
    d: Option<(PeerAddress, Vec<u8>)>,
    from: PeerAddress,
    payload: Seq<u8>,
) -> bool {
    match d {
        Some(p) => p.0 == from && p.1@ == payload,
        None => false,
    }
}

/// Decides `delivery_matches`: the delivery is present, came from `from`,
/// and carries exactly `payload`.
pub fn check_delivery(
    received: &Option<(PeerAddress, Vec<u8>)>,
    from: &PeerAddress,
    payload: &Vec<u8>,
) -> (r: bool)
    ensures
        r == delivery_matches(*received, *from, payload@),
{
    match received {
        Some(p) => {
            if p.0 == *from {
                bytes_eq(&p.1, payload)
            } else {
                false
            }
        },
        None => false,
    }
}

/// Decides the connection half of the fan-out identity: every
/// inbound-connection event in `events` carries exactly the hub's address.
pub fn check_connection_events(events: &Vec<Option<PeerAddress>>, hub: &PeerAddress) -> (r: bool)
    ensures
        r == (forall|i: int| 0 <= i < events@.len() ==> events@[i] == Some(*hub)),
{
    let n = events.len();
    let mut i: usize = 0;
    while i < n
        invariant
            0 <= i <= n,
            n == events@.len(),
            forall|k: int| 0 <= k < i ==> events@[k] == Some(*hub),
        decreases n - i,
    {
        let ok = match events[i] {
            Some(a) => a == *hub,
            None => false,
        };
        if !ok {
            return false;
        }
        i += 1;
    }
    true
}

/// Decides the message half of the fan-out identity for one pair: what
/// arrived at `b` is exactly `msg_ab` from `addr_a`, and what arrived at
/// `a` is exactly `msg_ba` from `addr_b`.
pub fn check_exchange(
    addr_a: &PeerAddress,
    addr_b: &PeerAddress,
    msg_ab: &Vec<u8>,
    msg_ba: &Vec<u8>,
    got_at_b: &Option<(PeerAddress, Vec<u8>)>,
    got_at_a: &Option<(PeerAddress, Vec<u8>)>,
) -> (r: bool)
    ensures
        r == (delivery_matches(*got_at_b, *addr_a, msg_ab@) && delivery_matches(
            *got_at_a,
            *addr_b,
            msg_ba@,
        )),
{
    let first = check_delivery(got_at_b, addr_a, msg_ab);
    let second = check_delivery(got_at_a, addr_b, msg_ba);
    first && second
}

} // verus!
