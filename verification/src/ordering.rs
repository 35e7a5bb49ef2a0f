use vstd::prelude::*;

use crate::codec::dec_value;
use crate::codec::decode;
use crate::codec::decode_err;
use crate::codec::decode_ok;
use crate::errors::ProtocolError;

verus! {

// ---------------------------------------------------------------------------
// The ordering rule every session step enforces: a received payload must
// decode, and must decode to exactly the one value the session requires.
// ---------------------------------------------------------------------------

/// `payload` decodes and denotes exactly `expected`.
pub open spec fn accepts(payload: Seq<u8>, expected: u64) -> bool {
    decode_ok(payload) && dec_value(payload) == expected
}

/// The fatal error a session reports for `payload` when it required
/// `expected`: a codec failure if the payload does not decode, otherwise an
/// ordering violation naming the required and the received value.
pub open spec fn exchange_err(payload: Seq<u8>, expected: u64) -> ProtocolError {
    if !decode_ok(payload) {
        decode_err(payload)
    } else {
        ProtocolError::OrderingViolation { expected, got: dec_value(payload) as u64 }
    }
}

/// Decodes `payload` and accepts it only as exactly the value `expected`.
/// Every other outcome is the fatal error `exchange_err` assigns; there is
/// no retry and no resynchronization.
pub fn accept_exact(expected: u64, payload: &Vec<u8>) -> (r: Result<u64, ProtocolError>)
    ensures
        accepts(payload@, expected) ==> r == Ok::<u64, ProtocolError>(expected),
        !accepts(payload@, expected) ==> r == Err::<u64, ProtocolError>(
            exchange_err(payload@, expected),
        ),
{
    match decode(payload) {
        Ok(v) => {
            if v == expected {
                Ok(v)
            } else {
                Err(ProtocolError::OrderingViolation { expected, got: v })
            }
        },
        Err(e) => Err(e),
    }
}

// ---------------------------------------------------------------------------
// The ordering invariant over whole runs.
// ---------------------------------------------------------------------------

/// A bidirectional session that next requires `start` accepts the received
/// values `vs` in order: each step takes the value it requires and then
/// requires its successor.
pub open spec fn bi_run_accepts(start: u64, vs: Seq<u64>) -> bool
    decreases vs.len(),
{
    vs.len() == 0 || {
        &&& vs[0] == start
        &&& start < u64::MAX
        &&& bi_run_accepts((start + 1) as u64, vs.skip(1))
    }
}

/// Ordering invariant, bidirectional variant: in any accepted run the
/// received values are consecutive, each the exact successor of the one
/// before, and the first is the value fixed at session start.
pub proof fn lemma_bi_ordering(start: u64, vs: Seq<u64>)
    requires
        bi_run_accepts(start, vs),
    ensures
        forall|i: int| 0 <= i < vs.len() ==> vs[i] == start + i,
        forall|i: int| 1 <= i < vs.len() ==> #[trigger] vs[i] == vs[i - 1] + 1,
    decreases vs.len(),
{
    if vs.len() > 0 {
        lemma_bi_ordering((start + 1) as u64, vs.skip(1));
        assert forall|i: int| 0 <= i < vs.len() implies vs[i] == start + i by {
            if i > 0 {
                assert(vs.skip(1)[i - 1] == vs[i]);
            }
        }
    }
}

/// A successful step extends an accepted run: a bidirectional session that
/// has accepted the run `vs` from `start` onwards then requires exactly
/// `start + vs.len()`, and taking that one value yields the accepted run
/// `vs.push(v)`. Together with `lemma_bi_ordering` this ties each single
/// `accept_exact` step to the invariant over the whole session.
pub proof fn lemma_bi_run_extend(start: u64, vs: Seq<u64>, v: u64)
    requires
        bi_run_accepts(start, vs),
        start + vs.len() < u64::MAX,
        v == start + vs.len(),
    ensures
        bi_run_accepts(start, vs.push(v)),
    decreases vs.len(),
{
    if vs.len() == 0 {
        assert(vs.push(v).skip(1) =~= Seq::<u64>::empty());
        assert(bi_run_accepts((start + 1) as u64, Seq::<u64>::empty()));
        assert(vs.push(v)[0] == v);
    } else {
        lemma_bi_run_extend((start + 1) as u64, vs.skip(1), v);
        assert(vs.push(v).skip(1) =~= vs.skip(1).push(v));
        assert(vs.push(v)[0] == vs[0]);
    }
}

/// A unidirectional session whose last sent value is `cnt` accepts the
/// inbound values `vs` in order: each step requires the successor of the
/// last value sent, and sends the successor of what it received.
pub open spec fn uni_run_accepts(cnt: u64, vs: Seq<u64>) -> bool
    decreases vs.len(),
{
    vs.len() == 0 || {
        &&& cnt < u64::MAX - 1
        &&& vs[0] == cnt + 1
        &&& uni_run_accepts((cnt + 2) as u64, vs.skip(1))
    }
}

/// Ordering invariant, unidirectional variant: in any accepted run the first
/// inbound value is the successor of the value sent at start, and each later
/// one is two above the one before, since the session sends the value in
/// between back to the peer.
pub proof fn lemma_uni_ordering(cnt: u64, vs: Seq<u64>)
    requires
        uni_run_accepts(cnt, vs),
    ensures
        forall|i: int| 0 <= i < vs.len() ==> vs[i] == cnt + 1 + 2 * i,
        forall|i: int| 1 <= i < vs.len() ==> #[trigger] vs[i] == vs[i - 1] + 2,
    decreases vs.len(),
{
    if vs.len() > 0 {
        lemma_uni_ordering((cnt + 2) as u64, vs.skip(1));
        assert forall|i: int| 0 <= i < vs.len() implies vs[i] == cnt + 1 + 2 * i by {
            if i > 0 {
                assert(vs.skip(1)[i - 1] == vs[i]);
            }
        }
    }
}

/// The unidirectional counterpart of `lemma_bi_run_extend`: after the
/// accepted run `vs` the session's counter stands at `cnt + 2 * vs.len()`,
/// it requires the successor of that, and taking it extends the run.
pub proof fn lemma_uni_run_extend(cnt: u64, vs: Seq<u64>, v: u64)
    requires
        uni_run_accepts(cnt, vs),
        cnt + 2 * vs.len() < u64::MAX - 1,
        v == cnt + 2 * vs.len() + 1,
    ensures
        uni_run_accepts(cnt, vs.push(v)),
    decreases vs.len(),
{
    if vs.len() == 0 {
        assert(vs.push(v).skip(1) =~= Seq::<u64>::empty());
        assert(uni_run_accepts((cnt + 2) as u64, Seq::<u64>::empty()));
        assert(vs.push(v)[0] == v);
    } else {
        lemma_uni_run_extend((cnt + 2) as u64, vs.skip(1), v);
        assert(vs.push(v).skip(1) =~= vs.skip(1).push(v));
        assert(vs.push(v)[0] == vs[0]);
    }
}

} // verus!
