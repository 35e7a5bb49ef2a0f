use vstd::prelude::*;

use crate::codec::dec_rep;
use crate::codec::encode;
use crate::errors::ProtocolError;
use crate::ordering::accept_exact;
use crate::ordering::accepts;
use crate::ordering::exchange_err;

verus! {

// ---------------------------------------------------------------------------
// The unidirectional variant: each outbound value travels on a fresh
// short-lived connection as a single fire-and-forget message, while a
// long-lived endpoint at a fixed address takes the inbound ones. The only
// state carried across those connections is the counter, which always names
// the last value this side sent: an inbound value is accepted only as its
// exact successor, and the reply sent back is the successor of that.
// ---------------------------------------------------------------------------

/// The lifecycle of one unidirectional exchange session.
#[derive(Clone, Copy, Debug, PartialEq, Eq, Structural)]
pub enum UniState {
    /// The exchange is running; `cnt` is the last value this side sent
    /// (zero on the genesis side before anything was sent).
    Exchanging { cnt: u64 },
    /// Terminal: the session saw a fatal protocol error and is over.
    Violated { err: ProtocolError },
}

/// One side of the unidirectional exchange, either role.
pub struct UniExchange {
    pub state: UniState,
}

impl UniExchange {
    /// The last value this side sent.
    pub open spec fn counter(self) -> u64 {
        match self.state {
            UniState::Exchanging { cnt } => cnt,
            _ => arbitrary(),
        }
    }

    /// The session can still take a message.
    pub open spec fn running(self) -> bool {
        self.state matches UniState::Exchanging { .. }
    }

    /// The genesis side starts having sent nothing, so it requires the
    /// value one first.
    pub fn new_genesis() -> (s: Self)
        ensures
            s.state == (UniState::Exchanging { cnt: 0 }),
    {
        UniExchange { state: UniState::Exchanging { cnt: 0 } }
    }

    /// The joiner side opens the exchange by sending the value one; the
    /// result carries the session and that first payload.
    pub fn new_joiner() -> (r: (Self, Vec<u8>))
        ensures
            r.0.state == (UniState::Exchanging { cnt: 1 }),
            r.1@ == dec_rep(1),
    {
        let first = encode(1);
        (UniExchange { state: UniState::Exchanging { cnt: 1 } }, first)
    }

    /// One exchange step: the inbound `payload` must carry exactly the
    /// successor of the last value this side sent. On success the reply to
    /// send on a fresh connection is the successor of the received value,
    /// and the counter moves to it. On any failure no value is accepted:
    /// the session is terminally violated and reports why.
    pub fn on_message(&mut self, payload: &Vec<u8>) -> (r: Result<Vec<u8>, ProtocolError>)
        requires
            old(self).running(),
            old(self).counter() < u64::MAX - 1,
        ensures
            match r {
                Ok(reply) => {
                    &&& accepts(payload@, (old(self).counter() + 1) as u64)
                    &&& reply@ == dec_rep((old(self).counter() + 2) as nat)
                    &&& final(self).state == (UniState::Exchanging {
                        cnt: (old(self).counter() + 2) as u64,
                    })
                },
                Err(e) => {
                    &&& !accepts(payload@, (old(self).counter() + 1) as u64)
                    &&& e == exchange_err(payload@, (old(self).counter() + 1) as u64)
                    &&& final(self).state == (UniState::Violated { err: e })
                },
            },
    {
        let cnt: u64 = match self.state {
            UniState::Exchanging { cnt } => cnt,
            _ => {
                proof {
                    assert(false);
                }
                0
            },
        };
        match accept_exact(cnt + 1, payload) {
            Ok(v) => {
                let next = v + 1;
                let reply = encode(next);
                self.state = UniState::Exchanging { cnt: next };
                Ok(reply)
            },
            Err(e) => {
                self.state = UniState::Violated { err: e };
                Err(e)
            },
        }
    }
}

} // verus!
