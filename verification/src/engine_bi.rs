use vstd::prelude::*;

use crate::codec::dec_rep;
use crate::codec::encode;
use crate::errors::ProtocolError;
use crate::ordering::accept_exact;
use crate::ordering::accepts;
use crate::ordering::exchange_err;

verus! {

// ---------------------------------------------------------------------------
// The bidirectional variant: one long-lived bidirectional stream carries the
// whole ping-pong. The genesis side listens and echoes; the joiner side
// connects, sends first, and checks each echo. Both sides require each
// received value to be exactly the value their own counter names, and both
// counters start at one.
// ---------------------------------------------------------------------------

/// The lifecycle of one bidirectional exchange session.
#[derive(Clone, Copy, Debug, PartialEq, Eq, Structural)]
pub enum BiState {
    /// Genesis only: no peer has connected yet.
    AwaitingConnection,
    /// Genesis only: a peer connected, but its first payload has not arrived.
    AwaitingFirstMessage,
    /// Joiner only: the outbound connection is not open yet.
    Connecting,
    /// The ping-pong is running; `cnt` is the next value this side requires.
    Exchanging { cnt: u64 },
    /// Terminal: the session saw a fatal protocol error and is over.
    Violated { err: ProtocolError },
}

/// The listening side of the bidirectional exchange.
pub struct GenesisExchange {
    pub state: BiState,
}

impl GenesisExchange {
    /// The next value this session requires from the peer.
    pub open spec fn expected(self) -> u64 {
        match self.state {
            BiState::AwaitingFirstMessage => 1,
            BiState::Exchanging { cnt } => cnt,
            _ => arbitrary(),
        }
    }

    /// The session can still take a payload.
    pub open spec fn ready(self) -> bool {
        self.state == BiState::AwaitingFirstMessage || self.state matches BiState::Exchanging {
            ..
        }
    }

    pub fn new() -> (s: Self)
        ensures
            s.state == BiState::AwaitingConnection,
    {
        GenesisExchange { state: BiState::AwaitingConnection }
    }

    /// The one inbound connection this session serves has arrived.
    pub fn on_connection(&mut self)
        requires
            old(self).state == BiState::AwaitingConnection,
        ensures
            final(self).state == BiState::AwaitingFirstMessage,
    {
        self.state = BiState::AwaitingFirstMessage;
    }

    /// One ping-pong step: the received `payload` must carry exactly the
    /// value this session requires. On success the reply to send back is
    /// that same value in canonical form, and the session then requires the
    /// successor. On any failure the session is terminally violated and
    /// reports why.
    pub fn on_payload(&mut self, payload: &Vec<u8>) -> (r: Result<Vec<u8>, ProtocolError>)
        requires
            old(self).ready(),
            old(self).expected() < u64::MAX,
        ensures
            match r {
                Ok(reply) => {
                    &&& accepts(payload@, old(self).expected())
                    &&& reply@ == dec_rep(old(self).expected() as nat)
                    &&& final(self).state == (BiState::Exchanging {
                        cnt: (old(self).expected() + 1) as u64,
                    })
                },
                Err(e) => {
                    &&& !accepts(payload@, old(self).expected())
                    &&& e == exchange_err(payload@, old(self).expected())
                    &&& final(self).state == (BiState::Violated { err: e })
                },
            },
    {
        let expected: u64 = match self.state {
            BiState::AwaitingFirstMessage => 1,
            BiState::Exchanging { cnt } => cnt,
            _ => {
                proof {
                    assert(false);
                }
                0
            },
        };
        match accept_exact(expected, payload) {
            Ok(v) => {
                let reply = encode(v);
                self.state = BiState::Exchanging { cnt: expected + 1 };
                Ok(reply)
            },
            Err(e) => {
                self.state = BiState::Violated { err: e };
                Err(e)
            },
        }
    }
}

/// The connecting side of the bidirectional exchange.
pub struct JoinerExchange {
    pub state: BiState,
}

impl JoinerExchange {
    /// The value this session sends next, and requires echoed back.
    pub open spec fn expected(self) -> u64 {
        match self.state {
            BiState::Exchanging { cnt } => cnt,
            _ => arbitrary(),
        }
    }

    /// The session can still send and take a reply.
    pub open spec fn running(self) -> bool {
        self.state matches BiState::Exchanging { .. }
    }

    pub fn new() -> (s: Self)
        ensures
            s.state == BiState::Connecting,
    {
        JoinerExchange { state: BiState::Connecting }
    }

    /// The one outbound connection and its stream are open; the exchange
    /// starts with the value one.
    pub fn on_connected(&mut self)
        requires
            old(self).state == BiState::Connecting,
        ensures
            final(self).state == (BiState::Exchanging { cnt: 1 }),
    {
        self.state = BiState::Exchanging { cnt: 1 };
    }

    /// The payload to send now: the canonical form of the value this session
    /// requires echoed back.
    pub fn message_to_send(&self) -> (r: Vec<u8>)
        requires
            self.running(),
        ensures
            r@ == dec_rep(self.expected() as nat),
    {
        match self.state {
            BiState::Exchanging { cnt } => encode(cnt),
            _ => {
                proof {
                    assert(false);
                }
                Vec::new()
            },
        }
    }

    /// The echo arrived: it must carry exactly the value this session sent.
    /// On success the session moves to the successor; on any failure it is
    /// terminally violated and reports why.
    pub fn on_reply(&mut self, payload: &Vec<u8>) -> (r: Result<(), ProtocolError>)
        requires
            old(self).running(),
            old(self).expected() < u64::MAX,
        ensures
            match r {
                Ok(_) => {
                    &&& accepts(payload@, old(self).expected())
                    &&& final(self).state == (BiState::Exchanging {
                        cnt: (old(self).expected() + 1) as u64,
                    })
                },
                Err(e) => {
                    &&& !accepts(payload@, old(self).expected())
                    &&& e == exchange_err(payload@, old(self).expected())
                    &&& final(self).state == (BiState::Violated { err: e })
                },
            },
    {
        let expected: u64 = match self.state {
            BiState::Exchanging { cnt } => cnt,
            _ => {
                proof {
                    assert(false);
                }
                0
            },
        };
        match accept_exact(expected, payload) {
            Ok(_) => {
                self.state = BiState::Exchanging { cnt: expected + 1 };
                Ok(())
            },
            Err(e) => {
                self.state = BiState::Violated { err: e };
                Err(e)
            },
        }
    }
}

} // verus!
