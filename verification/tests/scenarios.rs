use counter_exchange::addr::PeerAddress;
use counter_exchange::engine_bi::{BiState, GenesisExchange, JoinerExchange};
use counter_exchange::engine_uni::{UniExchange, UniState};
use counter_exchange::errors::ProtocolError;
use counter_exchange::fanout::{check_connection_events, check_delivery, check_exchange};

fn addr(o3: u8, port: u16) -> PeerAddress {
    PeerAddress {
        o0: 127,
        o1: 0,
        o2: 0,
        o3,
        port,
    }
}

#[test]
fn bidirectional_ping_pong_increments_strictly() {
    // Genesis starts, the joiner connects and sends 1; genesis replies 1;
    // the joiner sends 2; genesis replies 2; and so on.
    let mut genesis = GenesisExchange::new();
    let mut joiner = JoinerExchange::new();
    genesis.on_connection();
    joiner.on_connected();

    for round in 1u64..=5 {
        let sent = joiner.message_to_send();
        assert_eq!(sent, round.to_string().into_bytes());
        let reply = genesis.on_payload(&sent).expect("genesis must accept");
        assert_eq!(reply, round.to_string().into_bytes());
        joiner.on_reply(&reply).expect("joiner must accept the echo");
        assert_eq!(genesis.state, BiState::Exchanging { cnt: round + 1 });
        assert_eq!(joiner.state, BiState::Exchanging { cnt: round + 1 });
    }
}

#[test]
fn unidirectional_exchange_alternates_successors() {
    // The joiner sends 1; genesis receives 1 (expected 0 + 1) and replies 2;
    // the joiner receives 2 (expected 1 + 1) and replies 3; and so on.
    let mut genesis = UniExchange::new_genesis();
    let (mut joiner, first) = UniExchange::new_joiner();
    assert_eq!(first, b"1".to_vec());

    let mut wire = first;
    for step in 1u64..=6 {
        let (engine, turn_cnt) = if step % 2 == 1 {
            (&mut genesis, step + 1)
        } else {
            (&mut joiner, step + 1)
        };
        let reply = engine.on_message(&wire).expect("the successor must be accepted");
        assert_eq!(reply, turn_cnt.to_string().into_bytes());
        assert_eq!(engine.state, UniState::Exchanging { cnt: step + 1 });
        wire = reply;
    }
}

#[test]
fn fanout_hub_is_seen_by_every_peer_in_order() {
    // Four endpoints; the hub connects to the other three in sequence, and
    // each observes exactly one inbound-connection event with the hub's
    // address, in connection order.
    let hub = addr(1, 6001);
    let peers = [addr(2, 6002), addr(3, 6003), addr(4, 6004)];

    let mut observed: Vec<Option<PeerAddress>> = Vec::new();
    for _peer in peers {
        // Each connected peer reports the remote address of its one event.
        observed.push(Some(hub));
    }
    assert!(check_connection_events(&observed, &hub));
    assert_eq!(observed.len(), peers.len());

    // A stray or missing event is refused.
    assert!(!check_connection_events(&vec![Some(hub), None], &hub));
    assert!(!check_connection_events(
        &vec![Some(hub), Some(peers[0])],
        &hub
    ));
}

#[test]
fn fanout_round_trip_carries_the_exact_payloads() {
    let hub = addr(1, 6001);
    let peer = addr(2, 6002);
    let msg_out = b"dajsdfadsfajdsfajdskf".to_vec();
    let msg_back = b"adsafdewaaaaaa".to_vec();

    let got_at_peer = Some((hub, msg_out.clone()));
    let got_at_hub = Some((peer, msg_back.clone()));
    assert!(check_exchange(
        &hub,
        &peer,
        &msg_out,
        &msg_back,
        &got_at_peer,
        &got_at_hub
    ));

    // Wrong attribution, wrong payload, or no delivery at all is refused.
    assert!(!check_delivery(&Some((peer, msg_out.clone())), &hub, &msg_out));
    assert!(!check_delivery(&Some((hub, msg_back.clone())), &hub, &msg_out));
    assert!(!check_delivery(&None, &hub, &msg_out));
    assert!(!check_exchange(
        &hub,
        &peer,
        &msg_out,
        &msg_back,
        &got_at_hub,
        &got_at_peer
    ));
}

#[test]
fn payload_that_is_no_integer_is_fatal_and_keeps_the_counter() {
    // A peer that receives "abc" must fail with NotAnInteger, not advance.
    let mut genesis = UniExchange::new_genesis();
    let err = genesis.on_message(&b"abc".to_vec()).unwrap_err();
    assert_eq!(err, ProtocolError::NotAnInteger);
    assert_eq!(
        genesis.state,
        UniState::Violated {
            err: ProtocolError::NotAnInteger
        }
    );

    let mut bi = GenesisExchange::new();
    bi.on_connection();
    let err = bi.on_payload(&b"abc".to_vec()).unwrap_err();
    assert_eq!(err, ProtocolError::NotAnInteger);
    assert_eq!(
        bi.state,
        BiState::Violated {
            err: ProtocolError::NotAnInteger
        }
    );
}

#[test]
fn skipping_a_value_is_an_ordering_violation() {
    // A peer that receives n + 2 instead of n + 1 must fail with an
    // ordering violation naming expected n + 1.
    let mut genesis = UniExchange::new_genesis();
    let (_joiner, first) = UniExchange::new_joiner();
    let _ = genesis.on_message(&first).expect("1 is in order");
    // Genesis has sent 2; it now requires 3, but 5 arrives.
    let err = genesis.on_message(&b"5".to_vec()).unwrap_err();
    assert_eq!(
        err,
        ProtocolError::OrderingViolation {
            expected: 3,
            got: 5
        }
    );
    assert_eq!(genesis.state, UniState::Violated { err });

    // The same strictness on the bidirectional stream.
    let mut joiner = JoinerExchange::new();
    joiner.on_connected();
    let err = joiner.on_reply(&b"2".to_vec()).unwrap_err();
    assert_eq!(
        err,
        ProtocolError::OrderingViolation {
            expected: 1,
            got: 2
        }
    );
    assert_eq!(joiner.state, BiState::Violated { err });
}

#[test]
fn a_repeat_is_refused_no_less_than_a_gap() {
    let mut genesis = GenesisExchange::new();
    genesis.on_connection();
    let _ = genesis.on_payload(&b"1".to_vec()).expect("1 opens the exchange");
    let err = genesis.on_payload(&b"1".to_vec()).unwrap_err();
    assert_eq!(
        err,
        ProtocolError::OrderingViolation {
            expected: 2,
            got: 1
        }
    );
}
