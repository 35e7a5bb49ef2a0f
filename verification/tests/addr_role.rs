use counter_exchange::addr::{parse_addr, render_addr, PeerAddress};
use counter_exchange::errors::ProtocolError;
use counter_exchange::role::{
    resolve_bi, resolve_uni, uni_local_port, uni_peer, Role, UNI_GENESIS_PORT, UNI_JOINER_PORT,
};

fn addr(o0: u8, o1: u8, o2: u8, o3: u8, port: u16) -> PeerAddress {
    PeerAddress {
        o0,
        o1,
        o2,
        o3,
        port,
    }
}

#[test]
fn parse_addr_accepts_well_formed_addresses() {
    assert_eq!(
        parse_addr(&b"127.0.0.1:10001".to_vec()),
        Ok(addr(127, 0, 0, 1, 10001))
    );
    assert_eq!(parse_addr(&b"0.0.0.0:0".to_vec()), Ok(addr(0, 0, 0, 0, 0)));
    assert_eq!(
        parse_addr(&b"255.255.255.255:65535".to_vec()),
        Ok(addr(255, 255, 255, 255, 65535))
    );
}

#[test]
fn parse_addr_rejects_malformed_addresses() {
    let bad = [
        &b""[..],
        b"127.0.0.1",
        b"127.0.0.1:",
        b":80",
        b"127.0.0:80",
        b"127.0.0.1.2:80",
        b"256.0.0.1:80",
        b"1.2.3.4:65536",
        b"01.2.3.4:5",
        b"1.2.3.04:5",
        b"1.2.3.4:007",
        b"a.b.c.d:e",
        b"1.2.3.4:56x",
        b"1..3.4:5",
        b" 1.2.3.4:5",
        b"1.2.3.4:5 ",
    ];
    for case in bad {
        assert_eq!(
            parse_addr(&case.to_vec()),
            Err(ProtocolError::InvalidArguments),
            "accepted {:?}",
            String::from_utf8_lossy(case)
        );
    }
}

#[test]
fn rendered_addresses_parse_back() {
    let cases = [
        addr(127, 0, 0, 1, 10001),
        addr(0, 0, 0, 0, 0),
        addr(255, 255, 255, 255, 65535),
        addr(10, 20, 30, 40, 8080),
    ];
    assert_eq!(
        render_addr(&addr(127, 0, 0, 1, 10001)),
        b"127.0.0.1:10001".to_vec()
    );
    for a in cases {
        assert_eq!(parse_addr(&render_addr(&a)), Ok(a));
    }
}

fn args(words: &[&[u8]]) -> Vec<Vec<u8>> {
    words.iter().map(|w| w.to_vec()).collect()
}

#[test]
fn resolve_bi_reads_the_directive() {
    assert_eq!(
        resolve_bi(&args(&[b"create"])),
        Ok((Role::Genesis, None))
    );
    assert_eq!(
        resolve_bi(&args(&[b"connect", b"127.0.0.1:12345"])),
        Ok((Role::Joiner, Some(addr(127, 0, 0, 1, 12345))))
    );
}

#[test]
fn resolve_bi_refuses_ambiguous_directives() {
    assert_eq!(
        resolve_bi(&args(&[])),
        Err(ProtocolError::InvalidArguments)
    );
    assert_eq!(
        resolve_bi(&args(&[b"destroy"])),
        Err(ProtocolError::InvalidArguments)
    );
    assert_eq!(
        resolve_bi(&args(&[b"connect"])),
        Err(ProtocolError::InvalidArguments)
    );
    assert_eq!(
        resolve_bi(&args(&[b"connect", b"not-an-address"])),
        Err(ProtocolError::InvalidArguments)
    );
    assert_eq!(
        resolve_bi(&args(&[b"CREATE"])),
        Err(ProtocolError::InvalidArguments)
    );
}

#[test]
fn resolve_uni_reads_the_directive() {
    assert_eq!(resolve_uni(&args(&[b"create"])), Ok(Role::Genesis));
    assert_eq!(resolve_uni(&args(&[b"connect"])), Ok(Role::Joiner));
    assert_eq!(
        resolve_uni(&args(&[])),
        Err(ProtocolError::InvalidArguments)
    );
    assert_eq!(
        resolve_uni(&args(&[b"observe"])),
        Err(ProtocolError::InvalidArguments)
    );
}

#[test]
fn uni_roles_sit_at_the_two_well_known_ports() {
    assert_eq!(uni_local_port(Role::Genesis), UNI_GENESIS_PORT);
    assert_eq!(uni_local_port(Role::Joiner), UNI_JOINER_PORT);
    assert_eq!(
        uni_peer(Role::Genesis),
        addr(127, 0, 0, 1, UNI_JOINER_PORT)
    );
    assert_eq!(uni_peer(Role::Joiner), addr(127, 0, 0, 1, UNI_GENESIS_PORT));
}
