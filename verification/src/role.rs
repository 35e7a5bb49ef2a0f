use vstd::prelude::*;

use crate::addr::parse_addr;
use crate::addr::spec_parse_addr;
use crate::addr::PeerAddress;
use crate::codec::bytes_eq;
use crate::errors::ProtocolError;

verus! {

// ---------------------------------------------------------------------------
// The role resolver: a process becomes the genesis (listening-first) peer or
// a joiner (connecting-first) peer once, at startup, from its positional
// directive. An absent or unrecognized directive, or an address that does
// not parse, is fatal: the process must not run with an ambiguous role.
// ---------------------------------------------------------------------------

/// Which side of the protocol this process plays. Fixed for its lifetime.
#[derive(Clone, Copy, Debug, PartialEq, Eq, Structural)]
pub enum Role {
    Genesis,
    Joiner,
}

/// The byte form of the directive word `create`.
pub open spec fn create_word() -> Seq<u8> {
    seq![0x63u8, 0x72, 0x65, 0x61, 0x74, 0x65]
}

/// The byte form of the directive word `connect`.
pub open spec fn connect_word() -> Seq<u8> {
    seq![0x63u8, 0x6f, 0x6e, 0x6e, 0x65, 0x63, 0x74]
}

fn is_create(word: &Vec<u8>) -> (r: bool)
    ensures
        r == (word@ == create_word()),
{
    let kw: Vec<u8> = vec![0x63u8, 0x72, 0x65, 0x61, 0x74, 0x65];
    proof {
        assert(kw@ =~= create_word());
    }
    bytes_eq(word, &kw)
}

fn is_connect(word: &Vec<u8>) -> (r: bool)
    ensures
        r == (word@ == connect_word()),
{
    let kw: Vec<u8> = vec![0x63u8, 0x6f, 0x6e, 0x6e, 0x65, 0x63, 0x74];
    proof {
        assert(kw@ =~= connect_word());
    }
    bytes_eq(word, &kw)
}

/// What the bidirectional resolver yields for the positional arguments
/// `args`: `create` makes the process the genesis, with no peer known until
/// one connects; `connect` followed by a parsable address makes it a joiner
/// bound for that address; anything else is refused.
pub open spec fn spec_resolve_bi(args: Seq<Seq<u8>>) -> Option<(Role, Option<PeerAddress>)> {
    if args.len() >= 1 && args[0] == create_word() {
        Some((Role::Genesis, None::<PeerAddress>))
    } else if args.len() >= 2 && args[0] == connect_word() && spec_parse_addr(args[1]) is Some {
        Some((Role::Joiner, spec_parse_addr(args[1])))
    } else {
        None
    }
}

/// Resolves the startup directive for the bidirectional variant, agreeing
/// exactly with `spec_resolve_bi`; every refused directive is the argument
/// failure, which is fatal at startup.
pub fn resolve_bi(args: &Vec<Vec<u8>>) -> (r: Result<(Role, Option<PeerAddress>), ProtocolError>)
    ensures
        match r {
            Ok(rc) => spec_resolve_bi(args@.map_values(|v: Vec<u8>| v@)) == Some(rc),
            Err(e) => {
                &&& spec_resolve_bi(args@.map_values(|v: Vec<u8>| v@)) is None
                &&& e == ProtocolError::InvalidArguments
            },
        },
{
    let ghost m = args@.map_values(|v: Vec<u8>| v@);
    proof {
        assert(m.len() == args@.len());
        if args@.len() >= 1 {
            assert(m[0] == args@[0]@);
        }
        if args@.len() >= 2 {
            assert(m[1] == args@[1]@);
        }
    }
    if args.len() >= 1 {
        if is_create(&args[0]) {
            return Ok((Role::Genesis, None));
        }
        if is_connect(&args[0]) {
            if args.len() >= 2 {
                match parse_addr(&args[1]) {
                    Ok(a) => {
                        return Ok((Role::Joiner, Some(a)));
                    },
                    Err(_) => {
                        return Err(ProtocolError::InvalidArguments);
                    },
                }
            }
        }
    }
    Err(ProtocolError::InvalidArguments)
}

/// The well-known receive port of the genesis side in the unidirectional
/// variant.
pub const UNI_GENESIS_PORT: u16 = 10000;

/// The well-known receive port of the joiner side in the unidirectional
/// variant.
pub const UNI_JOINER_PORT: u16 = 10001;

/// The fixed peer of a role in the unidirectional variant: the loopback
/// host at the counterpart's well-known port.
pub open spec fn spec_uni_peer(role: Role) -> PeerAddress {
    PeerAddress {
        o0: 127,
        o1: 0,
        o2: 0,
        o3: 1,
        port: if role == Role::Genesis {
            UNI_JOINER_PORT
        } else {
            UNI_GENESIS_PORT
        },
    }
}

/// The fixed peer address of `role` in the unidirectional variant.
pub fn uni_peer(role: Role) -> (a: PeerAddress)
    ensures
        a == spec_uni_peer(role),
{
    let port = if role == Role::Genesis {
        UNI_JOINER_PORT
    } else {
        UNI_GENESIS_PORT
    };
    PeerAddress { o0: 127, o1: 0, o2: 0, o3: 1, port }
}

/// The well-known port `role` receives at in the unidirectional variant.
pub fn uni_local_port(role: Role) -> (p: u16)
    ensures
        p == (if role == Role::Genesis {
            UNI_GENESIS_PORT
        } else {
            UNI_JOINER_PORT
        }),
{
    if role == Role::Genesis {
        UNI_GENESIS_PORT
    } else {
        UNI_JOINER_PORT
    }
}

/// What the unidirectional resolver yields: `create` makes the process the
/// genesis, `connect` a joiner; both peers sit at fixed well-known
/// addresses, so no address argument is taken; anything else is refused.
pub open spec fn spec_resolve_uni(args: Seq<Seq<u8>>) -> Option<Role> {
    if args.len() >= 1 && args[0] == create_word() {
        Some(Role::Genesis)
    } else if args.len() >= 1 && args[0] == connect_word() {
        Some(Role::Joiner)
    } else {
        None
    }
}

/// Resolves the startup directive for the unidirectional variant, agreeing
/// exactly with `spec_resolve_uni`.
pub fn resolve_uni(args: &Vec<Vec<u8>>) -> (r: Result<Role, ProtocolError>)
    ensures
        match r {
            Ok(role) => spec_resolve_uni(args@.map_values(|v: Vec<u8>| v@)) == Some(role),
            Err(e) => {
                &&& spec_resolve_uni(args@.map_values(|v: Vec<u8>| v@)) is None
                &&& e == ProtocolError::InvalidArguments
            },
        },
{
    let ghost m = args@.map_values(|v: Vec<u8>| v@);
    proof {
        assert(m.len() == args@.len());
        if args@.len() >= 1 {
            assert(m[0] == args@[0]@);
        }
    }
    if args.len() >= 1 {
        if is_create(&args[0]) {
            return Ok(Role::Genesis);
        }
        if is_connect(&args[0]) {
            return Ok(Role::Joiner);
        }
    }
    Err(ProtocolError::InvalidArguments)
}

} // verus!
