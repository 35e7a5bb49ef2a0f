use vstd::prelude::*;

use crate::codec::all_digits;
use crate::codec::dec_rep;
use crate::codec::dec_value;
use crate::codec::encode;
use crate::codec::is_digit;
use crate::codec::lemma_dec_rep_wf;
use crate::codec::lemma_dec_value_of_rep;
use crate::codec::lemma_dec_value_prefix;
use crate::errors::ProtocolError;
use vstd::arithmetic::div_mod::lemma_fundamental_div_mod;

verus! {

// ---------------------------------------------------------------------------
// A peer's transport-level identity, held as plain values. The transport
// library's own address type is converted to and from this one at the crate
// boundary; inside the crate an address is only parsed, rendered and
// compared for equality.
// ---------------------------------------------------------------------------

/// An IPv4 endpoint: four octets and a port.
#[derive(Clone, Copy, Debug, PartialEq, Eq, Hash, Structural)]
pub struct PeerAddress {
    pub o0: u8,
    pub o1: u8,
    pub o2: u8,
    pub o3: u8,
    pub port: u16,
}

// ---------------------------------------------------------------------------
// The textual form `a.b.c.d:port`, each component a minimal decimal number
// in range. The grammar is stated as a deterministic specification-level
// parse, and the executable parser is proved to agree with it exactly.
// ---------------------------------------------------------------------------

/// The position right after the run of decimal digit bytes starting at `i`.
pub open spec fn digit_run_end(s: Seq<u8>, i: int) -> int
    decreases s.len() - i,
{
    if 0 <= i < s.len() && is_digit(s[i]) {
        digit_run_end(s, i + 1)
    } else {
        i
    }
}

/// The bytes `s[i..j]` form a well-formed decimal component no larger than
/// `max`: nonempty, and minimal, so no leading zero unless it is the single
/// digit zero.
pub open spec fn component_ok(s: Seq<u8>, i: int, j: int, max: nat) -> bool {
    &&& i < j
    &&& (s[i] != 0x30 || j == i + 1)
    &&& dec_value(s.subrange(i, j)) <= max
}

/// The address grammar: four decimal octets separated by dots (0x2e), a
/// colon (0x3a), and a decimal port, with nothing before, between or after,
/// every component minimal and in range. Any other text parses to `None`.
pub open spec fn spec_parse_addr(s: Seq<u8>) -> Option<PeerAddress> {
    let e0 = digit_run_end(s, 0);
    let e1 = digit_run_end(s, e0 + 1);
    let e2 = digit_run_end(s, e1 + 1);
    let e3 = digit_run_end(s, e2 + 1);
    let e4 = digit_run_end(s, e3 + 1);
    if {
        &&& e0 < s.len() && s[e0] == 0x2e
        &&& e1 < s.len() && s[e1] == 0x2e
        &&& e2 < s.len() && s[e2] == 0x2e
        &&& e3 < s.len() && s[e3] == 0x3a
        &&& e4 == s.len()
        &&& component_ok(s, 0, e0, 255)
        &&& component_ok(s, e0 + 1, e1, 255)
        &&& component_ok(s, e1 + 1, e2, 255)
        &&& component_ok(s, e2 + 1, e3, 255)
        &&& component_ok(s, e3 + 1, e4, 0xffff)
    } {
        Some(
            PeerAddress {
                o0: dec_value(s.subrange(0, e0)) as u8,
                o1: dec_value(s.subrange(e0 + 1, e1)) as u8,
                o2: dec_value(s.subrange(e1 + 1, e2)) as u8,
                o3: dec_value(s.subrange(e2 + 1, e3)) as u8,
                port: dec_value(s.subrange(e3 + 1, e4)) as u16,
            },
        )
    } else {
        None
    }
}

/// A digit run is within bounds, holds digits only, and is maximal.
proof fn lemma_digit_run_facts(s: Seq<u8>, i: int)
    requires
        0 <= i <= s.len(),
    ensures
        i <= digit_run_end(s, i) <= s.len(),
        forall|k: int| i <= k < digit_run_end(s, i) ==> is_digit(s[k]),
        digit_run_end(s, i) < s.len() ==> !is_digit(s[digit_run_end(s, i)]),
    decreases s.len() - i,
{
    if i < s.len() && is_digit(s[i]) {
        lemma_digit_run_facts(s, i + 1);
    }
}

/// Scans the digit run that starts at `start`.
fn scan_digits(bytes: &Vec<u8>, start: usize) -> (j: usize)
    requires
        start <= bytes@.len(),
    ensures
        j as int == digit_run_end(bytes@, start as int),
        start <= j <= bytes@.len(),
{
    let n = bytes.len();
    let mut j = start;
    while j < n
        invariant
            start <= j <= n,
            n == bytes@.len(),
            digit_run_end(bytes@, start as int) == digit_run_end(bytes@, j as int),
        decreases n - j,
    {
        let b = bytes[j];
        if b < 0x30 || b > 0x39 {
            proof {
                lemma_digit_run_facts(bytes@, j as int);
            }
            return j;
        }
        j += 1;
    }
    proof {
        lemma_digit_run_facts(bytes@, j as int);
    }
    j
}

/// Reads the decimal component `bytes[start..end]`, refusing an empty or
/// padded one and a value above `max`.
fn parse_component(bytes: &Vec<u8>, start: usize, end: usize, max: u64) -> (r: Option<u64>)
    requires
        start <= end <= bytes@.len(),
        all_digits(bytes@.subrange(start as int, end as int)),
        max >= 9,
    ensures
        match r {
            Some(v) => component_ok(bytes@, start as int, end as int, max as nat) && v as nat
                == dec_value(bytes@.subrange(start as int, end as int)),
            None => !component_ok(bytes@, start as int, end as int, max as nat),
        },
{
    let ghost whole = bytes@.subrange(start as int, end as int);
    if start == end {
        return None;
    }
    proof {
        assert(whole[0] == bytes@[start as int]);
    }
    if bytes[start] == 0x30 && end - start > 1 {
        return None;
    }
    let mut i = start;
    let mut val: u64 = 0;
    proof {
        assert(bytes@.subrange(start as int, start as int) =~= Seq::<u8>::empty());
        assert(dec_value(Seq::<u8>::empty()) == 0);
    }
    while i < end
        invariant
            start <= i <= end,
            end <= bytes@.len(),
            max >= 9,
            whole == bytes@.subrange(start as int, end as int),
            all_digits(whole),
            val as nat == dec_value(bytes@.subrange(start as int, i as int)),
            val <= max,
        decreases end - i,
    {
        proof {
            assert(whole[i - start] == bytes@[i as int]);
            assert(is_digit(bytes@[i as int]));
        }
        let b = bytes[i];
        let d: u64 = (b - 0x30) as u64;
        proof {
            let prev = bytes@.subrange(start as int, i as int);
            let cur = bytes@.subrange(start as int, i + 1);
            assert(cur.drop_last() =~= prev);
            assert(cur.last() == bytes@[i as int]);
            lemma_fundamental_div_mod((max - d) as int, 10);
        }
        if val > (max - d) / 10 {
            proof {
                assert(dec_value(bytes@.subrange(start as int, i + 1)) > max);
                lemma_dec_value_prefix(whole, i + 1 - start);
                assert(whole.take(i + 1 - start) =~= bytes@.subrange(start as int, i + 1));
            }
            return None;
        }
        val = val * 10 + d;
        i += 1;
    }
    Some(val)
}

/// Parses the textual form of a peer address, agreeing exactly with
/// `spec_parse_addr`: the parse succeeds if and only if the bytes lie in
/// the grammar, and then yields the one address they denote; anything else
/// is the argument failure, which is fatal at startup.
pub fn parse_addr(bytes: &Vec<u8>) -> (r: Result<PeerAddress, ProtocolError>)
    ensures
        match r {
            Ok(a) => spec_parse_addr(bytes@) == Some(a),
            Err(e) => spec_parse_addr(bytes@) is None && e == ProtocolError::InvalidArguments,
        },
{
    let n = bytes.len();
    let e0 = scan_digits(bytes, 0);
    if e0 == n || bytes[e0] != 0x2e {
        return Err(ProtocolError::InvalidArguments);
    }
    let e1 = scan_digits(bytes, e0 + 1);
    if e1 == n || bytes[e1] != 0x2e {
        return Err(ProtocolError::InvalidArguments);
    }
    let e2 = scan_digits(bytes, e1 + 1);
    if e2 == n || bytes[e2] != 0x2e {
        return Err(ProtocolError::InvalidArguments);
    }
    let e3 = scan_digits(bytes, e2 + 1);
    if e3 == n || bytes[e3] != 0x3a {
        return Err(ProtocolError::InvalidArguments);
    }
    let e4 = scan_digits(bytes, e3 + 1);
    if e4 != n {
        return Err(ProtocolError::InvalidArguments);
    }
    proof {
        lemma_digit_run_facts(bytes@, 0);
        lemma_digit_run_facts(bytes@, e0 + 1);
        lemma_digit_run_facts(bytes@, e1 + 1);
        lemma_digit_run_facts(bytes@, e2 + 1);
        lemma_digit_run_facts(bytes@, e3 + 1);
        lemma_all_digits_range(bytes@, 0, e0 as int);
        lemma_all_digits_range(bytes@, e0 + 1, e1 as int);
        lemma_all_digits_range(bytes@, e1 + 1, e2 as int);
        lemma_all_digits_range(bytes@, e2 + 1, e3 as int);
        lemma_all_digits_range(bytes@, e3 + 1, e4 as int);
    }
    let v0 = match parse_component(bytes, 0, e0, 255) {
        Some(v) => v,
        None => {
            return Err(ProtocolError::InvalidArguments);
        },
    };
    let v1 = match parse_component(bytes, e0 + 1, e1, 255) {
        Some(v) => v,
        None => {
            return Err(ProtocolError::InvalidArguments);
        },
    };
    let v2 = match parse_component(bytes, e1 + 1, e2, 255) {
        Some(v) => v,
        None => {
            return Err(ProtocolError::InvalidArguments);
        },
    };
    let v3 = match parse_component(bytes, e2 + 1, e3, 255) {
        Some(v) => v,
        None => {
            return Err(ProtocolError::InvalidArguments);
        },
    };
    let vp = match parse_component(bytes, e3 + 1, e4, 0xffff) {
        Some(v) => v,
        None => {
            return Err(ProtocolError::InvalidArguments);
        },
    };
    Ok(
        PeerAddress {
            o0: v0 as u8,
            o1: v1 as u8,
            o2: v2 as u8,
            o3: v3 as u8,
            port: vp as u16,
        },
    )
}

// ---------------------------------------------------------------------------
// Rendering, and the round trip through the grammar.
// ---------------------------------------------------------------------------

/// The canonical text of an address: the four octets in minimal decimal
/// joined by dots, a colon, and the port in minimal decimal.
pub open spec fn addr_bytes(a: PeerAddress) -> Seq<u8> {
    dec_rep(a.o0 as nat).push(0x2e) + dec_rep(a.o1 as nat).push(0x2e) + dec_rep(
        a.o2 as nat,
    ).push(0x2e) + dec_rep(a.o3 as nat).push(0x3a) + dec_rep(a.port as nat)
}

/// Renders an address in its canonical textual form.
pub fn render_addr(a: &PeerAddress) -> (r: Vec<u8>)
    ensures
        r@ == addr_bytes(*a),
{
    let mut r = encode(a.o0 as u64);
    r.push(0x2e);
    let mut part = encode(a.o1 as u64);
    r.append(&mut part);
    r.push(0x2e);
    let mut part = encode(a.o2 as u64);
    r.append(&mut part);
    r.push(0x2e);
    let mut part = encode(a.o3 as u64);
    r.append(&mut part);
    r.push(0x3a);
    let mut part = encode(a.port as u64);
    r.append(&mut part);
    proof {
        assert(r@ =~= addr_bytes(*a));
    }
    r
}

/// A run of digits bounded by the end of the text or a non-digit ends
/// exactly at that bound.
proof fn lemma_run_end_digits(s: Seq<u8>, i: int, j: int)
    requires
        0 <= i <= j <= s.len(),
        forall|k: int| i <= k < j ==> is_digit(s[k]),
        j < s.len() ==> !is_digit(s[j]),
    ensures
        digit_run_end(s, i) == j,
    decreases j - i,
{
    if i < j {
        lemma_run_end_digits(s, i + 1, j);
    }
}

/// Round-trip law for addresses: the canonical text of any address lies in
/// the grammar and parses back to that very address.
pub proof fn lemma_addr_round_trip(a: PeerAddress)
    ensures
        spec_parse_addr(addr_bytes(a)) == Some(a),
{
    let r0 = dec_rep(a.o0 as nat);
    let r1 = dec_rep(a.o1 as nat);
    let r2 = dec_rep(a.o2 as nat);
    let r3 = dec_rep(a.o3 as nat);
    let rp = dec_rep(a.port as nat);
    lemma_dec_rep_wf(a.o0 as nat);
    lemma_dec_rep_wf(a.o1 as nat);
    lemma_dec_rep_wf(a.o2 as nat);
    lemma_dec_rep_wf(a.o3 as nat);
    lemma_dec_rep_wf(a.port as nat);
    lemma_dec_value_of_rep(a.o0 as nat);
    lemma_dec_value_of_rep(a.o1 as nat);
    lemma_dec_value_of_rep(a.o2 as nat);
    lemma_dec_value_of_rep(a.o3 as nat);
    lemma_dec_value_of_rep(a.port as nat);
    let s = addr_bytes(a);
    let l0 = r0.len() as int;
    let l1 = r1.len() as int;
    let l2 = r2.len() as int;
    let l3 = r3.len() as int;
    let lp = rp.len() as int;
    let e0 = l0;
    let e1 = e0 + 1 + l1;
    let e2 = e1 + 1 + l2;
    let e3 = e2 + 1 + l3;
    let e4 = e3 + 1 + lp;
    assert(s.len() == e4);
    assert(forall|k: int| 0 <= k < l0 ==> s[k] == r0[k]);
    assert(s[e0] == 0x2e);
    assert(forall|k: int| 0 <= k < l1 ==> s[e0 + 1 + k] == r1[k]);
    assert(s[e1] == 0x2e);
    assert(forall|k: int| 0 <= k < l2 ==> s[e1 + 1 + k] == r2[k]);
    assert(s[e2] == 0x2e);
    assert(forall|k: int| 0 <= k < l3 ==> s[e2 + 1 + k] == r3[k]);
    assert(s[e3] == 0x3a);
    assert(forall|k: int| 0 <= k < lp ==> s[e3 + 1 + k] == rp[k]);
    lemma_run_end_digits(s, 0, e0);
    lemma_run_end_digits(s, e0 + 1, e1);
    lemma_run_end_digits(s, e1 + 1, e2);
    lemma_run_end_digits(s, e2 + 1, e3);
    lemma_run_end_digits(s, e3 + 1, e4);
    assert(s.subrange(0, e0) =~= r0);
    assert(s.subrange(e0 + 1, e1) =~= r1);
    assert(s.subrange(e1 + 1, e2) =~= r2);
    assert(s.subrange(e2 + 1, e3) =~= r3);
    assert(s.subrange(e3 + 1, e4) =~= rp);
    assert(component_ok(s, 0, e0, 255));
    assert(component_ok(s, e0 + 1, e1, 255));
    assert(component_ok(s, e1 + 1, e2, 255));
    assert(component_ok(s, e2 + 1, e3, 255));
    assert(component_ok(s, e3 + 1, e4, 0xffff));
}

/// Digit bytes over a range carry over to the subrange they fill.
proof fn lemma_all_digits_range(s: Seq<u8>, a: int, b: int)
    requires
        0 <= a <= b <= s.len(),
        forall|k: int| a <= k < b ==> is_digit(s[k]),
    ensures
        all_digits(s.subrange(a, b)),
{
    assert forall|k: int| 0 <= k < b - a implies is_digit(s.subrange(a, b)[k]) by {
        assert(s.subrange(a, b)[k] == s[a + k]);
    }
}

} // verus!
