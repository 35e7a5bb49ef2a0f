use vstd::arithmetic::div_mod::lemma_fundamental_div_mod;
use vstd::arithmetic::div_mod::lemma_fundamental_div_mod_converse;
use vstd::prelude::*;

use crate::errors::ProtocolError;

verus! {

// ---------------------------------------------------------------------------
// The wire form of a counter value: its minimal decimal rendering, one ASCII
// digit byte per decimal digit, no sign, no separators, no whitespace.
// ---------------------------------------------------------------------------

/// `b` is an ASCII decimal digit (`'0'` is 0x30, `'9'` is 0x39).
pub open spec fn is_digit(b: u8) -> bool {
    0x30 <= b && b <= 0x39
}

/// The numeric value of the digit byte `b`.
pub open spec fn digit_value(b: u8) -> nat {
    (b - 0x30) as nat
}

/// Every byte of `s` is an ASCII decimal digit.
pub open spec fn all_digits(s: Seq<u8>) -> bool {
    forall|i: int| 0 <= i < s.len() ==> is_digit(s[i])
}

/// The number denoted by a sequence of digit bytes, most significant first.
pub open spec fn dec_value(s: Seq<u8>) -> nat
    decreases s.len(),
{
    if s.len() == 0 {
        0
    } else {
        dec_value(s.drop_last()) * 10 + digit_value(s.last())
    }
}

/// The canonical decimal rendering of `n`: minimal, so no leading zero
/// except for the single digit `"0"` itself.
pub open spec fn dec_rep(n: nat) -> Seq<u8>
    decreases n,
{
    if n < 10 {
        seq![(0x30 + n) as u8]
    } else {
        dec_rep(n / 10).push((0x30 + n % 10) as u8)
    }
}

/// The payloads `decode` accepts: nonempty digit text whose value fits the
/// counter range.
pub open spec fn decode_ok(s: Seq<u8>) -> bool {
    s.len() > 0 && all_digits(s) && dec_value(s) <= u64::MAX
}

// ---------------------------------------------------------------------------
// Encoding
// ---------------------------------------------------------------------------

/// Renders `n` in its canonical decimal form.
pub fn encode(n: u64) -> (r: Vec<u8>)
    ensures
        r@ == dec_rep(n as nat),
    decreases n,
{
    if n < 10 {
        let d: u8 = 0x30 + (n as u8);
        let mut r: Vec<u8> = Vec::new();
        r.push(d);
        proof {
            assert(r@ =~= dec_rep(n as nat));
        }
        r
    } else {
        let mut r = encode(n / 10);
        let d: u8 = 0x30 + ((n % 10) as u8);
        r.push(d);
        proof {
            assert(r@ =~= dec_rep(n as nat));
        }
        r
    }
}

/// Byte-for-byte equality of two payloads.
pub fn bytes_eq(a: &Vec<u8>, b: &Vec<u8>) -> (r: bool)
    ensures
        r == (a@ == b@),
{
    if a.len() != b.len() {
        return false;
    }
    let n = a.len();
    let mut i: usize = 0;
    while i < n
        invariant
            0 <= i <= n,
            n == a@.len(),
            n == b@.len(),
            forall|k: int| 0 <= k < i ==> a@[k] == b@[k],
        decreases n - i,
    {
        if a[i] != b[i] {
            return false;
        }
        i += 1;
    }
    proof {
        assert(a@ =~= b@);
    }
    true
}

// ---------------------------------------------------------------------------
// UTF-8 well-formedness, needed only to tell the two decode failures apart:
// a payload that is not even text, and text that is not a number.
// ---------------------------------------------------------------------------

/// `b` is a UTF-8 continuation byte.
pub open spec fn is_cont(b: u8) -> bool {
    0x80 <= b && b <= 0xBF
}

/// Well-formed UTF-8, by the leading-byte table of the encoding: two-byte
/// forms lead with 0xC2..0xDF, three-byte forms with 0xE0..0xEF minus the
/// overlong (0xE0) and surrogate (0xED) exclusions on the second byte, and
/// four-byte forms with 0xF0..0xF4 capped at U+10FFFF.
pub open spec fn is_utf8(s: Seq<u8>) -> bool
    decreases s.len(),
{
    if s.len() == 0 {
        true
    } else {
        let b0 = s[0];
        if b0 < 0x80 {
            is_utf8(s.skip(1))
        } else if b0 < 0xC2 {
            false
        } else if b0 <= 0xDF {
            s.len() >= 2 && is_cont(s[1]) && is_utf8(s.skip(2))
        } else if b0 == 0xE0 {
            s.len() >= 3 && 0xA0 <= s[1] && s[1] <= 0xBF && is_cont(s[2]) && is_utf8(s.skip(3))
        } else if b0 == 0xED {
            s.len() >= 3 && 0x80 <= s[1] && s[1] <= 0x9F && is_cont(s[2]) && is_utf8(s.skip(3))
        } else if b0 <= 0xEF {
            s.len() >= 3 && is_cont(s[1]) && is_cont(s[2]) && is_utf8(s.skip(3))
        } else if b0 == 0xF0 {
            s.len() >= 4 && 0x90 <= s[1] && s[1] <= 0xBF && is_cont(s[2]) && is_cont(s[3])
                && is_utf8(s.skip(4))
        } else if b0 <= 0xF3 {
            s.len() >= 4 && is_cont(s[1]) && is_cont(s[2]) && is_cont(s[3]) && is_utf8(s.skip(4))
        } else if b0 == 0xF4 {
            s.len() >= 4 && 0x80 <= s[1] && s[1] <= 0x8F && is_cont(s[2]) && is_cont(s[3])
                && is_utf8(s.skip(4))
        } else {
            false
        }
    }
}

proof fn lemma_skip_skip(s: Seq<u8>, i: int, m: int)
    requires
        0 <= i,
        0 <= m,
        i + m <= s.len(),
    ensures
        s.skip(i).skip(m) == s.skip(i + m),
{
    assert(s.skip(i).skip(m) =~= s.skip(i + m));
}

/// Checks `bytes` against `is_utf8`.
fn check_utf8(bytes: &Vec<u8>) -> (r: bool)
    ensures
        r == is_utf8(bytes@),
{
    let n = bytes.len();
    proof {
        assert(bytes@.skip(0) =~= bytes@);
    }
    let mut i: usize = 0;
    while i < n
        invariant
            0 <= i <= n,
            n == bytes@.len(),
            is_utf8(bytes@) == is_utf8(bytes@.skip(i as int)),
        decreases n - i,
    {
        let ghost s = bytes@.skip(i as int);
        proof {
            assert(s.len() == n - i);
            assert(forall|k: int| 0 <= k < n - i ==> s[k] == bytes@[i + k]);
        }
        let b0 = bytes[i];
        if b0 < 0x80 {
            proof {
                lemma_skip_skip(bytes@, i as int, 1);
            }
            i += 1;
        } else if b0 < 0xC2 {
            return false;
        } else if b0 <= 0xDF {
            if n - i > 1 && 0x80 <= bytes[i + 1] && bytes[i + 1] <= 0xBF {
                proof {
                    lemma_skip_skip(bytes@, i as int, 2);
                }
                i += 2;
            } else {
                return false;
            }
        } else if b0 == 0xE0 {
            if n - i > 2 && 0xA0 <= bytes[i + 1] && bytes[i + 1] <= 0xBF && 0x80 <= bytes[i + 2]
                && bytes[i + 2] <= 0xBF {
                proof {
                    lemma_skip_skip(bytes@, i as int, 3);
                }
                i += 3;
            } else {
                return false;
            }
        } else if b0 == 0xED {
            if n - i > 2 && 0x80 <= bytes[i + 1] && bytes[i + 1] <= 0x9F && 0x80 <= bytes[i + 2]
                && bytes[i + 2] <= 0xBF {
                proof {
                    lemma_skip_skip(bytes@, i as int, 3);
                }
                i += 3;
            } else {
                return false;
            }
        } else if b0 <= 0xEF {
            if n - i > 2 && 0x80 <= bytes[i + 1] && bytes[i + 1] <= 0xBF && 0x80 <= bytes[i + 2]
                && bytes[i + 2] <= 0xBF {
                proof {
                    lemma_skip_skip(bytes@, i as int, 3);
                }
                i += 3;
            } else {
                return false;
            }
        } else if b0 == 0xF0 {
            if n - i > 3 && 0x90 <= bytes[i + 1] && bytes[i + 1] <= 0xBF && 0x80 <= bytes[i + 2]
                && bytes[i + 2] <= 0xBF && 0x80 <= bytes[i + 3] && bytes[i + 3] <= 0xBF {
                proof {
                    lemma_skip_skip(bytes@, i as int, 4);
                }
                i += 4;
            } else {
                return false;
            }
        } else if b0 <= 0xF3 {
            if n - i > 3 && 0x80 <= bytes[i + 1] && bytes[i + 1] <= 0xBF && 0x80 <= bytes[i + 2]
                && bytes[i + 2] <= 0xBF && 0x80 <= bytes[i + 3] && bytes[i + 3] <= 0xBF {
                proof {
                    lemma_skip_skip(bytes@, i as int, 4);
                }
                i += 4;
            } else {
                return false;
            }
        } else if b0 == 0xF4 {
            if n - i > 3 && 0x80 <= bytes[i + 1] && bytes[i + 1] <= 0x8F && 0x80 <= bytes[i + 2]
                && bytes[i + 2] <= 0xBF && 0x80 <= bytes[i + 3] && bytes[i + 3] <= 0xBF {
                proof {
                    lemma_skip_skip(bytes@, i as int, 4);
                }
                i += 4;
            } else {
                return false;
            }
        } else {
            return false;
        }
    }
    proof {
        assert(bytes@.skip(n as int) =~= Seq::<u8>::empty());
    }
    true
}

// ---------------------------------------------------------------------------
// Decoding
// ---------------------------------------------------------------------------

/// The error `decode` reports on a payload it rejects.
pub open spec fn decode_err(s: Seq<u8>) -> ProtocolError {
    if is_utf8(s) {
        ProtocolError::NotAnInteger
    } else {
        ProtocolError::NonUtf8Payload
    }
}

/// Classifies a rejected payload: text that is no number, or no text at all.
fn reject_payload(bytes: &Vec<u8>) -> (r: Result<u64, ProtocolError>)
    requires
        !decode_ok(bytes@),
    ensures
        r == Err::<u64, ProtocolError>(decode_err(bytes@)),
{
    if check_utf8(bytes) {
        Err(ProtocolError::NotAnInteger)
    } else {
        Err(ProtocolError::NonUtf8Payload)
    }
}

/// Parses a payload as the decimal text of a non-negative integer.
///
/// Accepts exactly the nonempty all-digit payloads whose value fits `u64`,
/// and yields that value; any other payload is rejected with the error
/// `decode_err` assigns to it.
pub fn decode(bytes: &Vec<u8>) -> (r: Result<u64, ProtocolError>)
    ensures
        decode_ok(bytes@) ==> r == Ok::<u64, ProtocolError>(dec_value(bytes@) as u64),
        !decode_ok(bytes@) ==> r == Err::<u64, ProtocolError>(decode_err(bytes@)),
{
    let n = bytes.len();
    if n == 0 {
        return Err(ProtocolError::NotAnInteger);
    }
    let mut i: usize = 0;
    let mut val: u64 = 0;
    while i < n
        invariant
            0 <= i <= n,
            n == bytes@.len(),
            all_digits(bytes@.take(i as int)),
            val as nat == dec_value(bytes@.take(i as int)),
        decreases n - i,
    {
        let b = bytes[i];
        if b < 0x30 || b > 0x39 {
            proof {
                assert(!is_digit(bytes@[i as int]));
            }
            return reject_payload(bytes);
        }
        let d: u64 = (b - 0x30) as u64;
        proof {
            assert(bytes@.take(i + 1).drop_last() =~= bytes@.take(i as int));
            assert(bytes@.take(i + 1).last() == bytes@[i as int]);
            lemma_fundamental_div_mod((u64::MAX - d) as int, 10);
        }
        if val > (u64::MAX - d) / 10 {
            proof {
                assert(dec_value(bytes@.take(i + 1)) > u64::MAX);
                lemma_dec_value_prefix(bytes@, i + 1);
            }
            return reject_payload(bytes);
        }
        val = val * 10 + d;
        i += 1;
    }
    proof {
        assert(bytes@.take(n as int) =~= bytes@);
    }
    Ok(val)
}

// ---------------------------------------------------------------------------
// Facts about the canonical form
// ---------------------------------------------------------------------------

/// The canonical rendering is nonempty, all digits, and has no leading zero
/// unless the value itself is below ten.
pub proof fn lemma_dec_rep_wf(n: nat)
    ensures
        dec_rep(n).len() >= 1,
        all_digits(dec_rep(n)),
        n >= 1 ==> dec_rep(n)[0] != 0x30,
    decreases n,
{
    if n < 10 {
        assert(is_digit(dec_rep(n)[0]));
    } else {
        lemma_dec_rep_wf(n / 10);
        assert(n / 10 >= 1) by {
            lemma_fundamental_div_mod(n as int, 10);
        }
        assert forall|i: int| 0 <= i < dec_rep(n).len() implies is_digit(dec_rep(n)[i]) by {
            if i < dec_rep(n / 10).len() {
                assert(dec_rep(n)[i] == dec_rep(n / 10)[i]);
            }
        }
    }
}

/// Round-trip at the level of the mathematical model: reading the canonical
/// rendering of `n` back as a number yields `n` again.
pub proof fn lemma_dec_value_of_rep(n: nat)
    ensures
        dec_value(dec_rep(n)) == n,
    decreases n,
{
    if n < 10 {
        let s = dec_rep(n);
        assert(s.drop_last() =~= Seq::<u8>::empty());
        assert(dec_value(Seq::<u8>::empty()) == 0);
        assert(dec_value(s) == digit_value(s.last()));
    } else {
        lemma_dec_value_of_rep(n / 10);
        let s = dec_rep(n);
        assert(s.drop_last() =~= dec_rep(n / 10));
        assert(dec_value(s) == (n / 10) * 10 + n % 10);
        lemma_fundamental_div_mod(n as int, 10);
    }
}

/// Round-trip law: the canonical encoding of any counter value is a payload
/// that `decode` accepts, and it decodes to that very value.
pub proof fn lemma_round_trip(n: u64)
    ensures
        decode_ok(dec_rep(n as nat)),
        dec_value(dec_rep(n as nat)) == n as nat,
{
    lemma_dec_rep_wf(n as nat);
    lemma_dec_value_of_rep(n as nat);
}

/// Reading a prefix of a digit string never yields a larger number than
/// reading the whole of it.
pub proof fn lemma_dec_value_prefix(s: Seq<u8>, j: int)
    requires
        0 <= j <= s.len(),
    ensures
        dec_value(s.take(j)) <= dec_value(s),
    decreases s.len(),
{
    if j == s.len() {
        assert(s.take(j) =~= s);
    } else {
        assert(s.take(j) =~= s.drop_last().take(j));
        lemma_dec_value_prefix(s.drop_last(), j);
    }
}

/// A nonempty digit string without a leading zero denotes a positive number.
pub proof fn lemma_dec_value_pos(s: Seq<u8>)
    requires
        s.len() >= 1,
        all_digits(s),
        s[0] != 0x30,
    ensures
        dec_value(s) >= 1,
    decreases s.len(),
{
    if s.len() == 1 {
        assert(is_digit(s[0]));
    } else {
        assert(s.drop_last()[0] == s[0]);
        lemma_dec_value_pos(s.drop_last());
    }
}

/// Canonicity: a nonempty digit string without a leading zero is the
/// canonical rendering of the number it denotes.
pub proof fn lemma_dec_rep_of_value(s: Seq<u8>)
    requires
        s.len() >= 1,
        all_digits(s),
        s[0] != 0x30 || s.len() == 1,
    ensures
        dec_rep(dec_value(s)) == s,
    decreases s.len(),
{
    if s.len() == 1 {
        assert(s.drop_last() =~= Seq::<u8>::empty());
        assert(dec_value(Seq::<u8>::empty()) == 0);
        assert(is_digit(s[0]));
        assert(dec_value(s) == digit_value(s[0]));
        assert(dec_rep(dec_value(s)) =~= s);
    } else {
        let t = s.drop_last();
        let d = digit_value(s.last());
        assert(t[0] == s[0]);
        lemma_dec_rep_of_value(t);
        lemma_dec_value_pos(t);
        let v = dec_value(s);
        assert(v == dec_value(t) * 10 + d);
        assert(dec_value(t) * 10 >= 10) by (nonlinear_arith)
            requires dec_value(t) >= 1;
        lemma_fundamental_div_mod_converse(v as int, 10, dec_value(t) as int, d as int);
        assert(v / 10 == dec_value(t));
        assert(v % 10 == d);
        assert(is_digit(s.last()));
        assert((0x30 + v % 10) as u8 == s.last());
        assert(dec_rep(v) =~= s);
    }
}

} // verus!
