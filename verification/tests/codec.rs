use counter_exchange::codec::{bytes_eq, decode, encode};
use counter_exchange::errors::ProtocolError;

#[test]
fn encode_renders_minimal_decimal() {
    assert_eq!(encode(0), b"0".to_vec());
    assert_eq!(encode(1), b"1".to_vec());
    assert_eq!(encode(9), b"9".to_vec());
    assert_eq!(encode(10), b"10".to_vec());
    assert_eq!(encode(12345), b"12345".to_vec());
    assert_eq!(encode(u64::MAX), b"18446744073709551615".to_vec());
}

#[test]
fn decode_reads_decimal_text() {
    assert_eq!(decode(&b"0".to_vec()), Ok(0));
    assert_eq!(decode(&b"1".to_vec()), Ok(1));
    assert_eq!(decode(&b"42".to_vec()), Ok(42));
    assert_eq!(decode(&b"18446744073709551615".to_vec()), Ok(u64::MAX));
}

#[test]
fn decode_accepts_padded_digits() {
    assert_eq!(decode(&b"007".to_vec()), Ok(7));
    assert_eq!(decode(&b"00".to_vec()), Ok(0));
}

#[test]
fn round_trip_holds_on_samples() {
    for n in [0u64, 1, 9, 10, 99, 100, 4096, 1_000_000_007, u64::MAX] {
        assert_eq!(decode(&encode(n)), Ok(n));
    }
}

#[test]
fn canonical_payloads_re_encode_to_themselves() {
    for s in [
        &b"0"[..],
        b"7",
        b"10",
        b"907",
        b"18446744073709551615",
    ] {
        let v = decode(&s.to_vec()).unwrap();
        assert_eq!(encode(v), s.to_vec());
    }
}

#[test]
fn decode_rejects_text_that_is_no_integer() {
    assert_eq!(decode(&b"abc".to_vec()), Err(ProtocolError::NotAnInteger));
    assert_eq!(decode(&b"".to_vec()), Err(ProtocolError::NotAnInteger));
    assert_eq!(decode(&b"12a".to_vec()), Err(ProtocolError::NotAnInteger));
    assert_eq!(decode(&b"-1".to_vec()), Err(ProtocolError::NotAnInteger));
    assert_eq!(decode(&b"+1".to_vec()), Err(ProtocolError::NotAnInteger));
    assert_eq!(decode(&b" 1".to_vec()), Err(ProtocolError::NotAnInteger));
    assert_eq!(decode(&b"1 ".to_vec()), Err(ProtocolError::NotAnInteger));
    // Multi-byte text is still text.
    assert_eq!(
        decode(&"číslo".as_bytes().to_vec()),
        Err(ProtocolError::NotAnInteger)
    );
}

#[test]
fn decode_rejects_value_beyond_range_as_no_integer() {
    assert_eq!(
        decode(&b"18446744073709551616".to_vec()),
        Err(ProtocolError::NotAnInteger)
    );
    assert_eq!(
        decode(&b"99999999999999999999999".to_vec()),
        Err(ProtocolError::NotAnInteger)
    );
}

#[test]
fn decode_rejects_bytes_that_are_no_text() {
    assert_eq!(
        decode(&vec![0xff, 0xfe]),
        Err(ProtocolError::NonUtf8Payload)
    );
    // A lone continuation byte.
    assert_eq!(decode(&vec![0x80]), Err(ProtocolError::NonUtf8Payload));
    // A truncated two-byte form.
    assert_eq!(decode(&vec![0xc3]), Err(ProtocolError::NonUtf8Payload));
    // An overlong two-byte form.
    assert_eq!(
        decode(&vec![0xc0, 0xaf]),
        Err(ProtocolError::NonUtf8Payload)
    );
    // A surrogate, refused by UTF-8.
    assert_eq!(
        decode(&vec![0xed, 0xa0, 0x80]),
        Err(ProtocolError::NonUtf8Payload)
    );
    // Beyond U+10FFFF.
    assert_eq!(
        decode(&vec![0xf4, 0x90, 0x80, 0x80]),
        Err(ProtocolError::NonUtf8Payload)
    );
    // Digits followed by garbage are classified by the whole payload.
    assert_eq!(
        decode(&vec![0x31, 0xff]),
        Err(ProtocolError::NonUtf8Payload)
    );
}

#[test]
fn bytes_eq_compares_whole_payloads() {
    assert!(bytes_eq(&b"abc".to_vec(), &b"abc".to_vec()));
    assert!(!bytes_eq(&b"abc".to_vec(), &b"abd".to_vec()));
    assert!(!bytes_eq(&b"abc".to_vec(), &b"ab".to_vec()));
    assert!(bytes_eq(&b"".to_vec(), &b"".to_vec()));
}
