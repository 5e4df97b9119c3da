//! FAST encoding.

use ironfix::fast::{DictionaryValue, FastEncoder, FastError, MAX_INT_ENCODED_LEN};

#[test]
fn test_encode_uint_zero() {
    let mut encoder = FastEncoder::new();
    encoder.encode_uint(0);
    assert_eq!(encoder.finish(), vec![0x80]);
}

#[test]
fn test_encode_uint_one() {
    let mut encoder = FastEncoder::new();
    encoder.encode_uint(1);
    assert_eq!(encoder.finish(), vec![0x81]);
}

#[test]
fn test_encode_uint_larger() {
    let mut encoder = FastEncoder::new();
    encoder.encode_uint(942);
    // 942 = 7 * 128 + 46, so first byte is 7, second is 46 | 0x80 = 0xAE
    assert_eq!(encoder.finish(), vec![0x07, 0xAE]);
}

#[test]
fn test_encode_uint_boundaries_are_byte_exact() {
    let cases: [(u64, &[u8]); 6] = [
        (0, &[0x80]),
        (127, &[0xFF]),
        (128, &[0x01, 0x80]),
        (16383, &[0x7F, 0xFF]),
        (16384, &[0x01, 0x00, 0x80]),
        (
            u64::MAX,
            &[0x01, 0x7F, 0x7F, 0x7F, 0x7F, 0x7F, 0x7F, 0x7F, 0x7F, 0xFF],
        ),
    ];

    for (value, expected) in cases {
        let mut encoder = FastEncoder::new();
        encoder.encode_uint(value);
        assert_eq!(encoder.finish(), expected, "minimal encoding of {value}");
    }
}

#[test]
fn test_encode_uint_never_exceeds_the_decoder_ceiling() {
    for shift in 0..64u32 {
        let Some(value) = 1u64.checked_shl(shift) else {
            continue;
        };
        let mut encoder = FastEncoder::new();
        encoder.encode_uint(value);
        assert!(encoder.len() <= MAX_INT_ENCODED_LEN, "value {value}");
    }
}

#[test]
fn test_encode_int_emits_the_sign_carry_byte() {
    // 64 needs a leading 0x00: without it, bit 6 of the only payload byte
    // would make the decoder read -64.
    let mut encoder = FastEncoder::new();
    encoder.encode_int(64);
    assert_eq!(encoder.finish(), vec![0x00, 0xC0]);

    // -65 needs a leading 0x7F for the mirror-image reason.
    let mut encoder = FastEncoder::new();
    encoder.encode_int(-65);
    assert_eq!(encoder.finish(), vec![0x7F, 0xBF]);
}

#[test]
fn test_encode_int_omits_the_carry_byte_when_the_sign_already_fits() {
    let mut encoder = FastEncoder::new();
    encoder.encode_int(63);
    assert_eq!(encoder.finish(), vec![0xBF]);

    let mut encoder = FastEncoder::new();
    encoder.encode_int(-64);
    assert_eq!(encoder.finish(), vec![0xC0]);
}

#[test]
fn test_encode_int_extremes_use_ten_bytes() {
    let mut encoder = FastEncoder::new();
    encoder.encode_int(i64::MAX);
    assert_eq!(
        encoder.finish(),
        vec![0x00, 0x7F, 0x7F, 0x7F, 0x7F, 0x7F, 0x7F, 0x7F, 0x7F, 0xFF]
    );

    let mut encoder = FastEncoder::new();
    encoder.encode_int(i64::MIN);
    assert_eq!(
        encoder.finish(),
        vec![0x7F, 0x00, 0x00, 0x00, 0x00, 0x00, 0x00, 0x00, 0x00, 0x80]
    );
}

#[test]
fn test_encode_int_never_exceeds_the_decoder_ceiling() {
    for shift in 0..63u32 {
        let Some(value) = 1i64.checked_shl(shift) else {
            continue;
        };
        for candidate in [Some(value), value.checked_neg(), value.checked_sub(1)] {
            let Some(value) = candidate else {
                continue;
            };
            let mut encoder = FastEncoder::new();
            encoder.encode_int(value);
            assert!(encoder.len() <= MAX_INT_ENCODED_LEN, "value {value}");
        }
    }
}

#[test]
fn test_encode_ascii() {
    let mut encoder = FastEncoder::new();
    assert_eq!(encoder.encode_ascii("Hi!"), Ok(()));
    assert_eq!(encoder.finish(), vec![b'H', b'i', b'!' | 0x80]);
}

#[test]
fn test_encode_ascii_empty_is_a_lone_stop_byte() {
    let mut encoder = FastEncoder::new();
    assert_eq!(encoder.encode_ascii(""), Ok(()));
    assert_eq!(encoder.finish(), vec![0x80]);
}

#[test]
fn test_encode_ascii_nul_is_zero_then_stop() {
    let mut encoder = FastEncoder::new();
    assert_eq!(encoder.encode_ascii("\0"), Ok(()));
    assert_eq!(encoder.finish(), vec![0x00, 0x80]);
}

#[test]
fn test_encode_ascii_leading_nul_string_is_invalid_string() {
    let mut encoder = FastEncoder::new();
    assert_eq!(
        encoder.encode_ascii("\0a"),
        Err(FastError::InvalidString),
        "a leading NUL followed by more characters is an over-long form"
    );
    assert!(encoder.is_empty(), "nothing may reach the wire on error");
}

#[test]
fn test_encode_ascii_non_ascii_is_invalid_string() {
    let mut encoder = FastEncoder::new();
    assert_eq!(encoder.encode_ascii("€"), Err(FastError::InvalidString));
    assert_eq!(encoder.encode_ascii("café"), Err(FastError::InvalidString));
    assert!(encoder.is_empty(), "nothing may reach the wire on error");
}

#[test]
fn test_encode_bytes() {
    let mut encoder = FastEncoder::new();
    encoder.encode_bytes(&[1, 2, 3]);
    assert_eq!(encoder.finish(), vec![0x83, 1, 2, 3]);
}

#[test]
fn test_encode_bytes_empty_is_a_zero_length_prefix() {
    let mut encoder = FastEncoder::new();
    encoder.encode_bytes(&[]);
    assert_eq!(encoder.finish(), vec![0x80]);
}

#[test]
fn test_encode_nullable_uint_none_is_a_lone_stop_byte() {
    let mut encoder = FastEncoder::new();
    assert_eq!(encoder.encode_nullable_uint(None), Ok(()));
    assert_eq!(encoder.finish(), vec![0x80]);
}

#[test]
fn test_encode_nullable_uint_some_is_biased_by_one() {
    let mut encoder = FastEncoder::new();
    assert_eq!(encoder.encode_nullable_uint(Some(0)), Ok(()));
    assert_eq!(encoder.finish(), vec![0x81]);

    let mut encoder = FastEncoder::new();
    assert_eq!(encoder.encode_nullable_uint(Some(126)), Ok(()));
    assert_eq!(encoder.finish(), vec![0xFF]);
}

#[test]
fn test_encode_nullable_uint_max_is_representable() {
    // u64::MAX biases to 2^64, which does not fit u64; it encodes through
    // u128 in ten stop-bit bytes.
    let mut encoder = FastEncoder::new();
    assert_eq!(encoder.encode_nullable_uint(Some(u64::MAX)), Ok(()));
    assert_eq!(encoder.len(), MAX_INT_ENCODED_LEN);
}

#[test]
fn test_encode_nullable_uint_domain_upper_bound_is_representable() {
    let mut encoder = FastEncoder::new();
    assert_eq!(encoder.encode_nullable_uint(Some(u64::MAX - 1)), Ok(()));
    assert_eq!(encoder.len(), MAX_INT_ENCODED_LEN);
}

#[test]
fn test_encoder_clear() {
    let mut encoder = FastEncoder::new();
    encoder.encode_uint(42);
    assert!(!encoder.is_empty());

    encoder.clear();
    assert!(encoder.is_empty());
}

#[test]
fn test_encoder_reset_clears_buffer_and_dictionaries() {
    let mut encoder = FastEncoder::with_capacity(64);
    encoder.encode_uint(42);
    encoder.set_global("test", DictionaryValue::UInt(7));
    assert_eq!(
        encoder.get_global("test").and_then(DictionaryValue::as_u64),
        Some(7)
    );

    encoder.reset();
    assert!(encoder.is_empty());
    assert_eq!(encoder.as_bytes(), &[] as &[u8]);
    assert!(encoder.get_global("test").is_none());
}
