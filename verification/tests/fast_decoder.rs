//! FAST decoding.

use ironfix::fast::stopbit::PAYLOAD_BITS;
use ironfix::fast::{
    DictionaryValue, FastDecoder, FastEncoder, FastError, MAX_INT_ENCODED_LEN,
};

/// Encodes `value` as a signed integer and decodes it back, asserting the
/// decoder consumed exactly the bytes the encoder produced.
fn round_trip_int(value: i64) -> Result<i64, FastError> {
    let mut encoder = FastEncoder::new();
    encoder.encode_int(value);
    let bytes = encoder.finish();

    let mut offset = 0;
    let decoded = FastDecoder::decode_int(&bytes, &mut offset)?;
    assert_eq!(
        offset,
        bytes.len(),
        "decode_int must consume the whole encoding of {value}"
    );
    Ok(decoded)
}

/// Encodes `value` as an unsigned integer and decodes it back, asserting
/// the decoder consumed exactly the bytes the encoder produced.
fn round_trip_uint(value: u64) -> Result<u64, FastError> {
    let mut encoder = FastEncoder::new();
    encoder.encode_uint(value);
    let bytes = encoder.finish();

    let mut offset = 0;
    let decoded = FastDecoder::decode_uint(&bytes, &mut offset)?;
    assert_eq!(
        offset,
        bytes.len(),
        "decode_uint must consume the whole encoding of {value}"
    );
    Ok(decoded)
}

#[test]
fn test_decode_uint_single_byte() {
    let data = [0x81]; // 1 with stop bit
    let mut offset = 0;
    assert_eq!(FastDecoder::decode_uint(&data, &mut offset), Ok(1));
    assert_eq!(offset, 1);
}

#[test]
fn test_decode_uint_multi_byte() {
    let data = [0x00, 0x81]; // 1 in two bytes
    let mut offset = 0;
    assert_eq!(FastDecoder::decode_uint(&data, &mut offset), Ok(1));
    assert_eq!(offset, 2);
}

#[test]
fn test_decode_uint_larger() {
    // 942 = 7 * 128 + 46; first byte 7 (0x07), second byte 46 | 0x80 (0xAE)
    let data = [0x07, 0xAE];
    let mut offset = 0;
    assert_eq!(FastDecoder::decode_uint(&data, &mut offset), Ok(942));
}

#[test]
fn test_decode_uint_max_uses_ten_bytes() {
    let data = [0x01, 0x7F, 0x7F, 0x7F, 0x7F, 0x7F, 0x7F, 0x7F, 0x7F, 0xFF];
    let mut offset = 0;
    assert_eq!(FastDecoder::decode_uint(&data, &mut offset), Ok(u64::MAX));
    assert_eq!(offset, MAX_INT_ENCODED_LEN);
}

#[test]
fn test_decode_uint_truncated_is_unexpected_eof() {
    // No stop bit anywhere.
    let data = [0x01, 0x02, 0x03];
    let mut offset = 0;
    assert_eq!(
        FastDecoder::decode_uint(&data, &mut offset),
        Err(FastError::UnexpectedEof)
    );
}

#[test]
fn test_decode_uint_empty_input_is_unexpected_eof() {
    let data: [u8; 0] = [];
    let mut offset = 0;
    assert_eq!(
        FastDecoder::decode_uint(&data, &mut offset),
        Err(FastError::UnexpectedEof)
    );
}

#[test]
fn test_decode_uint_value_above_u64_max_is_integer_overflow() {
    // Ten bytes whose value is 2 * 2^63 — one bit too wide for a u64.
    let data = [0x02, 0x00, 0x00, 0x00, 0x00, 0x00, 0x00, 0x00, 0x00, 0x80];
    let mut offset = 0;
    assert_eq!(
        FastDecoder::decode_uint(&data, &mut offset),
        Err(FastError::IntegerOverflow)
    );
}

#[test]
fn test_decode_uint_over_long_encoding_is_integer_overflow() {
    // Eleven continuation bytes that never accumulate magnitude: only the
    // byte-count ceiling can reject this.
    let mut data = vec![0x00; MAX_INT_ENCODED_LEN + 1];
    data.push(0x80);
    let mut offset = 0;
    assert_eq!(
        FastDecoder::decode_uint(&data, &mut offset),
        Err(FastError::IntegerOverflow)
    );
}

#[test]
fn test_decode_uint_round_trips_boundaries() {
    let mut values: Vec<u64> = vec![0, u64::MAX];
    for shift in 0..64u32 {
        let Some(base) = 1u64.checked_shl(shift) else {
            continue;
        };
        values.push(base);
        if let Some(below) = base.checked_sub(1) {
            values.push(below);
        }
        if let Some(above) = base.checked_add(1) {
            values.push(above);
        }
    }

    for value in values {
        assert_eq!(round_trip_uint(value), Ok(value), "uint round trip {value}");
    }
}

#[test]
fn test_decode_int_positive() {
    let data = [0x81]; // 1
    let mut offset = 0;
    assert_eq!(FastDecoder::decode_int(&data, &mut offset), Ok(1));
}

#[test]
fn test_decode_int_negative() {
    let data = [0xFF]; // -1
    let mut offset = 0;
    assert_eq!(FastDecoder::decode_int(&data, &mut offset), Ok(-1));
}

#[test]
fn test_decode_int_min_and_max_use_ten_bytes() {
    let max = [0x00, 0x7F, 0x7F, 0x7F, 0x7F, 0x7F, 0x7F, 0x7F, 0x7F, 0xFF];
    let mut offset = 0;
    assert_eq!(FastDecoder::decode_int(&max, &mut offset), Ok(i64::MAX));
    assert_eq!(offset, MAX_INT_ENCODED_LEN);

    let min = [0x7F, 0x00, 0x00, 0x00, 0x00, 0x00, 0x00, 0x00, 0x00, 0x80];
    let mut offset = 0;
    assert_eq!(FastDecoder::decode_int(&min, &mut offset), Ok(i64::MIN));
    assert_eq!(offset, MAX_INT_ENCODED_LEN);
}

#[test]
fn test_decode_int_value_below_i64_min_is_integer_overflow() {
    // Ten bytes denoting -(2^69): the sign-extended accumulator overflows.
    let data = [0x40, 0x00, 0x00, 0x00, 0x00, 0x00, 0x00, 0x00, 0x00, 0x80];
    let mut offset = 0;
    assert_eq!(
        FastDecoder::decode_int(&data, &mut offset),
        Err(FastError::IntegerOverflow)
    );
}

#[test]
fn test_decode_int_over_long_negative_run_is_integer_overflow() {
    // Twelve 0x7F bytes then a stop byte: every byte re-encodes -1, so the
    // arithmetic check never fires and only the byte ceiling rejects it.
    let mut data = vec![0x7F; 12];
    data.push(0xFF);
    let mut offset = 0;
    assert_eq!(
        FastDecoder::decode_int(&data, &mut offset),
        Err(FastError::IntegerOverflow)
    );
}

#[test]
fn test_decode_int_truncated_is_unexpected_eof() {
    let data = [0x00, 0x40];
    let mut offset = 0;
    assert_eq!(
        FastDecoder::decode_int(&data, &mut offset),
        Err(FastError::UnexpectedEof)
    );
}

#[test]
fn test_decode_int_empty_input_is_unexpected_eof() {
    let data: [u8; 0] = [];
    let mut offset = 0;
    assert_eq!(
        FastDecoder::decode_int(&data, &mut offset),
        Err(FastError::UnexpectedEof)
    );
}

#[test]
fn test_encode_int_round_trips_every_seven_bit_boundary() {
    let mut values: Vec<i64> = vec![0, i64::MIN, i64::MAX];

    for shift in 0..63u32 {
        let Some(base) = 1i64.checked_shl(shift) else {
            continue;
        };
        for candidate in [base.checked_sub(1), Some(base), base.checked_add(1)] {
            let Some(value) = candidate else {
                continue;
            };
            values.push(value);
            if let Some(negated) = value.checked_neg() {
                values.push(negated);
            }
        }
    }

    for value in values {
        assert_eq!(round_trip_int(value), Ok(value), "int round trip {value}");
    }
}

#[test]
fn test_encode_int_boundaries_are_byte_exact() {
    let cases: [(i64, &[u8]); 13] = [
        (0, &[0x80]),
        (1, &[0x81]),
        (63, &[0xBF]),
        (64, &[0x00, 0xC0]),
        (127, &[0x00, 0xFF]),
        (128, &[0x01, 0x80]),
        (8191, &[0x3F, 0xFF]),
        (8192, &[0x00, 0x40, 0x80]),
        (-1, &[0xFF]),
        (-64, &[0xC0]),
        (-65, &[0x7F, 0xBF]),
        (-128, &[0x7F, 0x80]),
        (-8192, &[0x40, 0x80]),
    ];

    for (value, expected) in cases {
        let mut encoder = FastEncoder::new();
        encoder.encode_int(value);
        assert_eq!(encoder.finish(), expected, "minimal encoding of {value}");
    }
}

#[test]
fn test_decode_nullable_uint_round_trips_through_the_encoder() {
    // The bias lives in one place, so encoder and decoder cannot disagree
    // about it.
    for value in [
        None,
        Some(0),
        Some(1),
        Some(127),
        Some(128),
        Some(u64::MAX - 1),
        // u64::MAX biases to 2^64, decoded through u128: the domain covers
        // the full unsigned range.
        Some(u64::MAX),
    ] {
        let mut encoder = FastEncoder::new();
        assert!(encoder.encode_nullable_uint(value).is_ok());
        let buffer = encoder.finish();
        let mut offset = 0;
        assert_eq!(
            FastDecoder::decode_nullable_uint(&buffer, &mut offset),
            Ok(value),
            "round trip failed for {value:?}"
        );
        assert_eq!(offset, buffer.len(), "the whole value must be consumed");
    }
}

#[test]
fn test_decode_nullable_uint_lone_stop_byte_is_null() {
    let mut offset = 0;
    assert_eq!(
        FastDecoder::decode_nullable_uint(&[0x80], &mut offset),
        Ok(None)
    );
}

#[test]
fn test_decode_nullable_uint_over_long_encoding_is_bounded_overflow() {
    // The full u64 range decodes, so the remaining hostile case is an
    // encoding longer than MAX_INT_ENCODED_LEN bytes. A ten-byte run with
    // no stop bit exhausts the ceiling on the next read: a bounded
    // IntegerOverflow, never an unbounded loop or a panic.
    let hostile = [0x00u8; MAX_INT_ENCODED_LEN];
    let mut offset = 0;
    assert_eq!(
        FastDecoder::decode_nullable_uint(&hostile, &mut offset),
        Err(FastError::IntegerOverflow)
    );
}

#[test]
fn test_decode_nullable_uint_boundary_from_external_fixtures() {
    // Hand-built stop-bit fixtures, independent of the encoder, that pin the
    // u128 narrowing branch directly: a properly stopped biased value that
    // does fit u64 after debiasing, and the first one that does not.
    //
    // Biased 2^64 (10 stop-bit bytes, MSB first, stop bit on the last):
    // decodes to 2^64, debiases to u64::MAX. This is the accepted boundary.
    let biased_two_pow_64 = [0x02, 0x00, 0x00, 0x00, 0x00, 0x00, 0x00, 0x00, 0x00, 0x80];
    let mut offset = 0;
    assert_eq!(
        FastDecoder::decode_nullable_uint(&biased_two_pow_64, &mut offset),
        Ok(Some(u64::MAX))
    );
    assert_eq!(offset, biased_two_pow_64.len());

    // Biased 2^64 + 1: a valid, fully-stopped ten-byte encoding whose
    // debiased value is 2^64, one past u64::MAX. This exercises the
    // `u64::try_from` narrowing failure, not the byte-count ceiling.
    let biased_two_pow_64_plus_one =
        [0x02, 0x00, 0x00, 0x00, 0x00, 0x00, 0x00, 0x00, 0x00, 0x81];
    let mut offset = 0;
    assert_eq!(
        FastDecoder::decode_nullable_uint(&biased_two_pow_64_plus_one, &mut offset),
        Err(FastError::IntegerOverflow)
    );
}

#[test]
fn test_decode_ascii() {
    let data = [b'H', b'i', b'!' | 0x80]; // "Hi!"
    let mut offset = 0;
    assert_eq!(
        FastDecoder::decode_ascii(&data, &mut offset),
        Ok("Hi!".to_string())
    );
    assert_eq!(offset, 3);
}

#[test]
fn test_decode_ascii_lone_stop_byte_is_the_empty_string() {
    let data = [0x80];
    let mut offset = 0;
    assert_eq!(
        FastDecoder::decode_ascii(&data, &mut offset),
        Ok(String::new())
    );
    assert_eq!(offset, 1);
}

#[test]
fn test_decode_ascii_zero_stop_is_the_nul_string() {
    let data = [0x00, 0x80];
    let mut offset = 0;
    assert_eq!(
        FastDecoder::decode_ascii(&data, &mut offset),
        Ok("\0".to_string())
    );
    assert_eq!(offset, 2);
}

#[test]
fn test_decode_ascii_over_long_leading_zero_is_invalid_string() {
    // 0x00 followed by anything other than the stop byte is over-long.
    let data = [0x00, 0x00, 0x80];
    let mut offset = 0;
    assert_eq!(
        FastDecoder::decode_ascii(&data, &mut offset),
        Err(FastError::InvalidString)
    );

    let data = [0x00, b'a' | 0x80];
    let mut offset = 0;
    assert_eq!(
        FastDecoder::decode_ascii(&data, &mut offset),
        Err(FastError::InvalidString)
    );
}

#[test]
fn test_decode_ascii_truncated_leading_zero_is_unexpected_eof() {
    let data = [0x00];
    let mut offset = 0;
    assert_eq!(
        FastDecoder::decode_ascii(&data, &mut offset),
        Err(FastError::UnexpectedEof)
    );
}

#[test]
fn test_decode_ascii_without_stop_bit_is_unexpected_eof() {
    let data = *b"Hi";
    let mut offset = 0;
    assert_eq!(
        FastDecoder::decode_ascii(&data, &mut offset),
        Err(FastError::UnexpectedEof)
    );
}

#[test]
fn test_decode_ascii_round_trips_through_the_encoder() {
    for value in ["", "\0", "A", "Hi!", "EURUSD", "a\0b", "\x7f"] {
        let mut encoder = FastEncoder::new();
        assert_eq!(encoder.encode_ascii(value), Ok(()));
        let bytes = encoder.finish();

        let mut offset = 0;
        assert_eq!(
            FastDecoder::decode_ascii(&bytes, &mut offset),
            Ok(value.to_string()),
            "ascii round trip {value:?}"
        );
        assert_eq!(offset, bytes.len());
    }
}

#[test]
fn test_decode_bytes_round_trip() {
    let mut encoder = FastEncoder::new();
    encoder.encode_bytes(&[1, 2, 3]);
    let bytes = encoder.finish();

    let mut offset = 0;
    assert_eq!(
        FastDecoder::decode_bytes(&bytes, &mut offset),
        Ok(&[1, 2, 3][..])
    );
    assert_eq!(offset, bytes.len());
}

#[test]
fn test_decode_bytes_borrows_from_the_input() {
    // The decoded field must point into the caller's buffer, not a copy of
    // it: that is what makes decoding a byte field allocation-free.
    let data = [0x83, 1, 2, 3];
    let mut offset = 0;
    let decoded = FastDecoder::decode_bytes(&data, &mut offset);
    let payload = data.get(1..4);

    assert!(decoded.is_ok());
    assert!(payload.is_some());

    if let (Ok(decoded), Some(payload)) = (decoded, payload) {
        assert!(
            std::ptr::eq(decoded.as_ptr(), payload.as_ptr()),
            "the decoded slice must borrow the input buffer, not copy it"
        );
    }
}

#[test]
fn test_decode_bytes_empty_payload() {
    let data = [0x80];
    let mut offset = 0;
    assert_eq!(
        FastDecoder::decode_bytes(&data, &mut offset),
        Ok(&[][..] as &[u8])
    );
    assert_eq!(offset, 1);
}

#[test]
fn test_decode_nullable_bytes_round_trips_through_the_encoder() {
    for value in [None, Some(&[][..]), Some(&[1, 2, 3][..]), Some(&[0xFF][..])] {
        let mut encoder = FastEncoder::new();
        assert_eq!(encoder.encode_nullable_bytes(value), Ok(()));
        let buffer = encoder.finish();

        let mut offset = 0;
        assert_eq!(
            FastDecoder::decode_nullable_bytes(&buffer, &mut offset),
            Ok(value),
            "nullable bytes round trip {value:?}"
        );
        assert_eq!(offset, buffer.len(), "the whole value must be consumed");
    }
}

#[test]
fn test_decode_nullable_bytes_lone_stop_byte_is_null() {
    let mut offset = 0;
    assert_eq!(
        FastDecoder::decode_nullable_bytes(&[0x80], &mut offset),
        Ok(None)
    );
    assert_eq!(offset, 1);
}

#[test]
fn test_decode_nullable_bytes_huge_declared_length_is_unexpected_eof() {
    // A biased length of u64::MAX with a three-byte body.
    let mut data = vec![0x01, 0x7F, 0x7F, 0x7F, 0x7F, 0x7F, 0x7F, 0x7F, 0x7F, 0xFF];
    data.extend_from_slice(&[1, 2, 3]);

    let mut offset = 0;
    assert_eq!(
        FastDecoder::decode_nullable_bytes(&data, &mut offset),
        Err(FastError::UnexpectedEof)
    );
}

#[test]
fn test_decode_nullable_int_round_trips_through_the_encoder() {
    for value in [
        None,
        Some(0),
        Some(1),
        Some(-1),
        Some(63),
        Some(64),
        Some(-64),
        Some(-65),
        Some(i64::MIN),
        Some(i64::MAX - 1),
    ] {
        let mut encoder = FastEncoder::new();
        assert_eq!(encoder.encode_nullable_int(value), Ok(()));
        let buffer = encoder.finish();

        let mut offset = 0;
        assert_eq!(
            FastDecoder::decode_nullable_int(&buffer, &mut offset),
            Ok(value),
            "nullable int round trip {value:?}"
        );
        assert_eq!(offset, buffer.len(), "the whole value must be consumed");
    }
}

#[test]
fn test_decode_nullable_int_biases_only_the_non_negative_half() {
    // Zero is NULL, positive values carry the bias, negative ones do not.
    let cases: [(&[u8], Option<i64>); 4] = [
        (&[0x80], None),
        (&[0x81], Some(0)),
        (&[0x82], Some(1)),
        (&[0xFF], Some(-1)),
    ];

    for (encoded, expected) in cases {
        let mut offset = 0;
        assert_eq!(
            FastDecoder::decode_nullable_int(encoded, &mut offset),
            Ok(expected),
            "{encoded:?}"
        );
    }
}

#[test]
fn test_encode_nullable_int_rejects_the_value_outside_its_domain() {
    let mut encoder = FastEncoder::new();
    assert_eq!(
        encoder.encode_nullable_int(Some(i64::MAX)),
        Err(FastError::IntegerOverflow)
    );
    assert!(
        encoder.is_empty(),
        "an overflowing value must not be biased into the NULL representation"
    );
}

#[test]
fn test_decode_nullable_ascii_round_trips_through_the_encoder() {
    for value in [None, Some(""), Some("\0"), Some("A"), Some("EURUSD")] {
        let mut encoder = FastEncoder::new();
        assert_eq!(encoder.encode_nullable_ascii(value), Ok(()));
        let buffer = encoder.finish();

        let mut offset = 0;
        assert_eq!(
            FastDecoder::decode_nullable_ascii(&buffer, &mut offset),
            Ok(value.map(str::to_string)),
            "nullable ascii round trip {value:?}"
        );
        assert_eq!(offset, buffer.len(), "the whole value must be consumed");
    }
}

#[test]
fn test_decode_nullable_ascii_special_forms_are_shifted_by_one_zero_byte() {
    // Each nullable form is its non-nullable counterpart with one more
    // leading 0x00; confusing the two shifts every value in the message.
    let cases: [(&[u8], Option<&str>); 3] = [
        (&[0x80], None),
        (&[0x00, 0x80], Some("")),
        (&[0x00, 0x00, 0x80], Some("\0")),
    ];

    for (encoded, expected) in cases {
        let mut offset = 0;
        assert_eq!(
            FastDecoder::decode_nullable_ascii(encoded, &mut offset),
            Ok(expected.map(str::to_string)),
            "{encoded:?}"
        );
        assert_eq!(offset, encoded.len());
    }
}

#[test]
fn test_decode_nullable_ascii_over_long_leading_zero_is_invalid_string() {
    for data in [
        &[0x00, b'a' | 0x80][..],
        &[0x00, 0x00, b'a' | 0x80][..],
        &[0x00, 0x00, 0x00, 0x80][..],
    ] {
        let mut offset = 0;
        assert_eq!(
            FastDecoder::decode_nullable_ascii(data, &mut offset),
            Err(FastError::InvalidString),
            "{data:?}"
        );
    }
}

#[test]
fn test_decode_nullable_ascii_truncated_leading_zeros_is_unexpected_eof() {
    for data in [&[0x00][..], &[0x00, 0x00][..]] {
        let mut offset = 0;
        assert_eq!(
            FastDecoder::decode_nullable_ascii(data, &mut offset),
            Err(FastError::UnexpectedEof),
            "{data:?}"
        );
    }
}

#[test]
fn test_encode_nullable_ascii_leading_nul_string_is_invalid_string() {
    let mut encoder = FastEncoder::new();
    assert_eq!(
        encoder.encode_nullable_ascii(Some("\0a")),
        Err(FastError::InvalidString)
    );
    assert!(encoder.is_empty(), "nothing may reach the wire on error");
}

#[test]
fn test_decode_bytes_huge_declared_length_is_unexpected_eof() {
    // Stop-bit encoding of u64::MAX as the length prefix, then a short body.
    let mut data = vec![0x01, 0x7F, 0x7F, 0x7F, 0x7F, 0x7F, 0x7F, 0x7F, 0x7F, 0xFF];
    data.extend_from_slice(&[1, 2, 3]);

    let mut offset = 0;
    assert_eq!(
        FastDecoder::decode_bytes(&data, &mut offset),
        Err(FastError::UnexpectedEof)
    );
}

#[test]
fn test_decode_bytes_length_one_past_the_end_is_unexpected_eof() {
    // Declares four bytes but only three follow.
    let data = [0x84, 1, 2, 3];
    let mut offset = 0;
    assert_eq!(
        FastDecoder::decode_bytes(&data, &mut offset),
        Err(FastError::UnexpectedEof)
    );
}

#[test]
fn test_decode_bytes_truncated_length_prefix_is_unexpected_eof() {
    let data = [0x01];
    let mut offset = 0;
    assert_eq!(
        FastDecoder::decode_bytes(&data, &mut offset),
        Err(FastError::UnexpectedEof)
    );
}

#[test]
fn test_decode_pmap_delegates_to_presence_map() {
    let data = [0b1100_0000];
    let mut offset = 0;
    let decoded = FastDecoder::decode_pmap(&data, &mut offset);
    assert!(decoded.is_ok());
    if let Ok(pmap) = decoded {
        assert_eq!(pmap.len(), PAYLOAD_BITS);
        assert_eq!(pmap.bit(0), Some(true));
    }
    assert_eq!(offset, 1);
}

#[test]
fn test_decoder_dictionary() {
    let mut decoder = FastDecoder::new();

    decoder.set_global("test", DictionaryValue::Int(42));
    assert_eq!(
        decoder.get_global("test").and_then(DictionaryValue::as_i64),
        Some(42)
    );

    decoder.set_template(1, "field", DictionaryValue::UInt(100));
    assert_eq!(
        decoder
            .get_template(1, "field")
            .and_then(DictionaryValue::as_u64),
        Some(100)
    );
}

#[test]
fn test_decoder_reset_clears_state() {
    let mut decoder = FastDecoder::new();
    decoder.set_global("test", DictionaryValue::Int(1));
    decoder.set_last_template_id(7);
    assert_eq!(decoder.last_template_id(), Some(7));

    decoder.reset();
    assert!(decoder.get_global("test").is_none());
    assert_eq!(decoder.last_template_id(), None);
}
