//! Encoding tag=value messages.

use bytes::BytesMut;
use ironfix::tagvalue::frame::BEGIN_STRING_MAX_LEN;
use ironfix::tagvalue::wire::SOH;
use ironfix::tagvalue::{Decoder, Encoder};
use ironfix::types::{DecodeError, EncodeError, MsgType};
use memchr::memchr;

/// Returns the finished frame, failing the test with the rejection.
fn frame_of(encoder: &mut Encoder) -> Vec<u8> {
    match encoder.finish() {
        Ok(frame) => frame.to_vec(),
        Err(err) => panic!("frame must encode: {err:?}"),
    }
}

/// Builds a minimal valid frame carrying the extra fields in `fields`.
fn encode(fields: &[(u32, &[u8])]) -> Vec<u8> {
    let mut encoder = Encoder::new("FIX.4.4");
    encoder.put_str(35, "0");
    for (tag, value) in fields {
        encoder.put_raw(*tag, value);
    }
    frame_of(&mut encoder)
}

/// Asserts that `encoder` refuses to produce a frame, with
/// `InvalidFieldValue` for `tag`.
fn assert_rejected(encoder: &mut Encoder, tag: u32) {
    match encoder.finish() {
        Err(EncodeError::InvalidFieldValue { tag: actual, .. }) => assert_eq!(actual, tag),
        Ok(frame) => panic!(
            "the frame must be refused, got {:?}",
            String::from_utf8_lossy(frame)
        ),
        Err(other) => panic!("expected InvalidFieldValue for tag {tag}, got {other:?}"),
    }
}

/// Reads the value of `tag` out of a finished frame.
fn field_of(frame: &[u8], tag: u32) -> Option<String> {
    match Decoder::new(frame).decode() {
        Ok(decoded) => decoded
            .get_field(tag)
            .map(|field| String::from_utf8_lossy(field.value).into_owned()),
        Err(err) => panic!("frame must decode: {err:?}"),
    }
}

#[test]
fn test_encoder_basic_frame_is_well_formed() {
    let frame = encode(&[]);
    let text = String::from_utf8_lossy(&frame).into_owned();

    assert!(text.starts_with("8=FIX.4.4\x019="));
    assert!(text.contains("35=0\x01"));
    assert!(text.ends_with('\x01'));
    assert_eq!(field_of(&frame, 35).as_deref(), Some("0"));
}

#[test]
fn test_encoder_multiple_fields_round_trip() {
    let mut encoder = Encoder::new("FIX.4.4");
    encoder.put_str(35, "D");
    encoder.put_str(49, "SENDER");
    encoder.put_str(56, "TARGET");
    encoder.put_uint(34, 1);
    encoder.put_int(44, -7);
    encoder.put_bool(43, true);
    encoder.put_char(54, '1');
    let frame = frame_of(&mut encoder);

    let Ok(decoded) = Decoder::new(&frame).decode() else {
        panic!("frame must decode");
    };
    assert_eq!(*decoded.msg_type(), MsgType::NewOrderSingle);
    assert_eq!(decoded.get_field_str(49), Some("SENDER"));
    assert_eq!(decoded.get_field_str(56), Some("TARGET"));
    assert_eq!(decoded.get_field_str(34), Some("1"));
    assert_eq!(decoded.get_field_str(44), Some("-7"));
    assert_eq!(decoded.get_field_str(43), Some("Y"));
    assert_eq!(decoded.get_field_str(54), Some("1"));
    // 8, 9, 35, 49, 56, 34, 44, 43, 54, 10 — the CheckSum field is not
    // collected into the field list.
    assert_eq!(decoded.field_count(), 9);
}

#[test]
fn test_encoder_stamps_the_exact_body_length_and_checksum() {
    let mut encoder = Encoder::new("FIX.4.4");
    encoder.put_str(35, "D");
    encoder.put_str(49, "SENDER");
    encoder.put_uint(34, 42);
    let body_len = encoder.body_len();
    let frame = frame_of(&mut encoder);

    // The body is exactly what the encoder counted.
    let body = b"35=D\x0149=SENDER\x0134=42\x01";
    assert_eq!(body_len, body.len());

    let expected_header = format!("8=FIX.4.4\x019={}\x01", body.len());
    let mut expected = expected_header.into_bytes();
    expected.extend_from_slice(body);
    let checksum: u64 = expected.iter().map(|&b| u64::from(b)).sum();
    let expected_checksum = (checksum % 256) as u8;
    expected.extend_from_slice(format!("10={expected_checksum:03}\x01").as_bytes());

    assert_eq!(frame, expected);

    // And the stamped values are what the decoder recomputes.
    let Ok(decoded) = Decoder::new(&frame).decode() else {
        panic!("frame must decode with checksum validation on");
    };
    assert_eq!(decoded.body(), Ok(&body[..]));
    assert_eq!(
        decoded.get_field_str(9),
        Some(body.len().to_string().as_str())
    );
}

#[test]
fn test_encoder_body_length_digit_growth_keeps_the_frame_contiguous() {
    // The header is right-aligned in the reserved prefix, so its length
    // changes with the digit count of BodyLength. Each of these must still
    // decode with the checksum computed over the frame actually emitted.
    for filler in [1usize, 8, 97, 1000] {
        let payload = vec![b'x'; filler];
        let mut encoder = Encoder::new("FIX.4.4");
        encoder.put_str(35, "D");
        encoder.put_raw(58, &payload);
        let frame = frame_of(&mut encoder);

        assert!(frame.starts_with(b"8=FIX.4.4\x019="));
        let Ok(decoded) = Decoder::new(&frame).decode() else {
            panic!("frame with a {filler}-byte value must decode");
        };
        assert_eq!(decoded.get_field(58).map(|f| f.value.len()), Some(filler));
    }
}

#[test]
fn test_encoder_reuse_after_clear_produces_an_independent_frame() {
    let mut encoder = Encoder::new("FIX.4.4");
    encoder.put_str(35, "A");
    encoder.put_str(49, "FIRST");
    let first = frame_of(&mut encoder);

    encoder.clear();
    assert_eq!(encoder.body_len(), 0);
    encoder.put_str(35, "0");
    encoder.put_str(49, "SECOND");
    let second = frame_of(&mut encoder);

    assert_eq!(field_of(&first, 49).as_deref(), Some("FIRST"));
    assert_eq!(field_of(&second, 49).as_deref(), Some("SECOND"));
    // No residue of the first message, in particular no second trailer.
    assert_eq!(second.iter().filter(|&&b| b == SOH).count(), 5);
}

#[test]
fn test_encoder_finish_is_idempotent() {
    let mut encoder = Encoder::new("FIX.4.4");
    encoder.put_str(35, "0");
    let first = frame_of(&mut encoder);
    let second = frame_of(&mut encoder);
    assert_eq!(first, second);
}

#[test]
fn test_encoder_finish_into_appends_the_same_frame() {
    let mut encoder = Encoder::new("FIX.4.4");
    encoder.put_str(35, "0");
    encoder.put_str(49, "SENDER");

    let mut dst = BytesMut::from(&b"PRE"[..]);
    match encoder.finish_into(&mut dst) {
        Ok(()) => {}
        Err(err) => panic!("frame must encode: {err:?}"),
    }
    let frame = frame_of(&mut encoder);

    assert_eq!(dst.len(), 3 + frame.len());
    assert_eq!(dst.get(3..), Some(&frame[..]));
}

#[test]
fn test_encoder_value_with_embedded_soh_is_rejected() {
    let mut encoder = Encoder::new("FIX.4.4");
    encoder.put_str(35, "D");
    // The injection this rejection exists for: without it the frame carries
    // a phantom 49=EVIL with a BodyLength and CheckSum correct for it.
    encoder.put_str(58, "text\x0149=EVIL");
    assert_rejected(&mut encoder, 58);
}

#[test]
fn test_encoder_try_put_raw_reports_soh_immediately_and_writes_nothing() {
    let mut encoder = Encoder::new("FIX.4.4");
    encoder.put_str(35, "D");
    let before = encoder.body_len();

    let result = encoder.try_put_raw(58, b"a\x01b");
    assert!(matches!(
        result,
        Err(EncodeError::InvalidFieldValue { tag: 58, .. })
    ));
    assert_eq!(encoder.body_len(), before);
    // A rejection the caller took delivery of is not also recorded.
    assert!(encoder.error().is_none());
    assert!(encoder.finish().is_ok());
}

#[test]
fn test_encoder_value_with_equals_is_accepted_and_round_trips() {
    // '=' inside a value is legal FIX: a decoder splits at the first '='.
    let frame = encode(&[(58, b"key=value")]);
    assert_eq!(field_of(&frame, 58).as_deref(), Some("key=value"));
}

#[test]
fn test_encoder_empty_value_is_rejected() {
    let mut encoder = Encoder::new("FIX.4.4");
    encoder.put_str(35, "D");
    encoder.put_str(58, "");
    assert_rejected(&mut encoder, 58);
}

#[test]
fn test_encoder_zero_tag_is_rejected() {
    let mut encoder = Encoder::new("FIX.4.4");
    encoder.put_str(35, "D");
    encoder.put_str(0, "x");
    assert_rejected(&mut encoder, 0);
}

#[test]
fn test_encoder_framing_tags_are_rejected() {
    // Writing 8, 9 or 10 into the body gives the frame two of them; a
    // mid-body 10= in particular is read as the trailer by the decoder.
    for tag in [8u32, 9, 10] {
        let mut encoder = Encoder::new("FIX.4.4");
        encoder.put_str(35, "D");
        encoder.put_str(tag, "1");
        assert_rejected(&mut encoder, tag);
    }
}

#[test]
fn test_encoder_length_or_data_tag_written_alone_is_rejected() {
    // The frame this prevents: `95=3<SOH>96=abcdefg<SOH>` declares a count
    // that disagrees with the payload, which the decoder rejects.
    for tag in [95u32, 96, 93, 89, 354, 355] {
        let mut encoder = Encoder::new("FIX.4.4");
        encoder.put_str(35, "D");
        encoder.put_str(tag, "3");
        assert_rejected(&mut encoder, tag);
    }
}

#[test]
fn test_encoder_missing_msg_type_is_rejected() {
    let mut encoder = Encoder::new("FIX.4.4");
    assert_eq!(
        encoder.finish().err(),
        Some(EncodeError::MissingRequiredField { tag: 35 })
    );

    // Present but not first: the decoder reads the third field of the frame
    // as MsgType, so this would frame 49 as the message type.
    let mut encoder = Encoder::new("FIX.4.4");
    encoder.put_str(49, "SENDER");
    encoder.put_str(35, "D");
    assert_eq!(
        encoder.finish().err(),
        Some(EncodeError::MissingRequiredField { tag: 35 })
    );
}

#[test]
fn test_encoder_unrepresentable_msg_type_is_rejected() {
    // Each of these frames decodes as far as tag 35 and is then refused by
    // the decoder, so the encoder must not produce it in the first place.
    for code in ["A B", "A=B", "\u{7f}"] {
        let mut encoder = Encoder::new("FIX.4.4");
        encoder.put_str(35, code);
        assert_rejected(&mut encoder, 35);
    }

    let mut encoder = Encoder::new("FIX.4.4");
    encoder.put_str(35, "U99999999");
    assert_eq!(
        encoder.finish().err(),
        Some(EncodeError::FieldTooLong {
            tag: 35,
            length: 9,
            max_length: 8,
        })
    );
}

#[test]
fn test_encoder_representable_custom_msg_type_is_accepted() {
    let mut encoder = Encoder::new("FIX.4.4");
    encoder.put_str(35, "U9999999");
    let frame = frame_of(&mut encoder);
    let Ok(decoded) = Decoder::new(&frame).decode() else {
        panic!("a representable custom MsgType must decode");
    };
    assert_eq!(decoded.msg_type().as_str(), "U9999999");
}

#[test]
fn test_encoder_write_after_finish_is_rejected() {
    let mut encoder = Encoder::new("FIX.4.4");
    encoder.put_str(35, "0");
    let frame = frame_of(&mut encoder);

    assert!(matches!(
        encoder.try_put_raw(58, b"late"),
        Err(EncodeError::InvalidFieldValue { tag: 58, .. })
    ));
    // The stamped frame is unchanged.
    assert_eq!(frame_of(&mut encoder), frame);
}

#[test]
fn test_encoder_illegal_begin_string_is_rejected() {
    for begin_string in ["", "FIX\x014.4", "FIX=4.4", "FIX 4.4"] {
        let mut encoder = Encoder::new(begin_string);
        encoder.put_str(35, "0");
        match encoder.finish() {
            Err(EncodeError::InvalidFieldValue { tag: 8, .. }) => {}
            other => panic!("{begin_string:?} must be refused, got {other:?}"),
        }
    }
}

#[test]
fn test_encoder_over_long_begin_string_is_rejected() {
    let begin_string = "F".repeat(BEGIN_STRING_MAX_LEN + 1);
    let mut encoder = Encoder::new(&begin_string);
    encoder.put_str(35, "0");
    assert_eq!(
        encoder.finish().err(),
        Some(EncodeError::FieldTooLong {
            tag: 8,
            length: BEGIN_STRING_MAX_LEN + 1,
            max_length: BEGIN_STRING_MAX_LEN,
        })
    );
}

#[test]
fn test_encoder_begin_string_rejection_survives_clear() {
    let mut encoder = Encoder::new("FIX\x014.4");
    encoder.put_str(35, "0");
    assert!(encoder.finish().is_err());
    encoder.clear();
    encoder.put_str(35, "0");
    assert!(
        encoder.finish().is_err(),
        "an unusable BeginString makes every message unframeable"
    );
}

#[test]
fn test_encoder_begin_string_at_the_bound_is_accepted() {
    let begin_string = "F".repeat(BEGIN_STRING_MAX_LEN);
    let mut encoder = Encoder::new(&begin_string);
    encoder.put_str(35, "0");
    let frame = frame_of(&mut encoder);
    let Ok(decoded) = Decoder::new(&frame).decode() else {
        panic!("frame must decode");
    };
    assert_eq!(decoded.begin_string(), Ok(begin_string.as_str()));
}

#[test]
fn test_encoder_first_rejection_is_the_one_reported() {
    let mut encoder = Encoder::new("FIX.4.4");
    encoder.put_str(35, "D");
    encoder.put_str(58, "a\x01b");
    encoder.put_str(11, "");
    assert_rejected(&mut encoder, 58);
}

#[test]
fn test_encoder_put_data_round_trips_a_payload_carrying_soh_and_equals() {
    let payload: &[u8] = b"a\x01b=c\x01d";
    let mut encoder = Encoder::new("FIX.4.4");
    encoder.put_str(35, "A");
    encoder.put_data(95, 96, payload);
    encoder.put_str(58, "after");
    let frame = frame_of(&mut encoder);

    let Ok(decoded) = Decoder::new(&frame).decode() else {
        panic!("frame with RawData must decode");
    };
    assert_eq!(decoded.get_field(95).map(|f| f.value), Some(&b"7"[..]));
    assert_eq!(decoded.get_field(96).map(|f| f.value), Some(payload));
    assert_eq!(decoded.get_field_str(58), Some("after"));
    // 8, 9, 35, 95, 96, 58 — no phantom field from inside the payload.
    assert_eq!(decoded.field_count(), 6);
}

#[test]
fn test_encoder_put_data_empty_payload_is_rejected() {
    // `96=<SOH>` (empty-valued DATA) is malformed FIX and inconsistent with
    // the encoder rejecting an empty ordinary value; the rejection names the
    // DATA tag, as an empty ordinary value names its own tag.
    let mut encoder = Encoder::new("FIX.4.4");
    encoder.put_str(35, "A");
    encoder.put_data(95, 96, b"");
    assert_rejected(&mut encoder, 96);
}

#[test]
fn test_encoder_try_put_data_empty_payload_reports_immediately() {
    let mut encoder = Encoder::new("FIX.4.4");
    encoder.put_str(35, "A");
    let before = encoder.body_len();

    let result = encoder.try_put_data(95, 96, b"");
    assert!(matches!(
        result,
        Err(EncodeError::InvalidFieldValue { tag: 96, .. })
    ));
    // Nothing written, and the caller took delivery of the rejection.
    assert_eq!(encoder.body_len(), before);
    assert!(encoder.error().is_none());
}

#[test]
fn test_encoder_put_data_round_trips_every_spec_pair() {
    // Each pair the decoder frames by count must also be emittable.
    let pairs = [
        (90u32, 91u32),
        (93, 89),
        (95, 96),
        (212, 213),
        (348, 349),
        (350, 351),
        (352, 353),
        (354, 355),
        (356, 357),
        (358, 359),
        (360, 361),
        (362, 363),
        (364, 365),
        (445, 446),
        (618, 619),
        (621, 622),
    ];
    let payload: &[u8] = b"\x01=\x01";
    for (length_tag, data_tag) in pairs {
        let mut encoder = Encoder::new("FIX.4.4");
        encoder.put_str(35, "A");
        encoder.put_data(length_tag, data_tag, payload);
        let frame = frame_of(&mut encoder);

        let Ok(decoded) = Decoder::new(&frame).decode() else {
            panic!("frame carrying {length_tag}/{data_tag} must decode");
        };
        assert_eq!(decoded.get_field(data_tag).map(|f| f.value), Some(payload));
    }
}

#[test]
fn test_encoder_put_data_unpaired_tags_are_rejected() {
    // 96 is paired with 95, not with 93: emitting it under 93 would leave
    // the payload's SOH bytes to be read as field terminators.
    let mut encoder = Encoder::new("FIX.4.4");
    encoder.put_str(35, "A");
    encoder.put_data(93, 96, b"x\x01y");
    assert_rejected(&mut encoder, 96);

    let mut encoder = Encoder::new("FIX.4.4");
    encoder.put_str(35, "A");
    encoder.put_data(58, 59, b"x");
    assert_rejected(&mut encoder, 59);
}

#[test]
fn test_encoder_put_data_zero_tag_is_rejected() {
    let mut encoder = Encoder::new("FIX.4.4");
    encoder.put_str(35, "A");
    encoder.put_data(0, 96, b"x");
    assert_rejected(&mut encoder, 0);
}

#[test]
fn test_encoder_output_always_decodes_under_checksum_validation() {
    // The property the whole module exists to hold: anything `finish`
    // yields is a frame this crate's decoder accepts.
    let mut encoder = Encoder::new("FIXT.1.1");
    encoder.put_str(35, "A");
    encoder.put_str(49, "CLIENT");
    encoder.put_str(56, "VENUE");
    encoder.put_uint(34, 1);
    encoder.put_str(52, "20260721-12:00:00.000");
    encoder.put_data(95, 96, b"\x01\x01\x01");
    encoder.put_str(1137, "9");
    let frame = frame_of(&mut encoder);

    let Ok(decoded) = Decoder::new(&frame).decode() else {
        panic!("frame must decode");
    };
    assert_eq!(decoded.begin_string(), Ok("FIXT.1.1"));
    assert_eq!(*decoded.msg_type(), MsgType::Logon);
    assert_eq!(decoded.len(), frame.len());
}

#[test]
fn test_encoder_frame_is_rejected_when_a_byte_is_flipped() {
    // Guards the assertion above against being vacuous: the decoder really
    // is checking the checksum the encoder stamped.
    let mut encoder = Encoder::new("FIX.4.4");
    encoder.put_str(35, "0");
    encoder.put_str(49, "SENDER");
    let mut frame = frame_of(&mut encoder);
    let Some(position) = memchr(b'S', &frame) else {
        panic!("the frame carries the SENDER value");
    };
    let Some(byte) = frame.get_mut(position) else {
        panic!("the position came from the frame itself");
    };
    // Case flip: same length, so only the checksum can catch it.
    *byte ^= 0x20;

    assert!(matches!(
        Decoder::new(&frame).decode(),
        Err(DecodeError::ChecksumMismatch { .. })
    ));
}

#[test]
fn test_encoder_never_emits_a_frame_its_own_decoder_rejects() {
    // The invariant, stated as a property over hostile inputs: for every
    // tag and value, `finish` either refuses or yields a frame `decode`
    // accepts with checksum validation on. There is no third outcome.
    let tags: [u32; 12] = [0, 1, 8, 9, 10, 35, 49, 58, 93, 95, 96, u32::MAX];
    let values: [&[u8]; 12] = [
        b"",
        b"x",
        b"a\x01b",
        b"\x01",
        b"=",
        b"a=b",
        b"10=999",
        b"\x0110=000\x01",
        b"\xff\xfe",
        b"\x00",
        b" ",
        b"U99999999",
    ];

    for tag in tags {
        for value in values {
            // As a trailing field of an otherwise valid message...
            let mut encoder = Encoder::new("FIX.4.4");
            encoder.put_str(35, "D");
            encoder.put_raw(tag, value);
            assert_frame_or_rejection(&mut encoder, tag, value);

            // ...and as the message's very first field.
            let mut encoder = Encoder::new("FIX.4.4");
            encoder.put_raw(tag, value);
            assert_frame_or_rejection(&mut encoder, tag, value);

            // The Length/Data path takes the same payloads.
            let mut encoder = Encoder::new("FIX.4.4");
            encoder.put_str(35, "D");
            encoder.put_data(95, tag, value);
            assert_frame_or_rejection(&mut encoder, tag, value);
        }
    }
}

/// Asserts that `encoder` either refuses, or yields a frame the decoder
/// accepts. Used by the property test above.
fn assert_frame_or_rejection(encoder: &mut Encoder, tag: u32, value: &[u8]) {
    let Ok(frame) = encoder.finish() else {
        return;
    };
    let frame = frame.to_vec();
    let decoded = Decoder::new(&frame).decode();
    if let Err(err) = decoded {
        panic!(
            "tag {tag} value {value:?} produced a frame the decoder rejects \
             ({err:?}): {:?}",
            String::from_utf8_lossy(&frame)
        );
    }
}

#[test]
fn test_encoder_default_uses_fix44() {
    let mut encoder = Encoder::default();
    encoder.put_str(35, "0");
    let frame = frame_of(&mut encoder);
    assert!(frame.starts_with(b"8=FIX.4.4\x01"));
}

#[test]
fn test_encoder_with_capacity_encodes_without_growing_the_buffer() {
    let mut encoder = Encoder::with_capacity("FIX.4.4", 512);
    encoder.put_str(35, "D");
    encoder.put_raw(58, &vec![b'x'; 400]);
    let frame = frame_of(&mut encoder);
    assert!(Decoder::new(&frame).decode().is_ok());
}
