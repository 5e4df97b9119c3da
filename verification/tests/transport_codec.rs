//! Framing a byte stream.

use bytes::BytesMut;
use ironfix::tagvalue::calculate_checksum;
use ironfix::tagvalue::digits::parse_length;
use ironfix::tagvalue::wire::SOH;
use ironfix::transport::codec::resync_offset;
use ironfix::transport::framing::MAX_HEADER_LEN;
use ironfix::transport::{CodecError, FixCodec};

/// Builds a well-formed frame around `body` with a correct checksum.
fn make_fix_message(body: &str) -> Vec<u8> {
    let without_checksum = format!("8=FIX.4.4\x019={}\x01{}", body.len(), body);
    let checksum = calculate_checksum(without_checksum.as_bytes());
    format!("{without_checksum}10={checksum:03}\x01").into_bytes()
}

/// Decodes expecting success, returning the extracted frame.
fn decode_frame(codec: &FixCodec, buf: &mut BytesMut) -> BytesMut {
    match codec.decode(buf) {
        Ok(Some(frame)) => frame,
        other => panic!("expected a complete frame, got {other:?}"),
    }
}

#[test]
fn test_decode_complete_message_consumes_the_frame() {
    let codec = FixCodec::new();
    let msg = make_fix_message("35=0\x01");
    let mut buf = BytesMut::from(&msg[..]);

    let frame = decode_frame(&codec, &mut buf);
    assert_eq!(&frame[..], &msg[..]);
    assert!(buf.is_empty());
}

#[test]
fn test_decode_truncated_message_is_none() {
    let codec = FixCodec::new();
    let msg = make_fix_message("35=0\x01");
    let Some(head) = msg.get(..msg.len() - 5) else {
        panic!("message is longer than the truncation");
    };
    let mut buf = BytesMut::from(head);

    assert!(matches!(codec.decode(&mut buf), Ok(None)));
}

#[test]
fn test_decode_split_buffer_remainder_reassembles() {
    let codec = FixCodec::new();
    let msg = make_fix_message("35=0\x0149=SENDER\x0156=TARGET\x01");
    let split_at = msg.len() - 5;
    let (Some(head), Some(tail)) = (msg.get(..split_at), msg.get(split_at..)) else {
        panic!("split point is inside the message");
    };

    let mut buf = BytesMut::from(head);
    assert!(matches!(codec.decode(&mut buf), Ok(None)));

    buf.extend_from_slice(tail);
    let frame = decode_frame(&codec, &mut buf);
    assert_eq!(&frame[..], &msg[..]);
    assert!(buf.is_empty());
}

#[test]
fn test_decode_byte_by_byte_feed_reassembles_one_message() {
    let codec = FixCodec::new();
    let msg = make_fix_message("35=A\x0149=SENDER\x0156=TARGET\x0198=0\x01108=30\x01");
    let mut buf = BytesMut::new();
    let mut decoded = None;

    for (index, byte) in msg.iter().enumerate() {
        buf.extend_from_slice(&[*byte]);
        match codec.decode(&mut buf) {
            Ok(None) => {}
            Ok(Some(frame)) => {
                assert_eq!(index + 1, msg.len(), "frame emitted before the last byte");
                decoded = Some(frame);
            }
            Err(error) => panic!("byte {index} produced {error:?}"),
        }
    }

    let Some(frame) = decoded else {
        panic!("byte-by-byte feed never produced a frame");
    };
    assert_eq!(&frame[..], &msg[..]);
    assert!(buf.is_empty());
}

#[test]
fn test_decode_chunk_boundary_inside_body_length_field() {
    let codec = FixCodec::new();
    // Body long enough that BodyLength is three digits, so a boundary can
    // fall between them.
    let body = format!("35=D\x0158={}\x01", "x".repeat(120));
    let msg = make_fix_message(&body);
    // "8=FIX.4.4<SOH>9=" is 12 bytes; cut after the first BodyLength digit.
    let split_at = 13;
    let (Some(head), Some(tail)) = (msg.get(..split_at), msg.get(split_at..)) else {
        panic!("split point is inside the message");
    };

    let mut buf = BytesMut::from(head);
    assert!(matches!(codec.decode(&mut buf), Ok(None)));

    buf.extend_from_slice(tail);
    let frame = decode_frame(&codec, &mut buf);
    assert_eq!(&frame[..], &msg[..]);
}

#[test]
fn test_decode_chunk_boundary_inside_trailer() {
    let codec = FixCodec::new();
    let msg = make_fix_message("35=0\x0149=SENDER\x01");
    // Cut between the "10=" literal and its digits.
    let split_at = msg.len() - 4;
    let (Some(head), Some(tail)) = (msg.get(..split_at), msg.get(split_at..)) else {
        panic!("split point is inside the message");
    };

    let mut buf = BytesMut::from(head);
    assert!(matches!(codec.decode(&mut buf), Ok(None)));

    buf.extend_from_slice(tail);
    let frame = decode_frame(&codec, &mut buf);
    assert_eq!(&frame[..], &msg[..]);
    assert!(buf.is_empty());
}

#[test]
fn test_decode_two_back_to_back_messages_both_decode() {
    let codec = FixCodec::new();
    let first = make_fix_message("35=0\x0149=A\x0156=B\x01");
    let second = make_fix_message("35=A\x0149=CCCC\x0156=DDDD\x01");
    let mut buf = BytesMut::from(&first[..]);
    buf.extend_from_slice(&second);

    let frame_one = decode_frame(&codec, &mut buf);
    assert_eq!(&frame_one[..], &first[..]);

    let frame_two = decode_frame(&codec, &mut buf);
    assert_eq!(&frame_two[..], &second[..]);

    assert!(buf.is_empty());
    assert!(matches!(codec.decode(&mut buf), Ok(None)));
}

#[test]
fn test_decode_two_messages_exceeding_the_ceiling_in_total_still_decode() {
    // The ceiling bounds one frame, not one read: a buffer holding several
    // legal frames must not be rejected for its total size.
    let codec = FixCodec::new().with_max_message_size(128);
    let first = make_fix_message(&format!("35=0\x0158={}\x01", "a".repeat(60)));
    let second = make_fix_message(&format!("35=0\x0158={}\x01", "b".repeat(60)));
    assert!(first.len() <= 128 && second.len() <= 128);
    assert!(first.len() + second.len() > 128);

    let mut buf = BytesMut::from(&first[..]);
    buf.extend_from_slice(&second);

    let frame_one = decode_frame(&codec, &mut buf);
    assert_eq!(&frame_one[..], &first[..]);
    let frame_two = decode_frame(&codec, &mut buf);
    assert_eq!(&frame_two[..], &second[..]);
}

#[test]
fn test_decode_soh_free_buffer_over_ceiling_is_message_too_large() {
    let ceiling = 128;
    let codec = FixCodec::new().with_max_message_size(ceiling);
    let mut buf = BytesMut::from(&b"8="[..]);
    buf.extend_from_slice(&vec![b'X'; ceiling]);
    assert_eq!(buf.len(), ceiling + 2);

    assert!(matches!(
        codec.decode(&mut buf),
        Err(CodecError::MessageTooLarge { max_size, .. }) if max_size == ceiling
    ));
}

#[test]
fn test_decode_soh_free_header_is_bounded_and_never_asks_for_more() {
    // A peer that sends "8=" and then never a delimiter must not be able to
    // grow the read buffer: the codec errors once the header ceiling is
    // reached, long before the message ceiling.
    let codec = FixCodec::new();
    let garbage = vec![b'X'; 4096];
    let mut buf = BytesMut::from(&b"8="[..]);
    let mut error = None;

    for byte in &garbage {
        buf.extend_from_slice(&[*byte]);
        match codec.decode(&mut buf) {
            Ok(None) => {}
            Ok(Some(frame)) => panic!("garbage produced a frame of {} bytes", frame.len()),
            Err(err) => {
                error = Some(err);
                break;
            }
        }
        assert!(
            buf.len() <= MAX_HEADER_LEN,
            "buffer grew to {} bytes without an error",
            buf.len()
        );
    }

    assert_eq!(
        error,
        Some(CodecError::HeaderTooLong {
            max_header_len: MAX_HEADER_LEN
        })
    );
    assert!(buf.len() <= MAX_HEADER_LEN + 1);
}

#[test]
fn test_decode_long_body_length_digits_is_header_too_long() {
    let codec = FixCodec::new();
    let mut buf = BytesMut::from(&b"8=FIX.4.4\x019="[..]);
    buf.extend_from_slice(&[b'9'; MAX_HEADER_LEN]);

    assert_eq!(
        codec.decode(&mut buf).err(),
        Some(CodecError::HeaderTooLong {
            max_header_len: MAX_HEADER_LEN
        })
    );
}

#[test]
fn test_decode_body_length_overflow_is_invalid_body_length() {
    let codec = FixCodec::new();
    let msg = format!("8=FIX.4.4\x019={}\x0135=0\x0110=000\x01", usize::MAX);
    let mut buf = BytesMut::from(msg.as_bytes());

    // Must error, not overflow the framing arithmetic.
    assert_eq!(
        codec.decode(&mut buf).err(),
        Some(CodecError::InvalidBodyLength)
    );
}

#[test]
fn test_decode_non_numeric_body_length_is_invalid_body_length() {
    let codec = FixCodec::new();
    let mut buf = BytesMut::from(&b"8=FIX.4.4\x019=abc\x0135=0\x0110=000\x01"[..]);

    assert_eq!(
        codec.decode(&mut buf).err(),
        Some(CodecError::InvalidBodyLength)
    );
}

#[test]
fn test_decode_empty_body_length_is_invalid_body_length() {
    let codec = FixCodec::new();
    let mut buf = BytesMut::from(&b"8=FIX.4.4\x019=\x0135=0\x0110=000\x01"[..]);

    assert_eq!(
        codec.decode(&mut buf).err(),
        Some(CodecError::InvalidBodyLength)
    );
}

#[test]
fn test_decode_signed_body_length_is_invalid_body_length() {
    let codec = FixCodec::new();
    let mut buf = BytesMut::from(&b"8=FIX.4.4\x019=+5\x0135=0\x0110=000\x01"[..]);

    assert_eq!(
        codec.decode(&mut buf).err(),
        Some(CodecError::InvalidBodyLength)
    );
}

#[test]
fn test_decode_missing_body_length_field_is_missing_body_length() {
    let codec = FixCodec::new();
    // Tag 35 where tag 9 must be.
    let mut buf = BytesMut::from(&b"8=FIX.4.4\x0135=0\x0149=A\x0110=000\x01"[..]);
    let total = buf.len();

    assert_eq!(
        codec.decode(&mut buf).err(),
        Some(CodecError::MissingBodyLength)
    );
    // The frame boundary is unknown, so nothing is consumed.
    assert_eq!(buf.len(), total);
}

#[test]
fn test_decode_body_length_too_large_is_message_too_large() {
    let codec = FixCodec::new();
    let msg = format!("8=FIX.4.4\x019={}\x0135=0\x0110=000\x01", 10 * 1024 * 1024);
    let mut buf = BytesMut::from(msg.as_bytes());

    assert!(matches!(
        codec.decode(&mut buf),
        Err(CodecError::MessageTooLarge { .. })
    ));
}

#[test]
fn test_decode_body_length_pointing_at_non_trailer_is_invalid_trailer() {
    // BodyLength says 3 where the body is 5 bytes, so the trailer offsets
    // land inside the body. This must be a framing error on both paths.
    for validate in [true, false] {
        let codec = FixCodec::new().with_checksum_validation(validate);
        let mut buf = BytesMut::from(&b"8=FIX.4.4\x019=3\x0135=0\x0110=000\x01"[..]);
        let total = buf.len();

        let result = codec.decode(&mut buf);
        assert!(
            matches!(result, Err(CodecError::InvalidTrailer { .. })),
            "validate_checksum={validate} must report a framing error, got {result:?}"
        );
        // BodyLength is not corroborated by anything here, so its declared
        // length is NOT used to bound the discard. The codec resyncs to the
        // next `<SOH>8` instead; there is none, so everything but a
        // trailing SOH goes.
        assert!(
            buf.len() < total,
            "validate_checksum={validate} must make progress"
        );
        assert!(
            buf.len() <= 1,
            "validate_checksum={validate} resync should leave at most a trailing SOH, left {}",
            buf.len()
        );
    }
}

#[test]
fn test_decode_invalid_trailer_does_not_discard_the_frames_that_follow() {
    // A 21-byte hostile header declares a 222-byte body. Consuming the
    // declared frame would swallow every well-formed frame that merely
    // follows it -- at the default 1 MiB ceiling, tens of thousands of
    // them, reported as a single error. BodyLength is not corroborated by
    // any trailer here, so it must not bound the discard.
    let good = b"8=FIX.4.4\x019=15\x0135=0\x0149=A\x0156=B\x0110=171\x01";
    let mut raw = Vec::from(&b"8=FIX.4.4\x019=222\x0135=0\x01"[..]);
    let hostile_len = raw.len();
    for _ in 0..6 {
        raw.extend_from_slice(good);
    }
    // The declared frame ends two bytes past the last good frame, so the
    // buffer must hold it in full for the trailer check to run at all.
    let padding: &[u8] = b"\x01\x01\x01\x01\x01\x01\x01";
    raw.extend_from_slice(padding);
    let mut buf = BytesMut::from(&raw[..]);

    let codec = FixCodec::new();
    let result = codec.decode(&mut buf);
    assert!(
        matches!(result, Err(CodecError::InvalidTrailer { .. })),
        "expected a trailer error, got {result:?}"
    );
    // Only the hostile header is discarded: the good frames survive.
    assert_eq!(buf.len(), raw.len() - hostile_len);

    for index in 0..6 {
        match codec.decode(&mut buf) {
            Ok(Some(frame)) => assert_eq!(&frame[..], &good[..]),
            other => panic!("frame {index} must survive the resync, got {other:?}"),
        }
    }
    assert_eq!(buf.len(), padding.len());
}

#[test]
fn test_decode_missing_final_soh_is_invalid_trailer() {
    let codec = FixCodec::new();
    // Trailer terminated by 'X' instead of SOH.
    let mut buf = BytesMut::from(&b"8=FIX.4.4\x019=5\x0135=0\x0110=000X"[..]);

    assert!(matches!(
        codec.decode(&mut buf),
        Err(CodecError::InvalidTrailer { .. })
    ));
}

#[test]
fn test_decode_malformed_checksum_digits_is_invalid_checksum_format() {
    // "10=0x0" has the right shape but is not a decimal value.
    for validate in [true, false] {
        let codec = FixCodec::new().with_checksum_validation(validate);
        let mut buf = BytesMut::from(&b"8=FIX.4.4\x019=5\x0135=0\x0110=0x0\x01"[..]);

        assert_eq!(
            codec.decode(&mut buf).err(),
            Some(CodecError::InvalidChecksumFormat),
            "validate_checksum={validate}"
        );
        assert!(buf.is_empty(), "the declared frame must be consumed");
    }
}

#[test]
fn test_decode_out_of_range_checksum_is_invalid_checksum_format() {
    let codec = FixCodec::new();
    // 999 does not fit in a u8 checksum.
    let mut buf = BytesMut::from(&b"8=FIX.4.4\x019=5\x0135=0\x0110=999\x01"[..]);

    assert_eq!(
        codec.decode(&mut buf).err(),
        Some(CodecError::InvalidChecksumFormat)
    );
}

#[test]
fn test_decode_checksum_mismatch_consumes_the_declared_frame() {
    let codec = FixCodec::new();
    let mut buf = BytesMut::from(&b"8=FIX.4.4\x019=5\x0135=0\x0110=000\x01"[..]);

    assert!(matches!(
        codec.decode(&mut buf),
        Err(CodecError::ChecksumMismatch { .. })
    ));
    assert!(buf.is_empty());
}

#[test]
fn test_decode_checksum_mismatch_keeps_the_next_frame_aligned() {
    let codec = FixCodec::new();
    let good = make_fix_message("35=0\x0149=A\x01");
    let mut buf = BytesMut::from(&b"8=FIX.4.4\x019=5\x0135=0\x0110=000\x01"[..]);
    buf.extend_from_slice(&good);

    assert!(matches!(
        codec.decode(&mut buf),
        Err(CodecError::ChecksumMismatch { .. })
    ));
    let frame = decode_frame(&codec, &mut buf);
    assert_eq!(&frame[..], &good[..]);
}

#[test]
fn test_decode_no_checksum_validation_accepts_a_wrong_checksum() {
    let codec = FixCodec::new().with_checksum_validation(false);
    let mut buf = BytesMut::from(&b"8=FIX.4.4\x019=5\x0135=0\x0110=000\x01"[..]);

    let frame = decode_frame(&codec, &mut buf);
    assert_eq!(frame.len(), 26);
}

#[test]
fn test_decode_invalid_begin_string_resyncs_to_the_next_frame() {
    let codec = FixCodec::new();
    let garbage: &[u8] = b"9=FIX.4.4\x0135=0\x0110=000\x01";
    let good = make_fix_message("35=0\x0149=A\x0156=B\x01");
    let mut buf = BytesMut::from(garbage);
    buf.extend_from_slice(&good);
    let total = buf.len();

    assert_eq!(
        codec.decode(&mut buf).err(),
        Some(CodecError::InvalidBeginString)
    );
    // The first "<SOH>8" pair is the SOH ending "10=000" plus the '8' of the
    // following frame, so exactly the garbage is discarded.
    assert_eq!(total - buf.len(), garbage.len());

    let frame = decode_frame(&codec, &mut buf);
    assert_eq!(&frame[..], &good[..]);
    assert!(buf.is_empty());
}

#[test]
fn test_decode_invalid_begin_string_without_a_candidate_discards_all_but_a_trailing_soh() {
    let codec = FixCodec::new();
    let mut buf = BytesMut::from(&b"garbage without any candidate start\x01"[..]);

    assert_eq!(
        codec.decode(&mut buf).err(),
        Some(CodecError::InvalidBeginString)
    );
    // Only the trailing SOH survives: its '8' partner may still arrive.
    assert_eq!(&buf[..], &[SOH]);
}

#[test]
fn test_decode_invalid_begin_string_with_no_soh_discards_everything() {
    let codec = FixCodec::new();
    let mut buf = BytesMut::from(&b"garbage without any delimiter at all"[..]);

    assert_eq!(
        codec.decode(&mut buf).err(),
        Some(CodecError::InvalidBeginString)
    );
    assert!(buf.is_empty());
}

#[test]
fn test_resync_offset_skips_non_candidate_soh_pairs() {
    // The first SOH is followed by '3', not '8'; the second one starts a
    // candidate frame.
    let input: &[u8] = b"junk\x0135=0\x018=FIX.4.4\x01";
    let offset = resync_offset(input);
    assert_eq!(input.get(offset..offset + 2), Some(&b"8="[..]));
}

#[test]
fn test_parse_body_length_rejects_hostile_values() {
    assert_eq!(parse_length(b"0"), Some(0));
    assert_eq!(parse_length(b"512"), Some(512));
    assert_eq!(parse_length(b""), None);
    assert_eq!(parse_length(b"-1"), None);
    assert_eq!(parse_length(b"1a"), None);
    assert_eq!(parse_length(b" 12"), None);
    assert_eq!(parse_length(b"99999999999999999999"), None);
}

#[test]
fn test_encode_slice_appends_the_frame() {
    let codec = FixCodec::new();
    let msg = b"8=FIX.4.4\x019=5\x0135=0\x0110=123\x01";
    let mut dst = BytesMut::new();

    assert!(matches!(codec.encode(&msg[..], &mut dst), Ok(())));
    assert_eq!(&dst[..], msg);
}

#[test]
fn test_encode_slice_over_the_ceiling_is_message_too_large() {
    let codec = FixCodec::new().with_max_message_size(16);
    let msg = [b'X'; 17];
    let mut dst = BytesMut::new();

    assert_eq!(
        codec.encode(&msg[..], &mut dst).err(),
        Some(CodecError::MessageTooLarge {
            size: 17,
            max_size: 16
        })
    );
    assert!(dst.is_empty(), "a rejected frame must not be written");
}

#[test]
fn test_encode_bytes_mut_appends_the_frame() {
    let codec = FixCodec::new();
    let msg = BytesMut::from(&b"8=FIX.4.4\x019=5\x0135=0\x0110=123\x01"[..]);
    let mut dst = BytesMut::new();

    assert!(matches!(codec.encode(&msg, &mut dst), Ok(())));
    assert_eq!(&dst[..], &msg[..]);
}

#[test]
fn test_encode_bytes_mut_over_the_ceiling_is_message_too_large() {
    let codec = FixCodec::new().with_max_message_size(16);
    let msg = BytesMut::from(&vec![b'X'; 17][..]);
    let mut dst = BytesMut::new();

    assert_eq!(
        codec.encode(&msg, &mut dst).err(),
        Some(CodecError::MessageTooLarge {
            size: 17,
            max_size: 16
        })
    );
    assert!(dst.is_empty());
}

#[test]
fn test_encode_at_the_ceiling_is_accepted() {
    let codec = FixCodec::new().with_max_message_size(16);
    let msg = [b'X'; 16];
    let mut dst = BytesMut::new();

    assert!(matches!(codec.encode(&msg[..], &mut dst), Ok(())));
    assert_eq!(dst.len(), 16);
}
