//! Decoding tag=value messages.

use ironfix::tagvalue::digits::{parse_length, parse_tag};
use ironfix::tagvalue::pairs::{is_data_tag, paired_data_tag, FIRST_DATA_TAG, FIRST_LENGTH_TAG};
use ironfix::tagvalue::wire::{MAX_TAG_DIAGNOSTIC_LEN, SOH};
use ironfix::tagvalue::Decoder;
use ironfix::types::message::MSG_TYPE_MAX_LEN;
use ironfix::types::{DecodeError, MsgType, MsgTypeError};

/// Every `LENGTH` field with the `DATA` field whose byte count it gives.
const LENGTH_DATA_PAIRS: [(u32, u32); 83] = [
    // FIX 4.0
    (90, 91), // SecureDataLen / SecureData
    (93, 89), // SignatureLength / Signature
    (95, 96), // RawDataLength / RawData
    // FIX 4.2
    (212, 213), // XmlDataLen / XmlData
    (348, 349), // EncodedIssuerLen / EncodedIssuer
    (350, 351), // EncodedSecurityDescLen / EncodedSecurityDesc
    (352, 353), // EncodedListExecInstLen / EncodedListExecInst
    (354, 355), // EncodedTextLen / EncodedText
    (356, 357), // EncodedSubjectLen / EncodedSubject
    (358, 359), // EncodedHeadlineLen / EncodedHeadline
    (360, 361), // EncodedAllocTextLen / EncodedAllocText
    (362, 363), // EncodedUnderlyingIssuerLen / EncodedUnderlyingIssuer
    (364, 365), // EncodedUnderlyingSecurityDescLen / EncodedUnderlyingSecurityDesc
    (445, 446), // EncodedListStatusTextLen / EncodedListStatusText
    // FIX 4.3
    (618, 619), // EncodedLegIssuerLen / EncodedLegIssuer
    (621, 622), // EncodedLegSecurityDescLen / EncodedLegSecurityDesc
    // FIX 5.0 SP1
    (1184, 1185), // SecurityXMLLen / SecurityXML
    (1277, 1278), // DerivativeEncodedIssuerLen / DerivativeEncodedIssuer
    (1280, 1281), // DerivativeEncodedSecurityDescLen / DerivativeEncodedSecurityDesc
    (1282, 1283), // DerivativeSecurityXMLLen / DerivativeSecurityXML
    (1397, 1398), // EncodedMktSegmDescLen / EncodedMktSegmDesc
    (1401, 1402), // EncryptedPasswordLen / EncryptedPassword
    (1403, 1404), // EncryptedNewPasswordLen / EncryptedNewPassword
    // FIX 5.0 SP2
    (1468, 1469),   // EncodedSecurityListDescLen / EncodedSecurityListDesc
    (1525, 1527),   // EncodedDocumentationTextLen / EncodedDocumentationText
    (1578, 1579),   // EncodedEventTextLen / EncodedEventText
    (1620, 1621),   // InstrumentScopeEncodedSecurityDescLen / InstrumentScopeEncodedSecurityDesc
    (1664, 1665),   // EncodedRejectTextLen / EncodedRejectText
    (1678, 1697),   // EncodedOptionExpirationDescLen / EncodedOptionExpirationDesc
    (1733, 1734),   // EncodedFirmAllocTextLen / EncodedFirmAllocText
    (1871, 1872),   // LegSecurityXMLLen / LegSecurityXML
    (1874, 1875),   // UnderlyingSecurityXMLLen / UnderlyingSecurityXML
    (2072, 2073),   // EncodedUnderlyingEventTextLen / EncodedUnderlyingEventText
    (2074, 2075),   // EncodedLegEventTextLen / EncodedLegEventText
    (2111, 2112),   // EncodedAttachmentLen / EncodedAttachment
    (2179, 2180),   // EncodedLegOptionExpirationDescLen / EncodedLegOptionExpirationDesc
    (2287, 2288), // EncodedUnderlyingOptionExpirationDescLen / EncodedUnderlyingOptionExpirationDesc
    (2351, 2352), // EncodedComplianceTextLen / EncodedComplianceText
    (2372, 2371), // EncodedTradeContinuationTextLen / EncodedTradeContinuationText
    (2481, 2482), // EncodedMDStatisticDescLen / EncodedMDStatisticDesc
    (2494, 2493), // EncodedLegDocumentationTextLen / EncodedLegDocumentationText
    (2522, 2521), // EncodedWarningTextLen / EncodedWarningText
    (2637, 2638), // EncodedMiscFeeSubTypeDescLen / EncodedMiscFeeSubTypeDesc
    (2651, 2652), // EncodedCommissionDescLen / EncodedCommissionDesc
    (2665, 2666), // EncodedAllocCommissionDescLen / EncodedAllocCommissionDesc
    (2715, 2716), // EncodedFinancialInstrumentFullNameLen / EncodedFinancialInstrumentFullName
    (2718, 2719), // EncodedLegFinancialInstrumentFullNameLen / EncodedLegFinancialInstrumentFullName
    (2721, 2722), // EncodedUnderlyingFinancialInstrumentFullNameLen / EncodedUnderlyingFinancialInstrumentFullName
    (2797, 2798), // EncodedMatchExceptionTextLen / EncodedMatchExceptionText
    (2802, 2801), // EncodedReplaceTextLen / EncodedReplaceText
    (2809, 2808), // EncodedCancelTextLen / EncodedCancelText
    (2815, 2814), // EncodedPostTradePaymentDescLen / EncodedPostTradePaymentDesc
    (40004, 40005), // EncodedAdditionalTermBondDescLen / EncodedAdditionalTermBondDesc
    (40008, 40009), // EncodedAdditionalTermBondIssuerLen / EncodedAdditionalTermBondIssuer
    (40978, 40979), // EncodedLegStreamTextLen / EncodedLegStreamText
    (40980, 40981), // EncodedLegProvisionTextLen / EncodedLegProvisionText
    (40982, 40983), // EncodedStreamTextLen / EncodedStreamText
    (40984, 40985), // EncodedPaymentTextLen / EncodedPaymentText
    (40986, 40987), // EncodedProvisionTextLen / EncodedProvisionText
    (40988, 40989), // EncodedUnderlyingStreamTextLen / EncodedUnderlyingStreamText
    (41083, 41084), // EncodedDeliveryStreamCycleDescLen / EncodedDeliveryStreamCycleDesc
    (41101, 41102), // EncodedMarketDisruptionFallbackUnderlierSecurityDescLen / EncodedMarketDisruptionFallbackUnderlierSecurityDesc
    (41107, 41108), // EncodedExerciseDescLen / EncodedExerciseDesc
    (41256, 41257), // EncodedStreamCommodityDescLen / EncodedStreamCommodityDesc
    (41320, 41321), // EncodedLegAdditionalTermBondDescLen / EncodedLegAdditionalTermBondDesc
    (41324, 41325), // EncodedLegAdditionalTermBondIssuerLen / EncodedLegAdditionalTermBondIssuer
    (41458, 41459), // EncodedLegDeliveryStreamCycleDescLen / EncodedLegDeliveryStreamCycleDesc
    (41476, 41477), // EncodedLegMarketDisruptionFallbackUnderlierSecurityDescLen / EncodedLegMarketDisruptionFallbackUnderlierSecurityDesc
    (41482, 41483), // EncodedLegExerciseDescLen / EncodedLegExerciseDesc
    (41653, 41654), // EncodedLegStreamCommodityDescLen / EncodedLegStreamCommodityDesc
    (41710, 41711), // EncodedUnderlyingAdditionalTermBondDescLen / EncodedUnderlyingAdditionalTermBondDesc
    (41806, 41807), // EncodedUnderlyingDeliveryStreamCycleDescLen / EncodedUnderlyingDeliveryStreamCycleDesc
    (41811, 41812), // EncodedUnderlyingExerciseDescLen / EncodedUnderlyingExerciseDesc
    (41873, 41874), // EncodedUnderlyingMarketDisruptionFallbackUnderlierSecDescLen / EncodedUnderlyingMarketDisruptionFallbackUnderlierSecurityDesc
    (41969, 41970), // EncodedUnderlyingStreamCommodityDescLen / EncodedUnderlyingStreamCommodityDesc
    (42025, 42026), // EncodedUnderlyingAdditionalTermBondIssuerLen / EncodedUnderlyingAdditionalTermBondIssuer
    (42171, 42172), // EncodedUnderlyingProvisionTextLen / EncodedUnderlyingProvisionText
    (42451, 42452), // LegPaymentStreamFormulaImageLength / LegPaymentStreamFormulaImage
    (42652, 42653), // PaymentStreamFormulaImageLength / PaymentStreamFormulaImage
    (42947, 42948), // UnderlyingPaymentStreamFormulaImageLength / UnderlyingPaymentStreamFormulaImage
    (43109, 42684), // PaymentStreamFormulaLength / PaymentStreamFormula
    (43110, 42486), // LegPaymentStreamFormulaLength / LegPaymentStreamFormula
    (43111, 42982), // UnderlyingPaymentStreamFormulaLength / UnderlyingPaymentStreamFormula
];

/// Every tag number the pair table can be asked about, as an iterator.
///
/// The two disjoint bands the table occupies, padded on both sides: the
/// classic FIX range and the 40000+ range FIX 5.0 SP2 uses for the
/// derivatives extension.
fn candidate_tags() -> impl Iterator<Item = u32> {
    (1..=3_000u32).chain(39_000..=44_000u32)
}

/// Builds a well-formed frame around `body` with a valid trailing checksum.
fn build_frame(body: &[u8]) -> Vec<u8> {
    build_frame_with_begin_string(b"FIX.4.4", body)
}

/// Builds a well-formed frame with an arbitrary BeginString value.
fn build_frame_with_begin_string(begin_string: &[u8], body: &[u8]) -> Vec<u8> {
    let mut msg = Vec::with_capacity(body.len() + 32);
    msg.extend_from_slice(b"8=");
    msg.extend_from_slice(begin_string);
    msg.push(SOH);
    msg.extend_from_slice(format!("9={}\x01", body.len()).as_bytes());
    msg.extend_from_slice(body);
    let sum: u64 = msg.iter().map(|&b| u64::from(b)).sum();
    msg.extend_from_slice(format!("10={:03}\x01", (sum % 256) as u8).as_bytes());
    msg
}

#[test]
fn test_parse_tag() {
    assert_eq!(parse_tag(b"8"), Some(8));
    assert_eq!(parse_tag(b"35"), Some(35));
    assert_eq!(parse_tag(b"12345"), Some(12345));
    assert_eq!(parse_tag(b""), None);
    assert_eq!(parse_tag(b"abc"), None);
    assert_eq!(parse_tag(b"12a"), None);
}

#[test]
fn test_parse_length_rejects_hostile_values() {
    assert_eq!(parse_length(b"0"), Some(0));
    assert_eq!(parse_length(b"7"), Some(7));
    assert_eq!(parse_length(b""), None);
    assert_eq!(parse_length(b"-1"), None);
    assert_eq!(parse_length(b"1a"), None);
    // More digits than a byte count can plausibly need.
    assert_eq!(parse_length(b"99999999999999999999"), None);
}

#[test]
fn test_paired_data_tag_covers_spec_pairs() {
    // One from each version band the table spans.
    assert_eq!(paired_data_tag(95), Some(96)); // 4.0
    assert_eq!(paired_data_tag(93), Some(89)); // 4.0, length tag above data tag
    assert_eq!(paired_data_tag(354), Some(355)); // 4.2
    assert_eq!(paired_data_tag(621), Some(622)); // 4.3
    assert_eq!(paired_data_tag(1397), Some(1398)); // 5.0 SP1
    assert_eq!(paired_data_tag(1678), Some(1697)); // 5.0 SP2, non-adjacent
    assert_eq!(paired_data_tag(43111), Some(42982)); // 5.0 SP2, five digits
    assert_eq!(paired_data_tag(35), None);
    // No tag is both a length tag and a data tag.
    for (_, data_tag) in LENGTH_DATA_PAIRS {
        assert_eq!(paired_data_tag(data_tag), None);
    }
}

#[test]
fn test_paired_data_tag_matches_the_spec_table() {
    // The reference table is the complete `type='DATA'`/`type='XMLDATA'`
    // set from FIX 4.0 through 5.0 SP2. Cross-checking it against the match
    // arms catches drift in either.
    for (length_tag, data_tag) in LENGTH_DATA_PAIRS {
        assert_eq!(paired_data_tag(length_tag), Some(data_tag));
    }
    // Nothing outside the table is treated as a length tag.
    let length_tags: Vec<u32> = LENGTH_DATA_PAIRS.iter().map(|(len, _)| *len).collect();
    for tag in candidate_tags() {
        if !length_tags.contains(&tag) {
            assert_eq!(paired_data_tag(tag), None, "tag {tag} must not be paired");
        }
    }
}

#[test]
fn test_length_data_pairs_is_a_bijection() {
    // A length tag framing two data fields, or a data field claimed by two
    // length tags, would make the framing ambiguous.
    let length_tags: Vec<u32> = LENGTH_DATA_PAIRS.iter().map(|(len, _)| *len).collect();
    let data_tags: Vec<u32> = LENGTH_DATA_PAIRS.iter().map(|(_, data)| *data).collect();
    for (index, tag) in length_tags.iter().enumerate() {
        assert_eq!(
            length_tags.iter().position(|other| other == tag),
            Some(index),
            "length tag {tag} appears twice"
        );
        assert!(
            !data_tags.contains(tag),
            "tag {tag} is both length and data"
        );
    }
    for (index, tag) in data_tags.iter().enumerate() {
        assert_eq!(
            data_tags.iter().position(|other| other == tag),
            Some(index),
            "data tag {tag} appears twice"
        );
    }
}

#[test]
fn test_table_guards_match_the_table_minimums() {
    // Both lookups short-circuit below their bound, so a pair added beneath
    // one would be silently unreachable.
    assert_eq!(
        LENGTH_DATA_PAIRS.iter().map(|(len, _)| *len).min(),
        Some(FIRST_LENGTH_TAG)
    );
    assert_eq!(
        LENGTH_DATA_PAIRS.iter().map(|(_, data)| *data).min(),
        Some(FIRST_DATA_TAG)
    );
}

#[test]
fn test_next_field() {
    let input = b"8=FIX.4.4\x019=5\x0135=0\x01";
    let mut decoder = Decoder::new(input);

    let Ok(Some(field1)) = decoder.next_field() else {
        panic!("first field must parse");
    };
    assert_eq!(field1.tag, 8);
    assert_eq!(field1.as_str(), Ok("FIX.4.4"));

    let Ok(Some(field2)) = decoder.next_field() else {
        panic!("second field must parse");
    };
    assert_eq!(field2.tag, 9);
    assert_eq!(field2.as_str(), Ok("5"));

    let Ok(Some(field3)) = decoder.next_field() else {
        panic!("third field must parse");
    };
    assert_eq!(field3.tag, 35);
    assert_eq!(field3.as_str(), Ok("0"));

    assert!(matches!(decoder.next_field(), Ok(None)));
}

#[test]
fn test_decoder_empty() {
    let mut decoder = Decoder::new(b"");
    assert!(matches!(decoder.next_field(), Ok(None)));
    assert!(decoder.is_empty());
}

#[test]
fn test_next_field_missing_soh_is_unterminated_field() {
    let input = b"8=FIX.4.4";
    let mut decoder = Decoder::new(input);
    assert_eq!(
        decoder.next_field().err(),
        Some(DecodeError::UnterminatedField { tag: 8 })
    );
}

#[test]
fn test_next_field_non_numeric_tag_is_invalid_tag() {
    let mut decoder = Decoder::new(b"abc=1\x01");
    let error = decoder.next_field().err();
    assert!(matches!(error, Some(DecodeError::InvalidTag(_))));
    assert_ne!(error, Some(DecodeError::Incomplete));
}

#[test]
fn test_next_field_missing_equals_is_invalid_tag() {
    let mut decoder = Decoder::new(b"garbage-no-equals\x01");
    let error = decoder.next_field().err();
    assert!(matches!(error, Some(DecodeError::InvalidTag(_))));
    assert_ne!(error, Some(DecodeError::Incomplete));
}

#[test]
fn test_next_field_invalid_tag_diagnostic_is_bounded() {
    let mut input = vec![b'x'; 4096];
    input.push(SOH);
    let mut decoder = Decoder::new(&input);
    match decoder.next_field() {
        Err(DecodeError::InvalidTag(text)) => {
            assert!(text.len() <= MAX_TAG_DIAGNOSTIC_LEN);
        }
        other => panic!("expected InvalidTag, got {other:?}"),
    }
}

#[test]
fn test_next_field_empty_tag_is_invalid_tag() {
    let mut decoder = Decoder::new(b"=value\x01");
    assert!(matches!(
        decoder.next_field(),
        Err(DecodeError::InvalidTag(_))
    ));
}

/// Builds a frame with the given BodyLength text (which may be hostile) and
/// a valid trailing checksum over the resulting bytes.
fn frame_with_body_length(body_length_text: &str, body_length_tag: &str) -> Vec<u8> {
    let body = b"35=0\x0149=A\x0156=B\x0134=1\x0152=20240329-12:00:00\x01";
    let mut msg = Vec::new();
    msg.extend_from_slice(b"8=FIX.4.4\x01");
    msg.extend_from_slice(format!("{body_length_tag}={body_length_text}\x01").as_bytes());
    msg.extend_from_slice(body);
    let sum: u64 = msg.iter().map(|&b| u64::from(b)).sum();
    msg.extend_from_slice(format!("10={:03}\x01", (sum % 256) as u8).as_bytes());
    msg
}

#[test]
fn test_decode_body_length_overflow_does_not_panic() {
    let msg = frame_with_body_length(&usize::MAX.to_string(), "9");
    assert_eq!(
        Decoder::new(&msg).decode().err(),
        Some(DecodeError::InvalidBodyLength)
    );
}

#[test]
fn test_decode_body_length_overflow_zero_padded_tag() {
    // `parse_tag` folds digits numerically, so "009" is tag 9 here too.
    let msg = frame_with_body_length(&usize::MAX.to_string(), "009");
    assert_eq!(
        Decoder::new(&msg).decode().err(),
        Some(DecodeError::InvalidBodyLength)
    );
}

#[test]
fn test_decode_rejects_body_length_mismatch() {
    let msg = frame_with_body_length("5", "9");
    assert_eq!(
        Decoder::new(&msg).decode().err(),
        Some(DecodeError::InvalidBodyLength)
    );
}

#[test]
fn test_decode_accepts_correct_body_length() {
    let body = b"35=0\x0149=A\x0156=B\x0134=1\x0152=20240329-12:00:00\x01";
    let msg = frame_with_body_length(&body.len().to_string(), "9");
    let Ok(decoded) = Decoder::new(&msg).decode() else {
        panic!("valid frame must decode");
    };
    assert_eq!(*decoded.msg_type(), MsgType::Heartbeat);
}

#[test]
fn test_decode_unrecognised_msg_type_becomes_custom() {
    // The whole point of the bounded `Custom`: a vendor-specific MsgType
    // decodes into inline storage instead of a per-message heap allocation.
    let body = b"35=U7\x0149=A\x0156=B\x0134=1\x01";
    let msg = build_frame(body);
    let Ok(decoded) = Decoder::new(&msg).decode() else {
        panic!("a representable custom MsgType must decode");
    };
    assert_eq!(decoded.msg_type().as_str(), "U7");
    assert!(matches!(decoded.msg_type(), MsgType::Custom(_)));
}

#[test]
fn test_decode_msg_type_at_the_bound_is_accepted() {
    let body = b"35=U9999999\x0149=A\x0156=B\x0134=1\x01";
    let msg = build_frame(body);
    let Ok(decoded) = Decoder::new(&msg).decode() else {
        panic!("a MSG_TYPE_MAX_LEN-byte MsgType must decode");
    };
    assert_eq!(decoded.msg_type().as_str(), "U9999999");
}

#[test]
fn test_decode_over_long_msg_type_is_typed_error() {
    // One byte past MSG_TYPE_MAX_LEN. Truncating it would hand the session
    // layer a different, valid MsgType.
    let body = b"35=U99999999\x0149=A\x0156=B\x0134=1\x01";
    let msg = build_frame(body);
    assert_eq!(
        Decoder::new(&msg).decode().err(),
        Some(DecodeError::InvalidMsgType(MsgTypeError::TooLong {
            len: 9,
            max_len: MSG_TYPE_MAX_LEN,
        }))
    );
}

#[test]
fn test_decode_empty_msg_type_is_typed_error() {
    let body = b"35=\x0149=A\x0156=B\x0134=1\x01";
    let msg = build_frame(body);
    assert_eq!(
        Decoder::new(&msg).decode().err(),
        Some(DecodeError::InvalidMsgType(MsgTypeError::Empty))
    );
}

#[test]
fn test_decode_msg_type_with_embedded_equals_is_accepted() {
    // `35=A=B` scans as the value "A=B": a field splits on its *first* `=`
    // only, and `=` is legal inside a FIX value, so this is a valid
    // (bilateral) MsgType that must round-trip verbatim rather than be
    // rejected. It is written back into tag 35 unchanged.
    let body = b"35=A=B\x0149=A\x0156=B\x0134=1\x01";
    let msg = build_frame(body);
    let Ok(decoded) = Decoder::new(&msg).decode() else {
        panic!("a MsgType containing `=` must decode");
    };
    assert_eq!(decoded.msg_type().as_str(), "A=B");
}

#[test]
fn test_decode_checksum_field_start_with_padded_tag() {
    // Trailing checksum written as "010=" must still checksum the same span.
    let body = b"35=0\x0149=A\x0156=B\x0134=1\x0152=20240329-12:00:00\x01";
    let mut msg = Vec::new();
    msg.extend_from_slice(b"8=FIX.4.4\x01");
    msg.extend_from_slice(format!("9={}\x01", body.len()).as_bytes());
    msg.extend_from_slice(body);
    let sum: u64 = msg.iter().map(|&b| u64::from(b)).sum();
    msg.extend_from_slice(format!("010={:03}\x01", (sum % 256) as u8).as_bytes());
    assert!(Decoder::new(&msg).decode().is_ok());
}

#[test]
fn test_decode_mid_body_checksum_out_of_range_is_rejected() {
    // A duplicate/injected `10=624` must not overflow the checksum parser.
    let body = b"35=0\x0110=624\x0149=A\x01";
    let mut msg = Vec::new();
    msg.extend_from_slice(b"8=FIX.4.4\x01");
    msg.extend_from_slice(format!("9={}\x01", body.len()).as_bytes());
    msg.extend_from_slice(body);
    msg.extend_from_slice(b"10=000\x01");
    assert!(Decoder::new(&msg).decode().is_err());
}

#[test]
fn test_decode_two_consecutive_frames_are_both_correct() {
    let first_body: &[u8] = b"35=0\x0149=A\x0156=B\x01";
    let second_body: &[u8] = b"35=A\x0149=CCCC\x0156=DDDD\x01";
    let first_frame = build_frame(first_body);
    let second_frame = build_frame(second_body);

    let mut input = first_frame.clone();
    input.extend_from_slice(&second_frame);

    let mut decoder = Decoder::new(&input);

    let Ok(first) = decoder.decode() else {
        panic!("first frame must decode");
    };
    assert_eq!(first.begin_string(), Ok("FIX.4.4"));
    assert_eq!(*first.msg_type(), MsgType::Heartbeat);
    assert_eq!(first.body(), Ok(first_body));
    assert_eq!(first.len(), first_frame.len());

    let Ok(second) = decoder.decode() else {
        panic!("second frame must decode");
    };
    assert_eq!(second.begin_string(), Ok("FIX.4.4"));
    assert_eq!(*second.msg_type(), MsgType::Logon);
    assert_eq!(second.body(), Ok(second_body));
    assert_eq!(second.len(), second_frame.len());

    // Both bodies must start after "8=FIX.4.4<SOH>9=<len><SOH>".
    let expected_start = 10 + format!("9={}\x01", second_body.len()).len();
    assert_eq!(
        *second.body_range(),
        expected_start..expected_start + second_body.len()
    );

    assert!(decoder.is_empty());
}

#[test]
fn test_decode_begin_string_invalid_utf8_is_typed_error() {
    let msg = build_frame_with_begin_string(b"FIX\xff\xfe4", b"35=0\x01");
    let Ok(decoded) = Decoder::new(&msg).decode() else {
        panic!("frame with non-utf8 BeginString still frames");
    };
    assert!(matches!(
        decoded.begin_string(),
        Err(DecodeError::InvalidUtf8(_))
    ));
}

#[test]
fn test_decode_raw_data_with_embedded_soh_and_equals_roundtrips() {
    // 7 bytes carrying both an SOH and an '=' inside the value.
    let raw_data: &[u8] = b"a\x01b=c\x01d";
    let mut body = Vec::new();
    body.extend_from_slice(b"35=A\x01");
    body.extend_from_slice(b"95=7\x01");
    body.extend_from_slice(b"96=");
    body.extend_from_slice(raw_data);
    body.push(SOH);
    body.extend_from_slice(b"58=after\x01");
    let msg = build_frame(&body);

    let Ok(decoded) = Decoder::new(&msg).decode() else {
        panic!("frame with RawData must decode");
    };
    let Some(field) = decoded.get_field(96) else {
        panic!("RawData field must be present");
    };
    assert_eq!(field.value, raw_data);
    // No phantom fields injected from inside the payload.
    assert!(decoded.get_field(98).is_none());
    assert_eq!(decoded.get_field_str(58), Some("after"));
    // 8, 9, 35, 95, 96, 58
    assert_eq!(decoded.field_count(), 6);
}

#[test]
fn test_decode_post_fix44_data_field_with_embedded_soh_roundtrips() {
    // 1397/1398 EncodedMktSegmDescLen / EncodedMktSegmDesc, added in
    // FIX 5.0 SP1: before the table covered it the payload's SOH split the
    // value and "9=999" was read as a second BodyLength field.
    let encoded: &[u8] = b"seg\x019=999\x01x";
    let mut body = Vec::new();
    body.extend_from_slice(b"35=A\x01");
    body.extend_from_slice(format!("1397={}\x01", encoded.len()).as_bytes());
    body.extend_from_slice(b"1398=");
    body.extend_from_slice(encoded);
    body.push(SOH);
    body.extend_from_slice(b"58=after\x01");
    let msg = build_frame(&body);

    let Ok(decoded) = Decoder::new(&msg).decode() else {
        panic!("frame with EncodedMktSegmDesc must decode");
    };
    assert_eq!(decoded.get_field(1398).map(|f| f.value), Some(encoded));
    assert_eq!(decoded.get_field_str(58), Some("after"));
    // 8, 9, 35, 1397, 1398, 58 — no phantom field from inside the payload.
    assert_eq!(decoded.field_count(), 6);
}

#[test]
fn test_decode_five_digit_data_field_with_embedded_soh_roundtrips() {
    // 43111/42982 UnderlyingPaymentStreamFormulaLength /
    // UnderlyingPaymentStreamFormula: a FIX 5.0 SP2 pair in the 40000+
    // band whose length tag is numerically above its data tag.
    let formula: &[u8] = b"<f a=\"1\"/>\x01<g/>";
    let mut body = Vec::new();
    body.extend_from_slice(b"35=A\x01");
    body.extend_from_slice(format!("43111={}\x01", formula.len()).as_bytes());
    body.extend_from_slice(b"42982=");
    body.extend_from_slice(formula);
    body.push(SOH);
    body.extend_from_slice(b"58=after\x01");
    let msg = build_frame(&body);

    let Ok(decoded) = Decoder::new(&msg).decode() else {
        panic!("frame with UnderlyingPaymentStreamFormula must decode");
    };
    assert_eq!(decoded.get_field(42982).map(|f| f.value), Some(formula));
    assert_eq!(decoded.get_field_str(58), Some("after"));
    assert_eq!(decoded.field_count(), 6);
}

#[test]
fn test_decode_post_fix44_data_field_truncated_payload_is_typed_error() {
    // The hardening the table buys applies to the new pairs too: a count
    // reaching past the body is rejected, not silently clamped.
    let msg = build_frame(b"35=A\x011401=20\x011402=abc\x01");

    assert_eq!(
        Decoder::new(&msg).decode().err(),
        Some(DecodeError::InvalidDataLength {
            data_tag: 1402,
            declared: 20,
            available: 4,
        })
    );
}

#[test]
fn test_decode_raw_data_truncated_payload_is_typed_error() {
    // Declares 20 bytes but only 3 are present before the terminator.
    let mut body = Vec::new();
    body.extend_from_slice(b"35=A\x0195=20\x0196=abc\x01");
    let msg = build_frame(&body);

    assert_eq!(
        Decoder::new(&msg).decode().err(),
        // `available` is scoped to the frame's declared body, not to the
        // rest of the buffer: 4 bytes of body remain after "96=".
        Some(DecodeError::InvalidDataLength {
            data_tag: 96,
            declared: 20,
            available: 4,
        })
    );
}

#[test]
fn test_decode_data_count_cannot_swallow_the_checksum_field() {
    // A count-framed DATA value whose declared length reaches past the body
    // and lands on the SOH before "10=" would consume the trailer: no tag 10
    // is then found, and with checksum validation off the frame would decode
    // with the trailer bytes injected into the DATA value. The count is
    // bounded by the declared body end, so this is rejected on both paths.
    // BodyLength counts "35=A|95=8|96=x|" = 15 bytes, and the checksum is
    // correct for the frame, so nothing but the count is malformed.
    let body: &[u8] = b"35=A\x0195=8\x0196=x\x01";
    let msg = build_frame(body);

    for validate in [true, false] {
        let result = Decoder::new(&msg)
            .with_checksum_validation(validate)
            .decode();
        assert!(
            matches!(
                result,
                Err(DecodeError::InvalidDataLength { data_tag: 96, .. })
            ),
            "validate_checksum={validate} must reject the swallowed trailer, got {result:?}"
        );
    }
}

#[test]
fn test_decode_missing_checksum_field_is_error_without_validation() {
    // The CheckSum field is structural: a frame that never emits tag 10 must
    // be rejected even when checksum validation is disabled.
    let mut msg = Vec::new();
    msg.extend_from_slice(b"8=FIX.4.4\x01");
    msg.extend_from_slice(b"9=5\x01");
    msg.extend_from_slice(b"35=0\x01");

    assert_eq!(
        Decoder::new(&msg)
            .with_checksum_validation(false)
            .decode()
            .err(),
        Some(DecodeError::Incomplete)
    );
}

#[test]
fn test_decode_raw_data_hostile_length_is_typed_error() {
    // A count far beyond the buffer must be rejected by a bounds probe,
    // never by allocating `declared` bytes.
    let mut body = Vec::new();
    body.extend_from_slice(b"35=A\x0195=4294967295\x0196=abc\x01");
    let msg = build_frame(&body);

    assert!(matches!(
        Decoder::new(&msg).decode(),
        Err(DecodeError::InvalidDataLength {
            data_tag: 96,
            declared: 4_294_967_295,
            ..
        })
    ));
}

#[test]
fn test_decode_raw_data_length_mismatch_not_on_soh_is_rejected() {
    // Declares 2 bytes for a 3-byte payload: the declared end is not SOH.
    let msg = build_frame(b"35=A\x0195=2\x0196=abc\x01");
    assert!(matches!(
        Decoder::new(&msg).decode(),
        Err(DecodeError::InvalidDataLength { data_tag: 96, .. })
    ));
}

#[test]
fn test_decode_non_numeric_length_field_is_typed_error() {
    let msg = build_frame(b"35=A\x0195=abc\x0196=x\x01");
    assert!(matches!(
        Decoder::new(&msg).decode(),
        Err(DecodeError::InvalidFieldValue { tag: 95, .. })
    ));
}

#[test]
fn test_decode_length_field_not_followed_by_its_data_field_parses_normally() {
    // Framing by count only applies to the paired DATA tag; anything else
    // falls back to the normal SOH scan without fabricating a field.
    let msg = build_frame(b"35=A\x0195=7\x0158=text\x01");
    let Ok(decoded) = Decoder::new(&msg).decode() else {
        panic!("frame must decode");
    };
    assert_eq!(decoded.get_field_str(58), Some("text"));
    assert_eq!(decoded.get_field_str(95), Some("7"));
}

#[test]
fn test_decode_zero_length_data_field_is_accepted() {
    let msg = build_frame(b"35=A\x0195=0\x0196=\x0158=after\x01");
    let Ok(decoded) = Decoder::new(&msg).decode() else {
        panic!("frame with empty RawData must decode");
    };
    let Some(field) = decoded.get_field(96) else {
        panic!("RawData field must be present");
    };
    assert!(field.value.is_empty());
    assert_eq!(decoded.get_field_str(58), Some("after"));
}

#[test]
fn test_decode_trailing_garbage_without_checksum_validation_is_error() {
    let mut msg = b"8=FIX.4.4\x019=5\x0135=0\x01".to_vec();
    msg.extend_from_slice(b"garbage-no-equals");

    let result = Decoder::new(&msg).with_checksum_validation(false).decode();
    assert!(matches!(result, Err(DecodeError::InvalidTag(_))));
}

#[test]
fn test_decode_trailing_unterminated_field_without_checksum_validation_is_error() {
    let mut msg = b"8=FIX.4.4\x019=5\x0135=0\x01".to_vec();
    msg.extend_from_slice(b"58=unterminated");

    let result = Decoder::new(&msg).with_checksum_validation(false).decode();
    assert_eq!(
        result.err(),
        Some(DecodeError::UnterminatedField { tag: 58 })
    );
}

#[test]
fn test_decode_body_length_with_leading_sign_is_rejected() {
    // FIX types tag 9 as a digits-only Length. `str::parse` accepted "+8",
    // so a frame whose declared length carried a sign framed cleanly.
    for text in ["+8", "-8", " 8", "8 ", "0x8", ""] {
        let msg = frame_with_body_length(text, "9");
        assert_eq!(
            Decoder::new(&msg).decode().err(),
            Some(DecodeError::InvalidBodyLength),
            "9={text:?} must be rejected"
        );
    }
}

#[test]
fn test_decode_body_length_non_utf8_is_invalid_body_length() {
    let mut msg = Vec::new();
    msg.extend_from_slice(b"8=FIX.4.4\x01");
    msg.extend_from_slice(b"9=\xff\xfe\x01");
    msg.extend_from_slice(b"35=0\x0110=000\x01");
    assert_eq!(
        Decoder::new(&msg).decode().err(),
        Some(DecodeError::InvalidBodyLength)
    );
}

#[test]
fn test_decode_body_length_with_too_many_digits_is_rejected() {
    let msg = frame_with_body_length("00000000008", "9");
    assert_eq!(
        Decoder::new(&msg).decode().err(),
        Some(DecodeError::InvalidBodyLength)
    );
}

#[test]
fn test_decode_first_tag_not_8_is_invalid_begin_string() {
    let msg = b"9=5\x018=FIX.4.4\x0135=0\x0110=000\x01";
    assert_eq!(
        Decoder::new(msg).decode().err(),
        Some(DecodeError::InvalidBeginString)
    );
}

#[test]
fn test_decode_second_tag_not_9_is_missing_body_length() {
    let msg = b"8=FIX.4.4\x0135=0\x0110=000\x01";
    assert_eq!(
        Decoder::new(msg).decode().err(),
        Some(DecodeError::MissingBodyLength)
    );
}

#[test]
fn test_decode_body_length_only_is_missing_msg_type() {
    // Nothing after the header at all: the body is empty and there is no
    // third field to read a MsgType from.
    let msg = b"8=FIX.4.4\x019=0\x01";
    assert_eq!(
        Decoder::new(msg).decode().err(),
        Some(DecodeError::MissingMsgType)
    );
}

#[test]
fn test_decode_third_tag_not_35_is_missing_msg_type() {
    let body = b"49=A\x0135=0\x01";
    let msg = build_frame(body);
    assert_eq!(
        Decoder::new(&msg).decode().err(),
        Some(DecodeError::MissingMsgType)
    );
}

#[test]
fn test_decode_wrong_checksum_is_checksum_mismatch() {
    let body: &[u8] = b"35=0\x0149=A\x0156=B\x01";
    let mut msg = Vec::new();
    msg.extend_from_slice(b"8=FIX.4.4\x01");
    msg.extend_from_slice(format!("9={}\x01", body.len()).as_bytes());
    msg.extend_from_slice(body);
    let sum: u64 = msg.iter().map(|&b| u64::from(b)).sum();
    let declared = ((sum % 256) as u8) ^ 0x01;
    msg.extend_from_slice(format!("10={declared:03}\x01").as_bytes());

    assert_eq!(
        Decoder::new(&msg).decode().err(),
        Some(DecodeError::ChecksumMismatch {
            calculated: (sum % 256) as u8,
            declared,
        })
    );
}

#[test]
fn test_decode_out_of_range_checksum_is_typed_error() {
    let body: &[u8] = b"35=0\x0149=A\x01";
    let mut msg = Vec::new();
    msg.extend_from_slice(b"8=FIX.4.4\x01");
    msg.extend_from_slice(format!("9={}\x01", body.len()).as_bytes());
    msg.extend_from_slice(body);
    // 999 does not fit in a u8 and must not wrap to 231.
    msg.extend_from_slice(b"10=999\x01");

    assert!(matches!(
        Decoder::new(&msg).decode(),
        Err(DecodeError::InvalidFieldValue { tag: 10, .. })
    ));
}

#[test]
fn test_decode_wrong_checksum_is_accepted_without_validation() {
    // The production path (`with_checksum_validation(false)`, used by the
    // engine after the codec has already verified the frame) ignores the
    // checksum *value* — but the BodyLength cross-check still binds.
    let body: &[u8] = b"35=0\x0149=A\x0156=B\x01";
    let mut msg = Vec::new();
    msg.extend_from_slice(b"8=FIX.4.4\x01");
    msg.extend_from_slice(format!("9={}\x01", body.len()).as_bytes());
    msg.extend_from_slice(body);
    msg.extend_from_slice(b"10=000\x01");

    let Ok(decoded) = Decoder::new(&msg).with_checksum_validation(false).decode() else {
        panic!("a wrong checksum must not stop the validation-off path");
    };
    assert_eq!(*decoded.msg_type(), MsgType::Heartbeat);
    assert_eq!(decoded.body(), Ok(body));

    // Same frame, BodyLength one byte short.
    let mut short = Vec::new();
    short.extend_from_slice(b"8=FIX.4.4\x01");
    short.extend_from_slice(format!("9={}\x01", body.len() - 1).as_bytes());
    short.extend_from_slice(body);
    short.extend_from_slice(b"10=000\x01");
    assert_eq!(
        Decoder::new(&short)
            .with_checksum_validation(false)
            .decode()
            .err(),
        Some(DecodeError::InvalidBodyLength)
    );
}

#[test]
fn test_is_data_tag_matches_the_spec_table() {
    for (length_tag, data_tag) in LENGTH_DATA_PAIRS {
        assert!(is_data_tag(data_tag), "tag {data_tag} is a DATA field");
        assert!(
            !is_data_tag(length_tag),
            "tag {length_tag} is a LENGTH field, not a DATA field"
        );
    }
    let data_tags: Vec<u32> = LENGTH_DATA_PAIRS.iter().map(|(_, data)| *data).collect();
    for tag in candidate_tags() {
        if !data_tags.contains(&tag) {
            assert!(!is_data_tag(tag), "tag {tag} must not be a DATA field");
        }
    }
}

#[test]
fn test_decode_empty_buffer_is_incomplete() {
    assert_eq!(
        Decoder::new(b"").decode().err(),
        Some(DecodeError::Incomplete)
    );
}

#[test]
fn test_reset_clears_pending_data_state() {
    let msg = build_frame(b"35=A\x0195=7\x0196=a\x01b=c\x01d\x01");
    let mut decoder = Decoder::new(&msg);
    assert!(decoder.decode().is_ok());
    decoder.reset();
    assert!(decoder.decode().is_ok());
}
