//! FAST field operators.

use ironfix::fast::{DictionaryValue, FieldTransfer, Operator, PresenceMap};

#[test]
fn test_operator_uses_dictionary() {
    assert!(!Operator::NoOperator.uses_dictionary());
    assert!(!Operator::Constant.uses_dictionary());
    assert!(!Operator::Default.uses_dictionary());
    assert!(Operator::Copy.uses_dictionary());
    assert!(Operator::Increment.uses_dictionary());
    assert!(Operator::Delta.uses_dictionary());
    assert!(Operator::Tail.uses_dictionary());
}

/// Every operator, so a new one cannot be added without the matrix tests
/// below failing to cover it.
const ALL_OPERATORS: [Operator; 7] = [
    Operator::NoOperator,
    Operator::Constant,
    Operator::Default,
    Operator::Copy,
    Operator::Increment,
    Operator::Delta,
    Operator::Tail,
];

#[test]
fn test_operator_requires_pmap_matches_the_fast_matrix() {
    // (operator, mandatory answer, optional answer).
    let matrix: [(Operator, bool, bool); 7] = [
        // No operator: the value is always in the stream.
        (Operator::NoOperator, false, false),
        // Constant: a bit only when optional, to say present or absent.
        (Operator::Constant, false, true),
        // Default: the bit selects stream value or initial value.
        (Operator::Default, true, true),
        // Copy: the bit selects stream value or previous value.
        (Operator::Copy, true, true),
        // Increment: the bit selects stream value or previous value + 1.
        (Operator::Increment, true, true),
        // Delta: the delta is always in the stream; absence is a NULL delta.
        (Operator::Delta, false, false),
        // Tail: the bit selects a tail in the stream or the previous value.
        (Operator::Tail, true, true),
    ];

    assert_eq!(
        matrix.len(),
        ALL_OPERATORS.len(),
        "the matrix must cover every operator"
    );

    for (operator, mandatory, optional) in matrix {
        assert_eq!(
            operator.requires_pmap(false),
            mandatory,
            "{operator:?} mandatory"
        );
        assert_eq!(
            operator.requires_pmap(true),
            optional,
            "{operator:?} optional"
        );
    }
}

#[test]
fn test_operator_can_be_absent_matches_the_fast_matrix() {
    // "Absent" is "not transferred": constant never travels, delta and a
    // field with no operator always do, the rest depend on their bit.
    let matrix: [(Operator, bool); 7] = [
        (Operator::NoOperator, false),
        (Operator::Constant, true),
        (Operator::Default, true),
        (Operator::Copy, true),
        (Operator::Increment, true),
        (Operator::Delta, false),
        (Operator::Tail, true),
    ];

    for (operator, expected) in matrix {
        assert_eq!(operator.can_be_absent(), expected, "{operator:?}");
    }
}

#[test]
fn test_operator_transfer_consumes_exactly_the_bits_requires_pmap_claims() {
    // The invariant the whole positional presence map rests on: `transfer`
    // advances the map by one bit when `requires_pmap` says so and by none
    // otherwise, for every operator and both optionalities.
    for operator in ALL_OPERATORS {
        for optional in [false, true] {
            let mut pmap = PresenceMap::from_bits(vec![true, true]);
            assert!(
                operator.transfer(optional, &mut pmap).is_ok(),
                "{operator:?} optional={optional}"
            );

            let expected = usize::from(operator.requires_pmap(optional));
            assert_eq!(
                pmap.position(),
                expected,
                "{operator:?} optional={optional} consumed the wrong number of bits"
            );
        }
    }
}

#[test]
fn test_operator_transfer_resolves_the_source_of_the_value() {
    // (operator, optional, bit, expected source)
    let cases: [(Operator, bool, bool, FieldTransfer); 12] = [
        // No operator and delta ignore the map entirely.
        (Operator::NoOperator, false, false, FieldTransfer::Stream),
        (Operator::NoOperator, true, false, FieldTransfer::Stream),
        (Operator::Delta, false, false, FieldTransfer::Stream),
        (Operator::Delta, true, false, FieldTransfer::Stream),
        // A mandatory constant is fully determined by the template.
        (
            Operator::Constant,
            false,
            false,
            FieldTransfer::InitialValue,
        ),
        // An optional constant uses its bit to say present or absent.
        (Operator::Constant, true, true, FieldTransfer::InitialValue),
        (Operator::Constant, true, false, FieldTransfer::Absent),
        // Default falls back to the initial value.
        (Operator::Default, false, true, FieldTransfer::Stream),
        (Operator::Default, false, false, FieldTransfer::InitialValue),
        // The stateful operators fall back to the dictionary.
        (Operator::Copy, false, false, FieldTransfer::Dictionary),
        (Operator::Increment, true, false, FieldTransfer::Dictionary),
        (Operator::Tail, false, true, FieldTransfer::Stream),
    ];

    for (operator, optional, bit, expected) in cases {
        let mut pmap = PresenceMap::from_bits(vec![bit]);
        assert_eq!(
            operator.transfer(optional, &mut pmap),
            Ok(expected),
            "{operator:?} optional={optional} bit={bit}"
        );
    }
}

#[test]
fn test_operator_transfer_past_the_encoded_map_reads_as_absent() {
    // A bit past the encoded presence map is the implied
    // zero suffix — absent — not a truncation error. A Copy field with an
    // empty map therefore falls back to the dictionary, without error, and
    // the exhausted map does not advance.
    let mut pmap = PresenceMap::new();
    assert_eq!(
        Operator::Copy.transfer(false, &mut pmap),
        Ok(FieldTransfer::Dictionary)
    );
    assert_eq!(
        pmap.position(),
        0,
        "the implied zero suffix does not advance the map"
    );

    // An optional constant past the end is likewise absent, not an error.
    let mut pmap = PresenceMap::new();
    assert_eq!(
        Operator::Constant.transfer(true, &mut pmap),
        Ok(FieldTransfer::Absent)
    );

    // The operators that own no bit are unaffected by an empty map.
    let mut pmap = PresenceMap::new();
    assert_eq!(
        Operator::Delta.transfer(true, &mut pmap),
        Ok(FieldTransfer::Stream)
    );
}

#[test]
fn test_operator_transfer_eight_plus_fields_over_one_byte_map_honours_zero_suffix() {
    // A conformant peer whose trailing pmap-owning fields are absent emits a
    // legal one-byte (seven data-bit) presence map. A template with ten Copy
    // fields must decode it: the seven encoded bits drive the first seven
    // fields, and the remaining three read the implied zero suffix as absent
    // — with no `PresenceMapExhausted`.
    //
    // 0b1101_0101: stop bit set, payload bits (6..0) = 1_0_1_0_1_0_1.
    let data = [0b1101_0101];
    let mut offset = 0;
    let decoded = PresenceMap::decode(&data, &mut offset);
    assert!(decoded.is_ok());

    if let Ok(mut pmap) = decoded {
        // A Copy field is `Stream` on a set bit and `Dictionary` on a clear
        // or implied-zero bit. The first seven entries are the encoded bits;
        // the last three are the implied zero suffix.
        let expected = [
            FieldTransfer::Stream,     // bit 1
            FieldTransfer::Dictionary, // bit 0
            FieldTransfer::Stream,     // bit 1
            FieldTransfer::Dictionary, // bit 0
            FieldTransfer::Stream,     // bit 1
            FieldTransfer::Dictionary, // bit 0
            FieldTransfer::Stream,     // bit 1
            FieldTransfer::Dictionary, // implied zero
            FieldTransfer::Dictionary, // implied zero
            FieldTransfer::Dictionary, // implied zero
        ];

        for (index, want) in expected.iter().enumerate() {
            assert_eq!(
                Operator::Copy.transfer(false, &mut pmap),
                Ok(*want),
                "field {index} on a legal one-byte map"
            );
        }

        // Only the seven encoded bits were consumed; the implied suffix does
        // not advance the map past its end.
        assert_eq!(pmap.position(), 7, "only the encoded bits are consumed");
    }
}

#[test]
fn test_dictionary_value() {
    let undefined = DictionaryValue::Undefined;
    assert!(undefined.is_undefined());

    let int_val = DictionaryValue::Int(42);
    assert_eq!(int_val.as_i64(), Some(42));

    let str_val = DictionaryValue::String("test".to_string());
    assert_eq!(str_val.as_str(), Some("test"));
}

#[test]
fn test_dictionary_value_integer_accessors_read_across_both_variants() {
    // A copy or increment operator must be able to read back a value it
    // stored, whichever integer variant the writer chose.
    assert_eq!(DictionaryValue::Int(42).as_u64(), Some(42));
    assert_eq!(DictionaryValue::UInt(42).as_i64(), Some(42));
}

#[test]
fn test_dictionary_value_integer_accessors_reject_out_of_range_values() {
    // Out of range is `None`, never a wrapped number.
    assert_eq!(DictionaryValue::Int(-1).as_u64(), None);
    assert_eq!(DictionaryValue::UInt(u64::MAX).as_i64(), None);

    // The boundary itself is representable in both directions.
    assert_eq!(DictionaryValue::Int(0).as_u64(), Some(0));
    assert_eq!(
        DictionaryValue::Int(i64::MAX).as_u64(),
        Some(i64::MAX as u64)
    );
    assert_eq!(
        DictionaryValue::UInt(i64::MAX as u64).as_i64(),
        Some(i64::MAX)
    );
}

#[test]
fn test_dictionary_value_byte_and_decimal_accessors() {
    assert_eq!(
        DictionaryValue::Bytes(vec![1, 2, 3]).as_bytes(),
        Some(&[1, 2, 3][..])
    );
    assert_eq!(
        DictionaryValue::String("ab".to_string()).as_bytes(),
        Some(&b"ab"[..])
    );
    assert_eq!(
        DictionaryValue::Decimal(1234, -2).as_decimal(),
        Some((1234, -2))
    );
    assert_eq!(DictionaryValue::Undefined.as_decimal(), None);
    assert_eq!(DictionaryValue::Empty.as_bytes(), None);
}
