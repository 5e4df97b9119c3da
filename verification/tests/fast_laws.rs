//! What the FAST encoder and decoder promise together.

use ironfix::fast::decoder::MAX_INT_ENCODED_LEN;
use ironfix::fast::{
    DictionaryScope, DictionaryValue, FastDecoder, FastEncoder, FieldTransfer, Operator,
    PresenceMap, PresenceMapBuilder,
};

#[test]
fn values_read_back_one_after_the_other() {
    let mut encoder = FastEncoder::new();
    encoder.encode_uint(942);
    encoder.encode_int(-8193);
    assert_eq!(encoder.encode_nullable_uint(None), Ok(()));
    assert_eq!(encoder.encode_nullable_int(Some(i64::MIN)), Ok(()));
    assert_eq!(encoder.encode_ascii("EURUSD"), Ok(()));
    assert_eq!(encoder.encode_nullable_ascii(Some("")), Ok(()));
    encoder.encode_bytes(&[0x80, 0, 1]);
    assert_eq!(encoder.encode_nullable_bytes(Some(&[])), Ok(()));
    let data = encoder.finish();

    let mut offset = 0;
    assert_eq!(FastDecoder::decode_uint(&data, &mut offset), Ok(942));
    assert_eq!(FastDecoder::decode_int(&data, &mut offset), Ok(-8193));
    assert_eq!(
        FastDecoder::decode_nullable_uint(&data, &mut offset),
        Ok(None)
    );
    assert_eq!(
        FastDecoder::decode_nullable_int(&data, &mut offset),
        Ok(Some(i64::MIN))
    );
    assert_eq!(
        FastDecoder::decode_ascii(&data, &mut offset),
        Ok("EURUSD".to_string())
    );
    assert_eq!(
        FastDecoder::decode_nullable_ascii(&data, &mut offset),
        Ok(Some(String::new()))
    );
    assert_eq!(
        FastDecoder::decode_bytes(&data, &mut offset),
        Ok(&[0x80, 0, 1][..])
    );
    assert_eq!(
        FastDecoder::decode_nullable_bytes(&data, &mut offset),
        Ok(Some(&[][..]))
    );
    assert_eq!(offset, data.len());
}

#[test]
fn a_padded_integer_is_read_and_the_encoder_writes_a_shorter_one() {
    let padded = [0x00, 0x00, 0x81];
    let mut offset = 0;
    assert_eq!(FastDecoder::decode_uint(&padded, &mut offset), Ok(1));
    let mut encoder = FastEncoder::new();
    encoder.encode_uint(1);
    assert!(encoder.len() < offset);
}

#[test]
fn a_map_that_was_shortened_keeps_the_fields_aligned() {
    let mut bits = vec![false; 100];
    bits[3] = true;
    bits[9] = true;
    let mut sent = PresenceMap::from_bits(bits.clone());
    let Ok(encoded) = sent.encode() else {
        panic!("the map must encode");
    };
    assert_eq!(encoded.len(), 2);
    let mut offset = 0;
    let Ok(mut read) = PresenceMap::decode(&encoded, &mut offset) else {
        panic!("the map must decode");
    };
    for (index, bit) in bits.iter().enumerate() {
        assert_eq!(read.bit(index).unwrap_or(false), *bit);
    }
    let template = [
        (Operator::Copy, false),
        (Operator::NoOperator, true),
        (Operator::Constant, true),
        (Operator::Constant, false),
        (Operator::Default, false),
        (Operator::Increment, true),
        (Operator::Delta, true),
        (Operator::Tail, false),
    ];
    for _ in 0..20 {
        for (operator, optional) in template {
            assert_eq!(
                operator.transfer(optional, &mut read),
                operator.transfer(optional, &mut sent)
            );
        }
    }
    assert_eq!(read.position(), 14);
    assert_eq!(sent.position(), 100);
}

#[test]
fn a_map_may_hold_more_bits_than_fit_inline() {
    let mut builder = PresenceMapBuilder::new();
    for index in 0..200 {
        builder = builder.bit(index % 3 == 0);
    }
    let map = builder.build();
    let copy = map.clone();
    assert_eq!(map, copy);
    assert_eq!(map.len(), 200);
    assert_eq!(map.bit(198), Some(true));
    assert_eq!(map.bit(199), Some(false));
    assert_eq!(map.bit(200), None);
}

#[test]
fn a_field_without_a_bit_leaves_the_map_alone() {
    let mut map = PresenceMap::from_bits(vec![true]);
    assert_eq!(
        Operator::Constant.transfer(false, &mut map),
        Ok(FieldTransfer::InitialValue)
    );
    assert_eq!(map.position(), 0);
    assert_eq!(
        Operator::Constant.transfer(true, &mut map),
        Ok(FieldTransfer::InitialValue)
    );
    assert_eq!(map.position(), 1);
}

#[test]
fn dictionaries_keep_templates_apart() {
    let mut decoder = FastDecoder::new();
    decoder.set_template(1, "price", DictionaryValue::Int(10));
    decoder.set_template(2, "price", DictionaryValue::Int(20));
    decoder.set_global("price", DictionaryValue::Empty);
    decoder.set_template(1, "price", DictionaryValue::Int(11));
    let price = |decoder: &FastDecoder, template_id: u32| {
        decoder
            .get_template(template_id, "price")
            .and_then(DictionaryValue::as_i64)
    };
    assert_eq!(price(&decoder, 1), Some(11));
    assert_eq!(price(&decoder, 2), Some(20));
    assert!(decoder.get_template(3, "price").is_none());
    assert!(decoder.get_template(1, "size").is_none());
    assert_eq!(
        decoder.get_global("price").map(DictionaryValue::is_empty),
        Some(true)
    );
    decoder.reset();
    assert!(decoder.get_template(1, "price").is_none());
}

#[test]
fn defaults_are_no_operator_and_the_global_dictionary() {
    assert_eq!(Operator::default(), Operator::NoOperator);
    assert_eq!(DictionaryScope::default(), DictionaryScope::Global);
    assert!(DictionaryValue::default().is_undefined());
    assert!(DictionaryValue::Empty.is_empty());
}

#[test]
fn a_string_was_read_as_the_encoder_writes_it() {
    let encoded = [0x00, 0x80, 0x80, b'H', 0x80 | b'i'];
    let mut offset = 0;
    for text in ["\0", "", "Hi"] {
        let start = offset;
        assert_eq!(
            FastDecoder::decode_ascii(&encoded, &mut offset),
            Ok(text.to_string())
        );
        let mut encoder = FastEncoder::new();
        assert_eq!(encoder.encode_ascii(text), Ok(()));
        assert_eq!(encoder.as_bytes(), &encoded[start..offset]);
    }
    assert_eq!(offset, encoded.len());
}

#[test]
fn a_reader_that_fails_stays_in_its_data() {
    for data in [vec![0u8; 3], vec![0u8; 40], vec![0x7f; 40], vec![0x7f, 0xff, 1]] {
        let mut offset = 0;
        assert!(FastDecoder::decode_uint(&data, &mut offset).is_err() || offset == 2);
        assert!(offset <= MAX_INT_ENCODED_LEN && offset <= data.len());
        offset = 0;
        assert!(FastDecoder::decode_bytes(&data, &mut offset).is_err());
        assert!(offset <= data.len());
        offset = 0;
        assert!(FastDecoder::decode_ascii(&data, &mut offset).is_err() || offset == 2);
        assert!(offset <= data.len());
    }
}

#[test]
fn refused_fields_leave_no_trace_between_the_others() {
    let mut encoder = FastEncoder::new();
    encoder.encode_uint(7);
    assert!(encoder.encode_ascii("é").is_err());
    assert!(encoder.encode_nullable_int(Some(i64::MAX)).is_err());
    encoder.encode_int(-1);
    assert!(encoder.encode_nullable_ascii(Some("é")).is_err());
    encoder.encode_bytes(b"ab");
    assert_eq!(encoder.as_bytes(), &[0x87, 0xff, 0x82, b'a', b'b']);
    assert_eq!(encoder.len(), 5);
    let data = encoder.finish();

    let mut offset = 0;
    assert_eq!(FastDecoder::decode_uint(&data, &mut offset), Ok(7));
    assert_eq!(FastDecoder::decode_int(&data, &mut offset), Ok(-1));
    assert_eq!(
        FastDecoder::decode_bytes(&data, &mut offset),
        Ok(&b"ab"[..])
    );
    assert_eq!(offset, data.len());
}
