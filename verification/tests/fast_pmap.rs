//! Presence maps.

use ironfix::fast::stopbit::{PAYLOAD_BITS, STOP_BIT};
use ironfix::fast::{FastError, PresenceMap, PresenceMapBuilder, MAX_PMAP_BYTES};

#[test]
fn test_presence_map_decode_single_byte() {
    // 0b1100_0000: stop bit (bit 7) = 1, bits 6-0 = 100_0000
    // Extracted bits (from bit 6 to bit 0): 1, 0, 0, 0, 0, 0, 0
    let data = [0b1100_0000];
    let mut offset = 0;
    let decoded = PresenceMap::decode(&data, &mut offset);
    assert!(decoded.is_ok());

    if let Ok(pmap) = decoded {
        assert_eq!(offset, 1);
        assert_eq!(pmap.len(), 7);
        assert_eq!(pmap.bit(0), Some(true)); // bit 6 of byte = 1
        assert_eq!(pmap.bit(1), Some(false)); // bit 5 of byte = 0
        assert_eq!(pmap.bit(2), Some(false)); // bit 4 of byte = 0
        assert_eq!(pmap.bit(7), None); // past the end
    }
}

#[test]
fn test_presence_map_decode_multi_byte() {
    let data = [0b0100_0000, 0b1000_0000]; // Two bytes
    let mut offset = 0;
    let decoded = PresenceMap::decode(&data, &mut offset);
    assert!(decoded.is_ok());

    if let Ok(pmap) = decoded {
        assert_eq!(offset, 2);
        assert_eq!(pmap.len(), 14);
    }
}

#[test]
fn test_presence_map_decode_without_stop_bit_is_unexpected_eof() {
    let data = [0b0100_0000, 0b0000_0001];
    let mut offset = 0;
    assert_eq!(
        PresenceMap::decode(&data, &mut offset),
        Err(FastError::UnexpectedEof)
    );
}

#[test]
fn test_presence_map_decode_empty_input_is_unexpected_eof() {
    let data: [u8; 0] = [];
    let mut offset = 0;
    assert_eq!(
        PresenceMap::decode(&data, &mut offset),
        Err(FastError::UnexpectedEof)
    );
}

#[test]
fn test_presence_map_decode_at_the_ceiling_is_accepted() {
    let mut data = vec![0x00; MAX_PMAP_BYTES - 1];
    data.push(STOP_BIT);

    let mut offset = 0;
    let decoded = PresenceMap::decode(&data, &mut offset);
    assert!(decoded.is_ok());

    if let Ok(pmap) = decoded {
        assert_eq!(pmap.len(), MAX_PMAP_BYTES * PAYLOAD_BITS);
        assert_eq!(offset, MAX_PMAP_BYTES);
    }
}

#[test]
fn test_presence_map_decode_over_the_ceiling_is_too_large() {
    // A stop bit that never arrives, with more than enough input to run
    // past the ceiling.
    let data = vec![0x00; MAX_PMAP_BYTES * 4];
    let mut offset = 0;
    assert_eq!(
        PresenceMap::decode(&data, &mut offset),
        Err(FastError::PresenceMapTooLarge {
            max_bytes: MAX_PMAP_BYTES
        })
    );
}

#[test]
fn test_presence_map_next_bit() {
    let mut pmap = PresenceMap::from_bits(vec![true, false, true]);

    assert_eq!(pmap.next_bit(), Ok(true));
    assert_eq!(pmap.next_bit(), Ok(false));
    assert_eq!(pmap.next_bit(), Ok(true));
}

#[test]
fn test_presence_map_next_bit_past_the_end_is_exhausted() {
    let mut pmap = PresenceMap::from_bits(vec![true]);

    assert!(!pmap.is_exhausted());
    assert_eq!(pmap.next_bit(), Ok(true));
    assert!(pmap.is_exhausted());
    assert_eq!(pmap.next_bit(), Err(FastError::PresenceMapExhausted));
    assert_eq!(pmap.position(), 1, "a failed read must not advance");
}

#[test]
fn test_presence_map_empty_map_is_exhausted_immediately() {
    let mut pmap = PresenceMap::new();

    assert!(pmap.is_empty());
    assert!(pmap.is_exhausted());
    assert_eq!(pmap.next_bit(), Err(FastError::PresenceMapExhausted));
}

#[test]
fn test_presence_map_reset_rewinds_the_position() {
    let mut pmap = PresenceMap::from_bits(vec![true, false]);

    assert_eq!(pmap.next_bit(), Ok(true));
    assert_eq!(pmap.next_bit(), Ok(false));
    assert!(pmap.is_exhausted());

    pmap.reset();
    assert_eq!(pmap.position(), 0);
    assert_eq!(pmap.next_bit(), Ok(true));
}

#[test]
fn test_presence_map_encode() {
    let pmap = PresenceMap::from_bits(vec![true, true, false, false, false, false, false]);
    assert_eq!(pmap.encode(), Ok(vec![0b1110_0000]));
}

#[test]
fn test_presence_map_encode_empty_is_a_lone_stop_byte() {
    let pmap = PresenceMap::new();
    assert_eq!(pmap.encode(), Ok(vec![STOP_BIT]));
}

#[test]
fn test_presence_map_encode_decode_round_trip() {
    let bits = vec![
        true, false, true, true, false, false, true, false, true, false,
    ];
    let pmap = PresenceMap::from_bits(bits.clone());

    let encoded = pmap.encode();
    assert!(encoded.is_ok());

    if let Ok(encoded) = encoded {
        let mut offset = 0;
        let decoded = PresenceMap::decode(&encoded, &mut offset);
        assert!(decoded.is_ok());

        if let Ok(decoded) = decoded {
            assert_eq!(offset, encoded.len());
            // Every bit survives, either explicitly or as a bit past the
            // end of the minimal map, which reads as absent.
            for (index, &expected) in bits.iter().enumerate() {
                assert_eq!(decoded.bit(index).unwrap_or(false), expected, "bit {index}");
            }
        }
    }
}

#[test]
fn test_presence_map_encode_drops_trailing_absent_bytes() {
    // Fourteen absent fields fit in one byte, not two: the second byte
    // would carry no information and is not the minimal form.
    let pmap = PresenceMap::from_bits(vec![false; 14]);
    assert_eq!(pmap.encode(), Ok(vec![STOP_BIT]));
}

#[test]
fn test_presence_map_encode_keeps_bytes_up_to_the_last_present_field() {
    // One present field followed by thirteen absent ones: the first byte
    // carries the set bit and the second is dropped.
    let mut bits = vec![false; 14];
    if let Some(first) = bits.first_mut() {
        *first = true;
    }
    let pmap = PresenceMap::from_bits(bits);
    assert_eq!(pmap.encode(), Ok(vec![0b1100_0000]));

    // A set bit in the second byte keeps that byte alive.
    let mut bits = vec![false; 14];
    if let Some(last) = bits.last_mut() {
        *last = true;
    }
    let pmap = PresenceMap::from_bits(bits);
    assert_eq!(pmap.encode(), Ok(vec![0x00, 0b1000_0001]));
}

#[test]
fn test_presence_map_encode_all_absent_is_a_lone_stop_byte() {
    // However many absent fields the template has, the minimal map is one
    // byte -- and it must still decode as a presence map.
    for count in [1_usize, 7, 8, 63, 64] {
        let pmap = PresenceMap::from_bits(vec![false; count]);
        assert_eq!(pmap.encode(), Ok(vec![STOP_BIT]), "{count} absent fields");
    }
}

#[test]
fn test_presence_map_encode_over_the_ceiling_is_too_large() {
    let bits = vec![true; MAX_PMAP_BYTES * PAYLOAD_BITS + 1];
    let pmap = PresenceMap::from_bits(bits);

    assert_eq!(
        pmap.encode(),
        Err(FastError::PresenceMapTooLarge {
            max_bytes: MAX_PMAP_BYTES
        })
    );
}

#[test]
fn test_presence_map_builder() {
    let pmap = PresenceMapBuilder::new()
        .bit(true)
        .bit(false)
        .bit(true)
        .build();

    assert_eq!(pmap.len(), 3);
    assert_eq!(pmap.bit(0), Some(true));
    assert_eq!(pmap.bit(1), Some(false));
    assert_eq!(pmap.bit(2), Some(true));
}
