//! FAST errors.

use ironfix::fast::FastError;

#[test]
fn test_fast_error_display_is_descriptive() {
    assert_eq!(
        FastError::UnexpectedEof.to_string(),
        "unexpected end of input"
    );
    assert_eq!(FastError::IntegerOverflow.to_string(), "integer overflow");
    assert_eq!(
        FastError::InvalidString.to_string(),
        "invalid string encoding"
    );
    assert_eq!(
        FastError::PresenceMapExhausted.to_string(),
        "presence map exhausted"
    );
    assert_eq!(
        FastError::PresenceMapTooLarge { max_bytes: 64 }.to_string(),
        "presence map exceeds the ceiling of 64 encoded bytes"
    );
}

#[test]
fn test_fast_error_equality_distinguishes_variants() {
    assert_eq!(FastError::UnexpectedEof, FastError::UnexpectedEof.clone());
    assert_ne!(FastError::UnexpectedEof, FastError::IntegerOverflow);
    assert_ne!(
        FastError::PresenceMapTooLarge { max_bytes: 64 },
        FastError::PresenceMapTooLarge { max_bytes: 32 }
    );
}
