//! Errors as text.

use ironfix::fast::FastError;
use ironfix::session::config::{max_timeout, SessionConfigError};
use ironfix::transport::CodecError;
use ironfix::types::{CompIdError, Duration, MsgTypeError};

#[test]
fn codec_errors_are_described() {
    for (error, text) in [
        (CodecError::Incomplete, "incomplete message"),
        (
            CodecError::InvalidBeginString,
            "invalid begin string: message must start with 8=",
        ),
        (
            CodecError::MissingBodyLength,
            "missing body length field (tag 9)",
        ),
        (CodecError::InvalidBodyLength, "invalid body length value"),
        (
            CodecError::HeaderTooLong { max_header_len: 64 },
            "malformed header: no complete BeginString/BodyLength header in the first 64 bytes",
        ),
        (
            CodecError::InvalidTrailer { offset: 19 },
            "invalid trailer: expected <SOH>10=NNN<SOH> at offset 19",
        ),
        (
            CodecError::InvalidChecksumFormat,
            "invalid checksum format: tag 10 is not three decimal digits in 0..=255",
        ),
        (
            CodecError::ChecksumMismatch {
                calculated: 7,
                declared: 255,
            },
            "checksum mismatch: calculated 7, declared 255",
        ),
        (
            CodecError::MessageTooLarge {
                size: 17,
                max_size: 16,
            },
            "message too large: 17 bytes exceeds maximum 16",
        ),
        (
            CodecError::Io("broken pipe".to_string()),
            "io error: broken pipe",
        ),
    ] {
        assert_eq!(error.to_string(), text);
        assert_eq!(error.clone(), error);
    }
}

#[test]
fn fast_errors_are_described() {
    for (error, text) in [
        (FastError::UnknownTemplate(42), "unknown template id: 42"),
        (FastError::InvalidPresenceMap, "invalid presence map"),
        (
            FastError::InvalidDecimal {
                exponent: -3,
                mantissa: i64::MIN,
            },
            "invalid decimal: exponent=-3, mantissa=-9223372036854775808",
        ),
        (
            FastError::MissingMandatoryField {
                name: "Price".to_string(),
            },
            "missing mandatory field: Price",
        ),
        (
            FastError::InvalidOperator("delta".to_string()),
            "invalid operator: delta",
        ),
        (
            FastError::DictionaryEntryNotFound {
                key: "k".to_string(),
            },
            "dictionary entry not found: k",
        ),
        (
            FastError::SequenceLengthMismatch {
                expected: 2,
                actual: 3,
            },
            "sequence length mismatch: expected 2, got 3",
        ),
    ] {
        assert_eq!(error.to_string(), text);
        assert_eq!(error.clone(), error);
    }
}

#[test]
fn config_errors_are_described() {
    for (error, text) in [
        (
            SessionConfigError::MissingField {
                field: "sender_comp_id",
            },
            "sender_comp_id is required",
        ),
        (
            SessionConfigError::EmptyField {
                field: "begin_string",
            },
            "begin_string must not be empty",
        ),
        (
            SessionConfigError::FieldTooLong {
                field: "sender_sub_id",
                len: 65,
                max: 64,
            },
            "sender_sub_id is 65 bytes, over the 64-byte maximum",
        ),
        (
            SessionConfigError::IllegalByte {
                field: "target_sub_id",
                byte: 1,
                position: 2,
            },
            "target_sub_id contains illegal byte 0x01 at position 2",
        ),
        (
            SessionConfigError::FractionalHeartbeatInterval {
                interval: Duration::from_millis(500),
            },
            "heartbeat interval 500ms is not a whole number of seconds; HeartBtInt (108) is expressed in whole seconds",
        ),
        (
            SessionConfigError::HeartbeatIntervalOutOfRange {
                secs: 3601,
                min: 1,
                max: 3600,
            },
            "heartbeat interval of 3601s is outside the supported range 1s..=3600s",
        ),
        (
            SessionConfigError::HeartbeatDisabledWithoutOptIn,
            "a zero heartbeat interval disables heartbeating entirely (HeartBtInt = 0); call SessionConfigBuilder::disable_heartbeats to ask for that explicitly",
        ),
        (
            SessionConfigError::TimeoutOutOfRange {
                field: "logon_timeout",
                timeout: Duration::from_millis(300_500),
                max: max_timeout(),
            },
            "logon_timeout of 300.5s is outside the supported range (non-zero, at most 300s)",
        ),
        (
            SessionConfigError::MessageSizeLimitOutOfRange {
                size: 0,
                min: 512,
                max: 67_108_864,
            },
            "max_message_size of 0 bytes is outside the supported range 512..=67108864",
        ),
    ] {
        assert_eq!(error.to_string(), text);
        assert_eq!(error.clone(), error);
    }
}

#[test]
fn identity_errors_are_described() {
    assert_eq!(CompIdError::Empty.to_string(), "comp id is empty");
    assert_eq!(
        CompIdError::TooLong {
            len: 70,
            max_len: 64
        }
        .to_string(),
        "comp id is 70 bytes, over the 64-byte maximum"
    );
    assert_eq!(
        CompIdError::IllegalByte {
            byte: 0xff,
            position: 3
        }
        .to_string(),
        "comp id contains illegal byte 0xff at position 3"
    );
    assert_eq!(MsgTypeError::Empty.to_string(), "msg type is empty");
    assert_eq!(
        MsgTypeError::TooLong { len: 9, max_len: 8 }.to_string(),
        "msg type is 9 bytes, over the 8-byte maximum"
    );
    assert_eq!(
        MsgTypeError::IllegalByte {
            byte: b'=',
            position: 1
        }
        .to_string(),
        "msg type contains illegal byte 0x3d at position 1"
    );
}
