//! Session configuration.
//!
//! [`SessionConfig`] is the typed configuration surface of a FIX session: a
//! session knob is a typed field with a default, a documented unit and range,
//! and validation.
//!
//! # Where validity is decided
//!
//! [`SessionConfig::validate`] is the single definition of "valid".
//! [`SessionConfigBuilder::build`], the canonical constructor, exposes a setter
//! for every knob and reports the first violation as a typed
//! [`SessionConfigError`]. A configuration that is assembled by hand through
//! the public fields is checked by calling `validate` on it.
//!
//! # Ranges
//!
//! | Knob | Unit | Range | Default |
//! |---|---|---|---|
//! | `sender_comp_id` / `target_comp_id` | - | validated by [`CompId`] | required |
//! | `begin_string` | ASCII | 1..=[`MAX_ID_LEN`] bytes, printable ASCII except `=` | `FIX.4.4` |
//! | `heartbeat_interval` | whole seconds | 0 (disabled) or [`MIN_HEARTBEAT_INTERVAL_SECS`]..=[`MAX_HEARTBEAT_INTERVAL_SECS`] | 30 s |
//! | `logon_timeout` / `logout_timeout` | duration | non-zero, at most [`MAX_TIMEOUT_SECS`] | 10 s |
//! | `max_message_size` | bytes | [`MIN_MESSAGE_SIZE_LIMIT`]..=[`MAX_MESSAGE_SIZE_LIMIT`] | 1 MiB |
//! | `sender_sub_id` / `target_sub_id` | ASCII | unset, or 1..=[`MAX_ID_LEN`] bytes, printable ASCII except `=` | unset |
//! | `sender_location_id` / `target_location_id` | ASCII | as above | unset |
//! | `reset_on_*`, `validate_*` | flag | any | see [`SessionConfig::new`] |
//!
//! # `HeartBtInt` (108) is whole seconds
//!
//! Tag 108 carries whole seconds, and `HeartBtInt = 0` means *do not
//! heartbeat* (see the [`crate::session::heartbeat`] module). A fractional
//! `heartbeat_interval` therefore has no honest wire form: truncating 500 ms
//! to `108=0` would negotiate no heartbeating at all while local timers ran
//! sub-second. Fractional intervals are rejected rather than truncated, and
//! `HeartBtInt = 0` must be asked for explicitly through
//! [`SessionConfigBuilder::disable_heartbeats`].

use crate::outside::decimal::{ascii_chars, decimal, format_uint};
use crate::outside::text::{hex_chars, hex_text};
use crate::session::heartbeat::MAX_HEARTBEAT_INTERVAL_SECS;
use crate::types::ids::{check_id, id_error, CompId, CompIdError, COMP_ID_MAX_LEN};
use crate::types::time::{span_text, Duration, NANOS_PER_SEC};
use vstd::prelude::*;
use vstd::utf8::encode_utf8;

verus! {

/// Smallest `HeartBtInt` (108) that can be configured, in seconds.
///
/// One second is the smallest interval tag 108 can express. Anything shorter
/// has no wire representation; see the module documentation. Zero is not in
/// this range: it is the separate "heartbeating disabled" case.
pub const MIN_HEARTBEAT_INTERVAL_SECS: u64 = 1;

/// Largest handshake timeout that can be configured, in seconds.
///
/// Both `logon_timeout` and `logout_timeout` bound one round trip with the
/// counterparty. Five minutes is far beyond any real venue's response time; a
/// larger value would leave a dead handshake hanging rather than failing it.
pub const MAX_TIMEOUT_SECS: u64 = 300;

/// Largest handshake timeout, in nanoseconds.
pub const MAX_TIMEOUT_NANOS: u128 = 300_000_000_000;

/// Smallest `max_message_size` that can be configured, in bytes.
///
/// The limit must at least admit the session's own Logon: the standard header
/// with maximum-length CompIDs, SubIDs and LocationIDs plus a Logon body runs
/// to a few hundred bytes.
pub const MIN_MESSAGE_SIZE_LIMIT: usize = 512;

/// Largest `max_message_size` that can be configured, in bytes (64 MiB).
///
/// The codec buffers up to this much per connection before it can reject a
/// frame, so the knob is also a per-connection memory ceiling.
pub const MAX_MESSAGE_SIZE_LIMIT: usize = 67_108_864;

/// Maximum length, in bytes, of a configured identity string.
///
/// Applies to `begin_string`, the sub IDs and the location IDs. It is the bound
/// that [`CompId`] applies to tags 49 and 56: these values sit in the same
/// standard header.
pub const MAX_ID_LEN: usize = COMP_ID_MAX_LEN;

/// `HeartBtInt` (108) used when nothing else is asked for, in seconds.
pub const DEFAULT_HEARTBEAT_SECS: u64 = 30;

/// Handshake timeout used when nothing else is asked for, in seconds.
pub const DEFAULT_TIMEOUT_SECS: u64 = 10;

/// `max_message_size` used when nothing else is asked for (1 MiB).
pub const DEFAULT_MESSAGE_SIZE_LIMIT: usize = 1_048_576;

/// Clock difference to the peer that is tolerated when nothing else is asked
/// for, in seconds.
pub const DEFAULT_SENDING_TIME_TOLERANCE_SECS: u64 = 120;

/// How long a resend may make no progress when nothing else is asked for, in
/// seconds.
pub const DEFAULT_RESEND_TIMEOUT_SECS: u64 = 10;

/// `ResendRequest` messages for one gap when nothing else is asked for.
pub const DEFAULT_RESEND_REQUESTS: u32 = 3;

/// Returns the largest handshake timeout that can be configured.
pub fn max_timeout() -> (timeout: Duration)
    ensures
        timeout@ == MAX_TIMEOUT_NANOS,
{
    Duration::from_secs(MAX_TIMEOUT_SECS)
}

/// Reason a session configuration cannot be used.
///
/// Every variant names the offending knob, so the message is actionable
/// without the caller having to guess which setter produced it.
#[derive(Debug, PartialEq, Eq)]
#[allow(inconsistent_fields)]
#[non_exhaustive]
pub enum SessionConfigError {
    /// A field with no default was never set on the builder.
    MissingField {
        /// Name of the field that was never set.
        field: &'static str,
    },
    /// A string knob was set to the empty string.
    ///
    /// An empty value has no wire form: the encoder refuses it, so it would
    /// fail at the first outbound message rather than at configuration time.
    EmptyField {
        /// Name of the empty field.
        field: &'static str,
    },
    /// A string knob is longer than [`MAX_ID_LEN`] bytes.
    FieldTooLong {
        /// Name of the oversized field.
        field: &'static str,
        /// Length of the configured value, in bytes.
        len: usize,
        /// The maximum accepted, in bytes.
        max: usize,
    },
    /// A string knob carries a byte with no on-the-wire form.
    ///
    /// These values are written verbatim into the standard header, so SOH
    /// would terminate the field early and `=` would open a new tag/value
    /// pair: either byte structurally corrupts every outbound message.
    IllegalByte {
        /// Name of the offending field.
        field: &'static str,
        /// The byte that was refused.
        byte: u8,
        /// Its zero-based position in the value.
        position: usize,
    },
    /// The heartbeat interval is not a whole number of seconds.
    FractionalHeartbeatInterval {
        /// The configured interval.
        interval: Duration,
    },
    /// The heartbeat interval is outside the supported range.
    HeartbeatIntervalOutOfRange {
        /// The configured interval, in seconds.
        secs: u64,
        /// The smallest interval accepted, in seconds.
        min: u64,
        /// The largest interval accepted, in seconds.
        max: u64,
    },
    /// A zero heartbeat interval reached the builder without the explicit
    /// opt-in.
    ///
    /// `HeartBtInt = 0` is legal and means "do not heartbeat", which switches
    /// dead-peer detection off for the whole session. That is a decision, not
    /// a default, so it has to be asked for by name.
    HeartbeatDisabledWithoutOptIn,
    /// A handshake timeout is zero or above [`MAX_TIMEOUT_SECS`].
    TimeoutOutOfRange {
        /// Name of the offending timeout.
        field: &'static str,
        /// The configured timeout.
        timeout: Duration,
        /// The largest timeout accepted.
        max: Duration,
    },
    /// `max_message_size` is outside its supported range.
    MessageSizeLimitOutOfRange {
        /// The configured limit, in bytes.
        size: usize,
        /// The smallest limit accepted, in bytes.
        min: usize,
        /// The largest limit accepted, in bytes.
        max: usize,
    },
}

/// What a [`SessionConfigError`] says, with names as text and spans in
/// nanoseconds.
#[verifier::ext_equal]
#[allow(inconsistent_fields)]
pub enum ConfigErrorView {
    MissingField { field: Seq<char> },
    EmptyField { field: Seq<char> },
    FieldTooLong { field: Seq<char>, len: usize, max: usize },
    IllegalByte { field: Seq<char>, byte: u8, position: usize },
    FractionalHeartbeatInterval { interval: nat },
    HeartbeatIntervalOutOfRange { secs: u64, min: u64, max: u64 },
    HeartbeatDisabledWithoutOptIn,
    TimeoutOutOfRange { field: Seq<char>, timeout: nat, max: nat },
    MessageSizeLimitOutOfRange { size: usize, min: usize, max: usize },
}

impl View for SessionConfigError {
    type V = ConfigErrorView;

    open spec fn view(&self) -> ConfigErrorView {
        match *self {
            SessionConfigError::MissingField { field } => ConfigErrorView::MissingField {
                field: field@,
            },
            SessionConfigError::EmptyField { field } => ConfigErrorView::EmptyField {
                field: field@,
            },
            SessionConfigError::FieldTooLong { field, len, max } => ConfigErrorView::FieldTooLong {
                field: field@,
                len,
                max,
            },
            SessionConfigError::IllegalByte { field, byte, position } =>
                ConfigErrorView::IllegalByte { field: field@, byte, position },
            SessionConfigError::FractionalHeartbeatInterval { interval } =>
                ConfigErrorView::FractionalHeartbeatInterval { interval: interval@ },
            SessionConfigError::HeartbeatIntervalOutOfRange { secs, min, max } =>
                ConfigErrorView::HeartbeatIntervalOutOfRange { secs, min, max },
            SessionConfigError::HeartbeatDisabledWithoutOptIn =>
                ConfigErrorView::HeartbeatDisabledWithoutOptIn,
            SessionConfigError::TimeoutOutOfRange { field, timeout, max } =>
                ConfigErrorView::TimeoutOutOfRange {
                field: field@,
                timeout: timeout@,
                max: max@,
            },
            SessionConfigError::MessageSizeLimitOutOfRange { size, min, max } =>
                ConfigErrorView::MessageSizeLimitOutOfRange { size, min, max },
        }
    }
}

impl Clone for SessionConfigError {
    fn clone(&self) -> (copy: Self)
        ensures
            copy == *self,
    {
        match self {
            SessionConfigError::MissingField { field } => SessionConfigError::MissingField {
                field: *field,
            },
            SessionConfigError::EmptyField { field } => SessionConfigError::EmptyField {
                field: *field,
            },
            SessionConfigError::FieldTooLong { field, len, max } =>
                SessionConfigError::FieldTooLong { field: *field, len: *len, max: *max },
            SessionConfigError::IllegalByte { field, byte, position } =>
                SessionConfigError::IllegalByte { field: *field, byte: *byte, position: *position },
            SessionConfigError::FractionalHeartbeatInterval { interval } =>
                SessionConfigError::FractionalHeartbeatInterval { interval: *interval },
            SessionConfigError::HeartbeatIntervalOutOfRange { secs, min, max } =>
                SessionConfigError::HeartbeatIntervalOutOfRange {
                secs: *secs,
                min: *min,
                max: *max,
            },
            SessionConfigError::HeartbeatDisabledWithoutOptIn =>
                SessionConfigError::HeartbeatDisabledWithoutOptIn,
            SessionConfigError::TimeoutOutOfRange { field, timeout, max } =>
                SessionConfigError::TimeoutOutOfRange {
                field: *field,
                timeout: *timeout,
                max: *max,
            },
            SessionConfigError::MessageSizeLimitOutOfRange { size, min, max } =>
                SessionConfigError::MessageSizeLimitOutOfRange {
                size: *size,
                min: *min,
                max: *max,
            },
        }
    }
}

/// The decimal notation of `n`.
pub open spec fn number_text(n: nat) -> Seq<char> {
    ascii_chars(decimal(n))
}

/// The text of a [`SessionConfigError`].
pub open spec fn config_error_text(error: ConfigErrorView) -> Seq<char> {
    match error {
        ConfigErrorView::MissingField { field } => field + " is required"@,
        ConfigErrorView::EmptyField { field } => field + " must not be empty"@,
        ConfigErrorView::FieldTooLong { field, len, max } => field + " is "@ + number_text(
            len as nat,
        ) + " bytes, over the "@ + number_text(max as nat) + "-byte maximum"@,
        ConfigErrorView::IllegalByte { field, byte, position } => field
            + " contains illegal byte 0x"@ + hex_chars(byte) + " at position "@ + number_text(
            position as nat,
        ),
        ConfigErrorView::FractionalHeartbeatInterval { interval } => "heartbeat interval "@
            + span_text(interval)
            + " is not a whole number of seconds; HeartBtInt (108) is expressed in whole seconds"@,
        ConfigErrorView::HeartbeatIntervalOutOfRange { secs, min, max } => "heartbeat interval of "@
            + number_text(secs as nat) + "s is outside the supported range "@ + number_text(
            min as nat,
        ) + "s..="@ + number_text(max as nat) + "s"@,
        ConfigErrorView::HeartbeatDisabledWithoutOptIn =>
            "a zero heartbeat interval disables heartbeating entirely (HeartBtInt = 0); call SessionConfigBuilder::disable_heartbeats to ask for that explicitly"@,
        ConfigErrorView::TimeoutOutOfRange { field, timeout, max } => field + " of "@ + span_text(
            timeout,
        ) + " is outside the supported range (non-zero, at most "@ + span_text(max) + ")"@,
        ConfigErrorView::MessageSizeLimitOutOfRange { size, min, max } => "max_message_size of "@
            + number_text(size as nat) + " bytes is outside the supported range "@ + number_text(
            min as nat,
        ) + "..="@ + number_text(max as nat),
    }
}

impl SessionConfigError {
    /// Returns the reason as text.
    pub fn to_string(&self) -> (text: String)
        ensures
            text@ == config_error_text(self@),
    {
        match self {
            SessionConfigError::MissingField { field } => {
                let mut text = String::from_str(field);
                text.append(" is required");
                text
            },
            SessionConfigError::EmptyField { field } => {
                let mut text = String::from_str(field);
                text.append(" must not be empty");
                text
            },
            SessionConfigError::FieldTooLong { field, len, max } => {
                let mut text = String::from_str(field);
                text.append(" is ");
                text.append(format_uint(*len as u64).as_str());
                text.append(" bytes, over the ");
                text.append(format_uint(*max as u64).as_str());
                text.append("-byte maximum");
                text
            },
            SessionConfigError::IllegalByte { field, byte, position } => {
                let mut text = String::from_str(field);
                text.append(" contains illegal byte 0x");
                text.append(hex_text(*byte).as_str());
                text.append(" at position ");
                text.append(format_uint(*position as u64).as_str());
                text
            },
            SessionConfigError::FractionalHeartbeatInterval { interval } => {
                let mut text = String::from_str("heartbeat interval ");
                text.append(interval.to_text().as_str());
                text.append(
                    " is not a whole number of seconds; HeartBtInt (108) is expressed in whole seconds",
                );
                text
            },
            SessionConfigError::HeartbeatIntervalOutOfRange { secs, min, max } => {
                let mut text = String::from_str("heartbeat interval of ");
                text.append(format_uint(*secs).as_str());
                text.append("s is outside the supported range ");
                text.append(format_uint(*min).as_str());
                text.append("s..=");
                text.append(format_uint(*max).as_str());
                text.append("s");
                text
            },
            SessionConfigError::HeartbeatDisabledWithoutOptIn => String::from_str(
                "a zero heartbeat interval disables heartbeating entirely (HeartBtInt = 0); call SessionConfigBuilder::disable_heartbeats to ask for that explicitly",
            ),
            SessionConfigError::TimeoutOutOfRange { field, timeout, max } => {
                let mut text = String::from_str(field);
                text.append(" of ");
                text.append(timeout.to_text().as_str());
                text.append(" is outside the supported range (non-zero, at most ");
                text.append(max.to_text().as_str());
                text.append(")");
                text
            },
            SessionConfigError::MessageSizeLimitOutOfRange { size, min, max } => {
                let mut text = String::from_str("max_message_size of ");
                text.append(format_uint(*size as u64).as_str());
                text.append(" bytes is outside the supported range ");
                text.append(format_uint(*min as u64).as_str());
                text.append("..=");
                text.append(format_uint(*max as u64).as_str());
                text
            },
        }
    }
}

/// What is wrong with the identity string `value` of `field`.
pub open spec fn id_fault(field: Seq<char>, value: Seq<char>) -> Option<ConfigErrorView> {
    match id_error(encode_utf8(value)) {
        None => None,
        Some(CompIdError::Empty) => Some(ConfigErrorView::EmptyField { field }),
        Some(CompIdError::TooLong { len, max_len }) => Some(
            ConfigErrorView::FieldTooLong { field, len, max: max_len },
        ),
        Some(CompIdError::IllegalByte { byte, position }) => Some(
            ConfigErrorView::IllegalByte { field, byte, position },
        ),
    }
}

/// What is wrong with an identity string that may be unset.
pub open spec fn optional_id_fault(field: Seq<char>, value: Option<Seq<char>>) -> Option<
    ConfigErrorView,
> {
    match value {
        Some(value) => id_fault(field, value),
        None => None,
    }
}

/// What is wrong with a handshake timeout.
pub open spec fn timeout_fault(field: Seq<char>, timeout: nat) -> Option<ConfigErrorView> {
    if timeout == 0 || timeout > MAX_TIMEOUT_NANOS {
        Some(ConfigErrorView::TimeoutOutOfRange { field, timeout, max: MAX_TIMEOUT_NANOS as nat })
    } else {
        None
    }
}

/// What is wrong with a heartbeat interval. Zero is the legal `HeartBtInt = 0`
/// case; only the builder insists that it be asked for by name.
pub open spec fn heartbeat_fault(interval: nat) -> Option<ConfigErrorView> {
    let secs = (interval / NANOS_PER_SEC as nat) as u64;
    if interval == 0 {
        None
    } else if interval % NANOS_PER_SEC as nat != 0 {
        Some(ConfigErrorView::FractionalHeartbeatInterval { interval })
    } else if !(MIN_HEARTBEAT_INTERVAL_SECS <= secs <= MAX_HEARTBEAT_INTERVAL_SECS) {
        Some(
            ConfigErrorView::HeartbeatIntervalOutOfRange {
                secs,
                min: MIN_HEARTBEAT_INTERVAL_SECS,
                max: MAX_HEARTBEAT_INTERVAL_SECS,
            },
        )
    } else {
        None
    }
}

/// What is wrong with a message size limit.
pub open spec fn size_fault(size: usize) -> Option<ConfigErrorView> {
    if MIN_MESSAGE_SIZE_LIMIT <= size <= MAX_MESSAGE_SIZE_LIMIT {
        None
    } else {
        Some(
            ConfigErrorView::MessageSizeLimitOutOfRange {
                size,
                min: MIN_MESSAGE_SIZE_LIMIT,
                max: MAX_MESSAGE_SIZE_LIMIT,
            },
        )
    }
}

/// The first fault of two.
pub open spec fn first_fault(
    first: Option<ConfigErrorView>,
    second: Option<ConfigErrorView>,
) -> Option<ConfigErrorView> {
    if first is Some {
        first
    } else {
        second
    }
}

/// What a session configuration says, with identities as text and spans in
/// nanoseconds.
#[verifier::ext_equal]
pub struct ConfigView {
    pub sender_comp_id: Seq<char>,
    pub target_comp_id: Seq<char>,
    pub begin_string: Seq<char>,
    pub heartbeat_interval: nat,
    pub reset_on_logon: bool,
    pub reset_on_logout: bool,
    pub reset_on_disconnect: bool,
    pub max_message_size: usize,
    pub logon_timeout: nat,
    pub logout_timeout: nat,
    pub validate_checksum: bool,
    pub validate_length: bool,
    pub sending_time_tolerance: nat,
    pub resend_timeout: nat,
    pub max_resend_requests: u32,
    pub sender_sub_id: Option<Seq<char>>,
    pub target_sub_id: Option<Seq<char>>,
    pub sender_location_id: Option<Seq<char>>,
    pub target_location_id: Option<Seq<char>>,
}

/// The number of nanoseconds in `secs` seconds.
pub open spec fn secs_as_nanos(secs: u64) -> nat {
    (secs * NANOS_PER_SEC) as nat
}

/// Text that may be unset.
pub open spec fn text_view(text: Option<String>) -> Option<Seq<char>> {
    match text {
        Some(text) => Some(text@),
        None => None,
    }
}

impl ConfigView {
    /// A configuration that holds nothing but defaults beside the identities.
    pub open spec fn with_defaults(
        sender_comp_id: Seq<char>,
        target_comp_id: Seq<char>,
        begin_string: Seq<char>,
    ) -> Self {
        ConfigView {
            sender_comp_id,
            target_comp_id,
            begin_string,
            heartbeat_interval: secs_as_nanos(DEFAULT_HEARTBEAT_SECS),
            reset_on_logon: false,
            reset_on_logout: false,
            reset_on_disconnect: false,
            max_message_size: DEFAULT_MESSAGE_SIZE_LIMIT,
            logon_timeout: secs_as_nanos(DEFAULT_TIMEOUT_SECS),
            logout_timeout: secs_as_nanos(DEFAULT_TIMEOUT_SECS),
            validate_checksum: true,
            validate_length: true,
            sending_time_tolerance: secs_as_nanos(DEFAULT_SENDING_TIME_TOLERANCE_SECS),
            resend_timeout: secs_as_nanos(DEFAULT_RESEND_TIMEOUT_SECS),
            max_resend_requests: DEFAULT_RESEND_REQUESTS,
            sender_sub_id: None,
            target_sub_id: None,
            sender_location_id: None,
            target_location_id: None,
        }
    }

    /// The first knob that is out of its range, in the order in which the knobs
    /// are checked.
    pub open spec fn fault(self) -> Option<ConfigErrorView> {
        first_fault(
            id_fault("begin_string"@, self.begin_string),
            first_fault(
                heartbeat_fault(self.heartbeat_interval),
                first_fault(
                    timeout_fault("logon_timeout"@, self.logon_timeout),
                    first_fault(
                        timeout_fault("logout_timeout"@, self.logout_timeout),
                        first_fault(
                            size_fault(self.max_message_size),
                            first_fault(
                                optional_id_fault("sender_sub_id"@, self.sender_sub_id),
                                first_fault(
                                    optional_id_fault("target_sub_id"@, self.target_sub_id),
                                    first_fault(
                                        optional_id_fault(
                                            "sender_location_id"@,
                                            self.sender_location_id,
                                        ),
                                        optional_id_fault(
                                            "target_location_id"@,
                                            self.target_location_id,
                                        ),
                                    ),
                                ),
                            ),
                        ),
                    ),
                ),
            ),
        )
    }
}

/// Checks one identity string that is written verbatim into the standard
/// header.
///
/// Charset and length match [`CompId`]: printable ASCII (`0x20..=0x7e`) except
/// `=`, at most [`MAX_ID_LEN`] bytes, never empty.
fn validate_id(field: &'static str, value: &str) -> (checked: Result<(), SessionConfigError>)
    ensures
        match checked {
            Ok(()) => id_fault(field@, value@) is None,
            Err(e) => id_fault(field@, value@) == Some(e@),
        },
{
    match check_id(value) {
        Ok(()) => Ok(()),
        Err(CompIdError::Empty) => Err(SessionConfigError::EmptyField { field }),
        Err(CompIdError::TooLong { len, max_len }) => Err(
            SessionConfigError::FieldTooLong { field, len, max: max_len },
        ),
        Err(CompIdError::IllegalByte { byte, position }) => Err(
            SessionConfigError::IllegalByte { field, byte, position },
        ),
    }
}

/// Checks an identity string that may be unset.
fn validate_optional_id(field: &'static str, value: &Option<String>) -> (checked: Result<
    (),
    SessionConfigError,
>)
    ensures
        match checked {
            Ok(()) => optional_id_fault(field@, text_view(*value)) is None,
            Err(e) => optional_id_fault(field@, text_view(*value)) == Some(e@),
        },
{
    match value {
        Some(value) => validate_id(field, value.as_str()),
        None => Ok(()),
    }
}

/// Checks a handshake timeout: non-zero and at most [`MAX_TIMEOUT_SECS`].
fn validate_timeout(field: &'static str, timeout: Duration) -> (checked: Result<
    (),
    SessionConfigError,
>)
    ensures
        match checked {
            Ok(()) => timeout_fault(field@, timeout@) is None,
            Err(e) => timeout_fault(field@, timeout@) == Some(e@),
        },
{
    if timeout.is_zero() || timeout.as_nanos() > MAX_TIMEOUT_NANOS {
        return Err(SessionConfigError::TimeoutOutOfRange { field, timeout, max: max_timeout() });
    }
    Ok(())
}

/// Checks the heartbeat interval against what tag 108 can carry.
fn validate_heartbeat_interval(interval: Duration) -> (checked: Result<(), SessionConfigError>)
    ensures
        match checked {
            Ok(()) => heartbeat_fault(interval@) is None,
            Err(e) => heartbeat_fault(interval@) == Some(e@),
        },
{
    if interval.is_zero() {
        return Ok(());
    }
    if interval.subsec_nanos() != 0 {
        return Err(SessionConfigError::FractionalHeartbeatInterval { interval });
    }
    let secs: u64 = interval.as_secs();
    if secs < MIN_HEARTBEAT_INTERVAL_SECS || secs > MAX_HEARTBEAT_INTERVAL_SECS {
        return Err(
            SessionConfigError::HeartbeatIntervalOutOfRange {
                secs,
                min: MIN_HEARTBEAT_INTERVAL_SECS,
                max: MAX_HEARTBEAT_INTERVAL_SECS,
            },
        );
    }
    Ok(())
}

/// Checks the message size limit.
fn validate_size(size: usize) -> (checked: Result<(), SessionConfigError>)
    ensures
        match checked {
            Ok(()) => size_fault(size) is None,
            Err(e) => size_fault(size) == Some(e@),
        },
{
    if size < MIN_MESSAGE_SIZE_LIMIT || size > MAX_MESSAGE_SIZE_LIMIT {
        return Err(
            SessionConfigError::MessageSizeLimitOutOfRange {
                size,
                min: MIN_MESSAGE_SIZE_LIMIT,
                max: MAX_MESSAGE_SIZE_LIMIT,
            },
        );
    }
    Ok(())
}

/// Configuration for a FIX session.
///
/// Construct one with [`SessionConfigBuilder`], which validates every knob.
/// The fields are public so a configuration can also be assembled or adjusted
/// directly; [`SessionConfig::validate`] then says whether the result is
/// usable.
#[derive(Debug)]
pub struct SessionConfig {
    /// Sender CompID (tag 49).
    pub sender_comp_id: CompId,
    /// Target CompID (tag 56).
    pub target_comp_id: CompId,
    /// FIX version BeginString, tag 8 (e.g. `FIX.4.4`).
    ///
    /// 1..=[`MAX_ID_LEN`] bytes of printable ASCII except `=`.
    pub begin_string: String,
    /// Heartbeat interval, `HeartBtInt` (108).
    ///
    /// Whole seconds, from [`MIN_HEARTBEAT_INTERVAL_SECS`] to
    /// [`MAX_HEARTBEAT_INTERVAL_SECS`]. An empty span is the legal
    /// `HeartBtInt = 0` case and disables heartbeating entirely.
    pub heartbeat_interval: Duration,
    /// Whether to set `ResetSeqNumFlag` (141) on the outbound Logon.
    pub reset_on_logon: bool,
    /// Whether to reset sequence numbers after a graceful Logout.
    pub reset_on_logout: bool,
    /// Whether to reset sequence numbers when the session disconnects.
    pub reset_on_disconnect: bool,
    /// Maximum accepted message size, in bytes.
    ///
    /// From [`MIN_MESSAGE_SIZE_LIMIT`] to [`MAX_MESSAGE_SIZE_LIMIT`]. Also the
    /// per-connection buffering ceiling of the codec.
    pub max_message_size: usize,
    /// How long to wait for the Logon acknowledgement.
    ///
    /// Non-zero, at most [`MAX_TIMEOUT_SECS`].
    pub logon_timeout: Duration,
    /// How long to wait for the Logout acknowledgement.
    ///
    /// Non-zero, at most [`MAX_TIMEOUT_SECS`].
    pub logout_timeout: Duration,
    /// Whether to validate the `CheckSum` (10) of inbound messages.
    pub validate_checksum: bool,
    /// Whether to validate incoming message length.
    pub validate_length: bool,
    /// Largest difference tolerated, in either direction, between an inbound
    /// message's `SendingTime` (52) and the local clock.
    ///
    /// Any span; an empty one disables `SendingTime` validation entirely,
    /// including the presence and format checks. Default: 120 seconds.
    pub sending_time_tolerance: Duration,
    /// How long an outstanding `ResendRequest` (2) may make no progress before
    /// it is retried, and eventually abandoned.
    ///
    /// Measured from the moment the request was sent and restarted by every
    /// request that follows it. Any in-sequence message clears the outstanding
    /// request altogether, so this measures a gap that is not being filled at
    /// all, not a slow replay. Default: 10 seconds.
    pub resend_timeout: Duration,
    /// Maximum number of `ResendRequest` (2) messages sent for one gap,
    /// counting the first.
    ///
    /// 0 is read as 1, because the first request is unconditional. Default: 3.
    /// Read it through [`SessionConfig::resend_attempt_limit`], which applies
    /// the lower bound.
    pub max_resend_requests: u32,
    /// Optional sender sub ID (tag 50), 1..=[`MAX_ID_LEN`] bytes when set.
    pub sender_sub_id: Option<String>,
    /// Optional target sub ID (tag 57), 1..=[`MAX_ID_LEN`] bytes when set.
    pub target_sub_id: Option<String>,
    /// Optional sender location ID (tag 142), 1..=[`MAX_ID_LEN`] bytes when set.
    pub sender_location_id: Option<String>,
    /// Optional target location ID (tag 143), 1..=[`MAX_ID_LEN`] bytes when set.
    pub target_location_id: Option<String>,
}

impl View for SessionConfig {
    type V = ConfigView;

    open spec fn view(&self) -> ConfigView {
        ConfigView {
            sender_comp_id: self.sender_comp_id@,
            target_comp_id: self.target_comp_id@,
            begin_string: self.begin_string@,
            heartbeat_interval: self.heartbeat_interval@,
            reset_on_logon: self.reset_on_logon,
            reset_on_logout: self.reset_on_logout,
            reset_on_disconnect: self.reset_on_disconnect,
            max_message_size: self.max_message_size,
            logon_timeout: self.logon_timeout@,
            logout_timeout: self.logout_timeout@,
            validate_checksum: self.validate_checksum,
            validate_length: self.validate_length,
            sending_time_tolerance: self.sending_time_tolerance@,
            resend_timeout: self.resend_timeout@,
            max_resend_requests: self.max_resend_requests,
            sender_sub_id: text_view(self.sender_sub_id),
            target_sub_id: text_view(self.target_sub_id),
            sender_location_id: text_view(self.sender_location_id),
            target_location_id: text_view(self.target_location_id),
        }
    }
}

/// A copy of text that may be unset.
fn copy_text(text: &Option<String>) -> (copy: Option<String>)
    ensures
        text_view(copy) == text_view(*text),
{
    match text {
        Some(text) => Some(text.clone()),
        None => None,
    }
}

impl Clone for SessionConfig {
    fn clone(&self) -> (copy: Self)
        ensures
            copy@ == self@,
    {
        SessionConfig {
            sender_comp_id: self.sender_comp_id.clone(),
            target_comp_id: self.target_comp_id.clone(),
            begin_string: self.begin_string.clone(),
            heartbeat_interval: self.heartbeat_interval,
            reset_on_logon: self.reset_on_logon,
            reset_on_logout: self.reset_on_logout,
            reset_on_disconnect: self.reset_on_disconnect,
            max_message_size: self.max_message_size,
            logon_timeout: self.logon_timeout,
            logout_timeout: self.logout_timeout,
            validate_checksum: self.validate_checksum,
            validate_length: self.validate_length,
            sending_time_tolerance: self.sending_time_tolerance,
            resend_timeout: self.resend_timeout,
            max_resend_requests: self.max_resend_requests,
            sender_sub_id: copy_text(&self.sender_sub_id),
            target_sub_id: copy_text(&self.target_sub_id),
            sender_location_id: copy_text(&self.sender_location_id),
            target_location_id: copy_text(&self.target_location_id),
        }
    }
}

impl SessionConfig {
    /// Creates a session configuration with the documented defaults: a 30 s
    /// heartbeat, 10 s handshake timeouts, a 1 MiB message limit, checksum and
    /// length validation on, and no sequence resets.
    ///
    /// This applies defaults; it does not validate. `begin_string` is the one
    /// argument that can be malformed: call [`SessionConfig::validate`], or
    /// build through [`SessionConfigBuilder`], to find out before the session
    /// dials.
    #[must_use]
    pub fn new(sender_comp_id: CompId, target_comp_id: CompId, begin_string: &str) -> (config: Self)
        ensures
            config@ == ConfigView::with_defaults(
                sender_comp_id@,
                target_comp_id@,
                begin_string@,
            ),
    {
        SessionConfig {
            sender_comp_id,
            target_comp_id,
            begin_string: begin_string.to_owned(),
            heartbeat_interval: Duration::from_secs(DEFAULT_HEARTBEAT_SECS),
            reset_on_logon: false,
            reset_on_logout: false,
            reset_on_disconnect: false,
            max_message_size: DEFAULT_MESSAGE_SIZE_LIMIT,
            logon_timeout: Duration::from_secs(DEFAULT_TIMEOUT_SECS),
            logout_timeout: Duration::from_secs(DEFAULT_TIMEOUT_SECS),
            validate_checksum: true,
            validate_length: true,
            sending_time_tolerance: Duration::from_secs(DEFAULT_SENDING_TIME_TOLERANCE_SECS),
            resend_timeout: Duration::from_secs(DEFAULT_RESEND_TIMEOUT_SECS),
            max_resend_requests: DEFAULT_RESEND_REQUESTS,
            sender_sub_id: None,
            target_sub_id: None,
            sender_location_id: None,
            target_location_id: None,
        }
    }

    /// Checks every knob against the ranges documented on the module.
    ///
    /// The CompIDs are not checked again: [`CompId`] validates its charset and
    /// length at construction, so an illegal one is unrepresentable.
    ///
    /// An empty heartbeat interval passes: it is the legal `HeartBtInt = 0`.
    /// Only [`SessionConfigBuilder`] requires that case to be opted into by
    /// name.
    ///
    /// # Errors
    /// The first [`SessionConfigError`] found: an empty, oversized or
    /// non-encodable identity string, a fractional or out-of-range heartbeat
    /// interval, a zero or excessive handshake timeout, or a message-size limit
    /// outside [`MIN_MESSAGE_SIZE_LIMIT`]..=[`MAX_MESSAGE_SIZE_LIMIT`].
    pub fn validate(&self) -> (checked: Result<(), SessionConfigError>)
        ensures
            match checked {
                Ok(()) => self@.fault() is None,
                Err(e) => self@.fault() == Some(e@),
            },
    {
        validate_id("begin_string", self.begin_string.as_str())?;
        validate_heartbeat_interval(self.heartbeat_interval)?;
        validate_timeout("logon_timeout", self.logon_timeout)?;
        validate_timeout("logout_timeout", self.logout_timeout)?;
        validate_size(self.max_message_size)?;
        validate_optional_id("sender_sub_id", &self.sender_sub_id)?;
        validate_optional_id("target_sub_id", &self.target_sub_id)?;
        validate_optional_id("sender_location_id", &self.sender_location_id)?;
        validate_optional_id("target_location_id", &self.target_location_id)?;
        Ok(())
    }

    /// Sets the heartbeat interval, `HeartBtInt` (108).
    ///
    /// Whole seconds,
    /// [`MIN_HEARTBEAT_INTERVAL_SECS`]..=[`MAX_HEARTBEAT_INTERVAL_SECS`], or an
    /// empty span to disable heartbeating. Checked by
    /// [`SessionConfig::validate`], not here.
    #[must_use]
    pub fn with_heartbeat_interval(self, interval: Duration) -> (config: Self)
        ensures
            config@ == (ConfigView { heartbeat_interval: interval@, ..self@ }),
    {
        SessionConfig { heartbeat_interval: interval, ..self }
    }

    /// Sets whether the outbound Logon carries `ResetSeqNumFlag` (141) = Y.
    #[must_use]
    pub fn with_reset_on_logon(self, reset: bool) -> (config: Self)
        ensures
            config@ == (ConfigView { reset_on_logon: reset, ..self@ }),
    {
        SessionConfig { reset_on_logon: reset, ..self }
    }

    /// Sets the maximum accepted message size, in bytes.
    ///
    /// [`MIN_MESSAGE_SIZE_LIMIT`]..=[`MAX_MESSAGE_SIZE_LIMIT`]. Checked by
    /// [`SessionConfig::validate`], not here.
    #[must_use]
    pub fn with_max_message_size(self, size: usize) -> (config: Self)
        ensures
            config@ == (ConfigView { max_message_size: size, ..self@ }),
    {
        SessionConfig { max_message_size: size, ..self }
    }

    /// Sets how long to wait for the Logon acknowledgement.
    ///
    /// Non-zero, at most [`MAX_TIMEOUT_SECS`]. Checked by
    /// [`SessionConfig::validate`], not here.
    #[must_use]
    pub fn with_logon_timeout(self, timeout: Duration) -> (config: Self)
        ensures
            config@ == (ConfigView { logon_timeout: timeout@, ..self@ }),
    {
        SessionConfig { logon_timeout: timeout, ..self }
    }

    /// Sets the sender sub ID (tag 50).
    ///
    /// 1..=[`MAX_ID_LEN`] bytes of printable ASCII except `=`. Checked by
    /// [`SessionConfig::validate`], not here.
    #[must_use]
    pub fn with_sender_sub_id(self, sub_id: &str) -> (config: Self)
        ensures
            config@ == (ConfigView { sender_sub_id: Some(sub_id@), ..self@ }),
    {
        SessionConfig { sender_sub_id: Some(sub_id.to_owned()), ..self }
    }

    /// Sets the target sub ID (tag 57).
    ///
    /// 1..=[`MAX_ID_LEN`] bytes of printable ASCII except `=`. Checked by
    /// [`SessionConfig::validate`], not here.
    #[must_use]
    pub fn with_target_sub_id(self, sub_id: &str) -> (config: Self)
        ensures
            config@ == (ConfigView { target_sub_id: Some(sub_id@), ..self@ }),
    {
        SessionConfig { target_sub_id: Some(sub_id.to_owned()), ..self }
    }

    /// Sets the logout timeout.
    #[must_use]
    pub fn with_logout_timeout(self, timeout: Duration) -> (config: Self)
        ensures
            config@ == (ConfigView { logout_timeout: timeout@, ..self@ }),
    {
        SessionConfig { logout_timeout: timeout, ..self }
    }

    /// Sets the tolerance applied to an inbound `SendingTime` (52).
    ///
    /// An empty span disables `SendingTime` validation.
    #[must_use]
    pub fn with_sending_time_tolerance(self, tolerance: Duration) -> (config: Self)
        ensures
            config@ == (ConfigView { sending_time_tolerance: tolerance@, ..self@ }),
    {
        SessionConfig { sending_time_tolerance: tolerance, ..self }
    }

    /// Sets how long an outstanding `ResendRequest` (2) may make no progress
    /// before it is retried.
    #[must_use]
    pub fn with_resend_timeout(self, timeout: Duration) -> (config: Self)
        ensures
            config@ == (ConfigView { resend_timeout: timeout@, ..self@ }),
    {
        SessionConfig { resend_timeout: timeout, ..self }
    }

    /// Sets how many `ResendRequest` (2) messages may be sent for one gap,
    /// counting the first. A value of 0 is read as 1.
    #[must_use]
    pub fn with_max_resend_requests(self, attempts: u32) -> (config: Self)
        ensures
            config@ == (ConfigView { max_resend_requests: attempts, ..self@ }),
    {
        SessionConfig { max_resend_requests: attempts, ..self }
    }

    /// Returns the heartbeat interval as the whole seconds that go into
    /// `HeartBtInt` (108).
    ///
    /// Exact for any configuration that passed [`SessionConfig::validate`],
    /// which is what rules out a fractional interval; on an unvalidated
    /// configuration a sub-second interval would floor to 0, which on the wire
    /// means "do not heartbeat".
    #[must_use]
    pub fn heartbeat_interval_secs(&self) -> (secs: u64)
        ensures
            secs == self@.heartbeat_interval / NANOS_PER_SEC as nat,
    {
        self.heartbeat_interval.as_secs()
    }

    /// Returns how many `ResendRequest` (2) messages may be sent for one gap,
    /// never less than the one that opens the recovery.
    #[must_use]
    pub fn resend_attempt_limit(&self) -> (limit: u32)
        ensures
            limit == if self@.max_resend_requests == 0 {
                1
            } else {
                self@.max_resend_requests
            },
    {
        if self.max_resend_requests == 0 {
            1
        } else {
            self.max_resend_requests
        }
    }
}

/// How the builder was told to configure heartbeating.
///
/// Keeps "no heartbeats, deliberately" distinguishable from "an interval that
/// happens to be zero", which the plain [`Duration`] field cannot express.
#[derive(Debug, Clone, Copy, PartialEq, Eq, Structural)]
enum HeartbeatSetting {
    /// Heartbeat at this interval.
    Interval(Duration),
    /// `HeartBtInt = 0`: do not heartbeat at all.
    Disabled,
}

/// What a [`SessionConfigBuilder`] was told so far.
#[verifier::ext_equal]
pub struct BuilderView {
    /// Sender CompID, where it was set.
    pub sender_comp_id: Option<Seq<char>>,
    /// Target CompID, where it was set.
    pub target_comp_id: Option<Seq<char>>,
    /// The heartbeat interval in nanoseconds, and `None` where heartbeating was
    /// disabled by name.
    pub heartbeat: Option<nat>,
    /// `BeginString` (tag 8).
    pub begin_string: Seq<char>,
    pub reset_on_logon: bool,
    pub reset_on_logout: bool,
    pub reset_on_disconnect: bool,
    pub max_message_size: usize,
    pub logon_timeout: nat,
    pub logout_timeout: nat,
    pub validate_checksum: bool,
    pub sender_sub_id: Option<Seq<char>>,
    pub target_sub_id: Option<Seq<char>>,
    pub sender_location_id: Option<Seq<char>>,
    pub target_location_id: Option<Seq<char>>,
}

impl BuilderView {
    /// A builder that was told nothing.
    pub open spec fn fresh() -> Self {
        BuilderView {
            sender_comp_id: None,
            target_comp_id: None,
            heartbeat: Some(secs_as_nanos(DEFAULT_HEARTBEAT_SECS)),
            begin_string: "FIX.4.4"@,
            reset_on_logon: false,
            reset_on_logout: false,
            reset_on_disconnect: false,
            max_message_size: DEFAULT_MESSAGE_SIZE_LIMIT,
            logon_timeout: secs_as_nanos(DEFAULT_TIMEOUT_SECS),
            logout_timeout: secs_as_nanos(DEFAULT_TIMEOUT_SECS),
            validate_checksum: true,
            sender_sub_id: None,
            target_sub_id: None,
            sender_location_id: None,
            target_location_id: None,
        }
    }

    /// The configuration that the builder describes, for a session between
    /// `sender` and `target`. The knobs that the builder has no setter for take
    /// their defaults.
    pub open spec fn config(self, sender: Seq<char>, target: Seq<char>) -> ConfigView {
        ConfigView {
            heartbeat_interval: match self.heartbeat {
                Some(interval) => interval,
                None => 0,
            },
            reset_on_logon: self.reset_on_logon,
            reset_on_logout: self.reset_on_logout,
            reset_on_disconnect: self.reset_on_disconnect,
            max_message_size: self.max_message_size,
            logon_timeout: self.logon_timeout,
            logout_timeout: self.logout_timeout,
            validate_checksum: self.validate_checksum,
            sender_sub_id: self.sender_sub_id,
            target_sub_id: self.target_sub_id,
            sender_location_id: self.sender_location_id,
            target_location_id: self.target_location_id,
            ..ConfigView::with_defaults(sender, target, self.begin_string)
        }
    }

    /// What building gives.
    pub open spec fn built(self) -> Result<ConfigView, ConfigErrorView> {
        match (self.sender_comp_id, self.target_comp_id) {
            (None, _) => Err(ConfigErrorView::MissingField { field: "sender_comp_id"@ }),
            (_, None) => Err(ConfigErrorView::MissingField { field: "target_comp_id"@ }),
            (Some(sender), Some(target)) => if self.heartbeat == Some(0nat) {
                Err(ConfigErrorView::HeartbeatDisabledWithoutOptIn)
            } else {
                match self.config(sender, target).fault() {
                    Some(e) => Err(e),
                    None => Ok(self.config(sender, target)),
                }
            },
        }
    }
}

/// Builder for [`SessionConfig`], the canonical way to configure a session.
///
/// Every knob has a setter here, and [`SessionConfigBuilder::build`] validates
/// all of them together. The sender and target CompIDs have no default and
/// must be set; everything else falls back to the defaults documented on
/// [`SessionConfig::new`].
#[derive(Debug)]
pub struct SessionConfigBuilder {
    /// Sender CompID (tag 49); required.
    sender_comp_id: Option<CompId>,
    /// Target CompID (tag 56); required.
    target_comp_id: Option<CompId>,
    /// `BeginString` (tag 8).
    begin_string: String,
    /// Heartbeat configuration, including the explicit "disabled" case.
    heartbeat: HeartbeatSetting,
    /// `ResetSeqNumFlag` (141) on the outbound Logon.
    reset_on_logon: bool,
    /// Reset sequence numbers after a graceful Logout.
    reset_on_logout: bool,
    /// Reset sequence numbers on disconnect.
    reset_on_disconnect: bool,
    /// Maximum accepted message size, in bytes.
    max_message_size: usize,
    /// Logon acknowledgement timeout.
    logon_timeout: Duration,
    /// Logout acknowledgement timeout.
    logout_timeout: Duration,
    /// Validate inbound `CheckSum` (10).
    validate_checksum: bool,
    /// Sender sub ID (tag 50).
    sender_sub_id: Option<String>,
    /// Target sub ID (tag 57).
    target_sub_id: Option<String>,
    /// Sender location ID (tag 142).
    sender_location_id: Option<String>,
    /// Target location ID (tag 143).
    target_location_id: Option<String>,
}

/// A CompID that may be unset.
pub open spec fn comp_id_view(id: Option<CompId>) -> Option<Seq<char>> {
    match id {
        Some(id) => Some(id@),
        None => None,
    }
}

impl View for SessionConfigBuilder {
    type V = BuilderView;

    closed spec fn view(&self) -> BuilderView {
        BuilderView {
            sender_comp_id: comp_id_view(self.sender_comp_id),
            target_comp_id: comp_id_view(self.target_comp_id),
            heartbeat: match self.heartbeat {
                HeartbeatSetting::Interval(interval) => Some(interval@),
                HeartbeatSetting::Disabled => None,
            },
            begin_string: self.begin_string@,
            reset_on_logon: self.reset_on_logon,
            reset_on_logout: self.reset_on_logout,
            reset_on_disconnect: self.reset_on_disconnect,
            max_message_size: self.max_message_size,
            logon_timeout: self.logon_timeout@,
            logout_timeout: self.logout_timeout@,
            validate_checksum: self.validate_checksum,
            sender_sub_id: text_view(self.sender_sub_id),
            target_sub_id: text_view(self.target_sub_id),
            sender_location_id: text_view(self.sender_location_id),
            target_location_id: text_view(self.target_location_id),
        }
    }
}

impl Clone for SessionConfigBuilder {
    fn clone(&self) -> (copy: Self)
        ensures
            copy@ == self@,
    {
        SessionConfigBuilder {
            sender_comp_id: match &self.sender_comp_id {
                Some(id) => Some(id.clone()),
                None => None,
            },
            target_comp_id: match &self.target_comp_id {
                Some(id) => Some(id.clone()),
                None => None,
            },
            begin_string: self.begin_string.clone(),
            heartbeat: self.heartbeat,
            reset_on_logon: self.reset_on_logon,
            reset_on_logout: self.reset_on_logout,
            reset_on_disconnect: self.reset_on_disconnect,
            max_message_size: self.max_message_size,
            logon_timeout: self.logon_timeout,
            logout_timeout: self.logout_timeout,
            validate_checksum: self.validate_checksum,
            sender_sub_id: copy_text(&self.sender_sub_id),
            target_sub_id: copy_text(&self.target_sub_id),
            sender_location_id: copy_text(&self.sender_location_id),
            target_location_id: copy_text(&self.target_location_id),
        }
    }
}

impl Default for SessionConfigBuilder {
    fn default() -> (builder: Self)
        ensures
            builder@ == BuilderView::fresh(),
    {
        SessionConfigBuilder {
            sender_comp_id: None,
            target_comp_id: None,
            begin_string: "FIX.4.4".to_owned(),
            heartbeat: HeartbeatSetting::Interval(Duration::from_secs(DEFAULT_HEARTBEAT_SECS)),
            reset_on_logon: false,
            reset_on_logout: false,
            reset_on_disconnect: false,
            max_message_size: DEFAULT_MESSAGE_SIZE_LIMIT,
            logon_timeout: Duration::from_secs(DEFAULT_TIMEOUT_SECS),
            logout_timeout: Duration::from_secs(DEFAULT_TIMEOUT_SECS),
            validate_checksum: true,
            sender_sub_id: None,
            target_sub_id: None,
            sender_location_id: None,
            target_location_id: None,
        }
    }
}

impl SessionConfigBuilder {
    /// Creates a builder holding the defaults documented on
    /// [`SessionConfig::new`].
    #[must_use]
    pub fn new() -> (builder: Self)
        ensures
            builder@ == BuilderView::fresh(),
    {
        Self::default()
    }

    /// Sets the sender CompID (tag 49). Required.
    #[must_use]
    pub fn sender_comp_id(self, id: CompId) -> (builder: Self)
        ensures
            builder@ == (BuilderView { sender_comp_id: Some(id@), ..self@ }),
    {
        SessionConfigBuilder { sender_comp_id: Some(id), ..self }
    }

    /// Sets the target CompID (tag 56). Required.
    #[must_use]
    pub fn target_comp_id(self, id: CompId) -> (builder: Self)
        ensures
            builder@ == (BuilderView { target_comp_id: Some(id@), ..self@ }),
    {
        SessionConfigBuilder { target_comp_id: Some(id), ..self }
    }

    /// Sets the `BeginString` (tag 8), e.g. `FIX.4.4`.
    ///
    /// 1..=[`MAX_ID_LEN`] bytes of printable ASCII except `=`.
    #[must_use]
    pub fn begin_string(self, version: &str) -> (builder: Self)
        ensures
            builder@ == (BuilderView { begin_string: version@, ..self@ }),
    {
        SessionConfigBuilder { begin_string: version.to_owned(), ..self }
    }

    /// Sets the heartbeat interval, `HeartBtInt` (108).
    ///
    /// Whole seconds, from [`MIN_HEARTBEAT_INTERVAL_SECS`] to
    /// [`MAX_HEARTBEAT_INTERVAL_SECS`]. A fractional or out-of-range value is
    /// refused by [`SessionConfigBuilder::build`]; an empty span is refused
    /// there too, because disabling heartbeats is
    /// [`SessionConfigBuilder::disable_heartbeats`].
    #[must_use]
    pub fn heartbeat_interval(self, interval: Duration) -> (builder: Self)
        ensures
            builder@ == (BuilderView { heartbeat: Some(interval@), ..self@ }),
    {
        SessionConfigBuilder { heartbeat: HeartbeatSetting::Interval(interval), ..self }
    }

    /// Configures `HeartBtInt` (108) = 0: no Heartbeats, no TestRequests, and
    /// no heartbeat-driven liveness check for the life of the session.
    ///
    /// This is legal FIX and sometimes what a venue asks for, but it means a
    /// dead peer is only noticed when TCP notices. See the
    /// [`crate::session::heartbeat`] module.
    #[must_use]
    pub fn disable_heartbeats(self) -> (builder: Self)
        ensures
            builder@ == (BuilderView { heartbeat: None, ..self@ }),
    {
        SessionConfigBuilder { heartbeat: HeartbeatSetting::Disabled, ..self }
    }

    /// Sets whether the outbound Logon carries `ResetSeqNumFlag` (141) = Y.
    #[must_use]
    pub fn reset_on_logon(self, reset: bool) -> (builder: Self)
        ensures
            builder@ == (BuilderView { reset_on_logon: reset, ..self@ }),
    {
        SessionConfigBuilder { reset_on_logon: reset, ..self }
    }

    /// Sets whether sequence numbers reset after a graceful Logout.
    #[must_use]
    pub fn reset_on_logout(self, reset: bool) -> (builder: Self)
        ensures
            builder@ == (BuilderView { reset_on_logout: reset, ..self@ }),
    {
        SessionConfigBuilder { reset_on_logout: reset, ..self }
    }

    /// Sets whether sequence numbers reset when the session disconnects.
    #[must_use]
    pub fn reset_on_disconnect(self, reset: bool) -> (builder: Self)
        ensures
            builder@ == (BuilderView { reset_on_disconnect: reset, ..self@ }),
    {
        SessionConfigBuilder { reset_on_disconnect: reset, ..self }
    }

    /// Sets the maximum accepted message size, in bytes.
    ///
    /// [`MIN_MESSAGE_SIZE_LIMIT`]..=[`MAX_MESSAGE_SIZE_LIMIT`].
    #[must_use]
    pub fn max_message_size(self, size: usize) -> (builder: Self)
        ensures
            builder@ == (BuilderView { max_message_size: size, ..self@ }),
    {
        SessionConfigBuilder { max_message_size: size, ..self }
    }

    /// Sets how long to wait for the Logon acknowledgement.
    ///
    /// Non-zero, at most [`MAX_TIMEOUT_SECS`].
    #[must_use]
    pub fn logon_timeout(self, timeout: Duration) -> (builder: Self)
        ensures
            builder@ == (BuilderView { logon_timeout: timeout@, ..self@ }),
    {
        SessionConfigBuilder { logon_timeout: timeout, ..self }
    }

    /// Sets how long to wait for the Logout acknowledgement.
    ///
    /// Non-zero, at most [`MAX_TIMEOUT_SECS`].
    #[must_use]
    pub fn logout_timeout(self, timeout: Duration) -> (builder: Self)
        ensures
            builder@ == (BuilderView { logout_timeout: timeout@, ..self@ }),
    {
        SessionConfigBuilder { logout_timeout: timeout, ..self }
    }

    /// Sets whether inbound `CheckSum` (10) is validated.
    #[must_use]
    pub fn validate_checksum(self, validate: bool) -> (builder: Self)
        ensures
            builder@ == (BuilderView { validate_checksum: validate, ..self@ }),
    {
        SessionConfigBuilder { validate_checksum: validate, ..self }
    }

    /// Sets the sender sub ID (tag 50).
    ///
    /// 1..=[`MAX_ID_LEN`] bytes of printable ASCII except `=`.
    #[must_use]
    pub fn sender_sub_id(self, sub_id: &str) -> (builder: Self)
        ensures
            builder@ == (BuilderView { sender_sub_id: Some(sub_id@), ..self@ }),
    {
        SessionConfigBuilder { sender_sub_id: Some(sub_id.to_owned()), ..self }
    }

    /// Sets the target sub ID (tag 57).
    ///
    /// 1..=[`MAX_ID_LEN`] bytes of printable ASCII except `=`.
    #[must_use]
    pub fn target_sub_id(self, sub_id: &str) -> (builder: Self)
        ensures
            builder@ == (BuilderView { target_sub_id: Some(sub_id@), ..self@ }),
    {
        SessionConfigBuilder { target_sub_id: Some(sub_id.to_owned()), ..self }
    }

    /// Sets the sender location ID (tag 142).
    ///
    /// 1..=[`MAX_ID_LEN`] bytes of printable ASCII except `=`.
    #[must_use]
    pub fn sender_location_id(self, location_id: &str) -> (builder: Self)
        ensures
            builder@ == (BuilderView { sender_location_id: Some(location_id@), ..self@ }),
    {
        SessionConfigBuilder { sender_location_id: Some(location_id.to_owned()), ..self }
    }

    /// Sets the target location ID (tag 143).
    ///
    /// 1..=[`MAX_ID_LEN`] bytes of printable ASCII except `=`.
    #[must_use]
    pub fn target_location_id(self, location_id: &str) -> (builder: Self)
        ensures
            builder@ == (BuilderView { target_location_id: Some(location_id@), ..self@ }),
    {
        SessionConfigBuilder { target_location_id: Some(location_id.to_owned()), ..self }
    }

    /// Builds the configuration, validating every knob.
    ///
    /// # Errors
    /// [`SessionConfigError::MissingField`] if either CompID was never set, and
    /// [`SessionConfigError::HeartbeatDisabledWithoutOptIn`] if
    /// [`SessionConfigBuilder::heartbeat_interval`] was given an empty span
    /// instead of calling [`SessionConfigBuilder::disable_heartbeats`].
    /// Everything else is the first violation reported by
    /// [`SessionConfig::validate`].
    pub fn build(self) -> (config: Result<SessionConfig, SessionConfigError>)
        ensures
            match config {
                Ok(config) => self@.built() == Ok::<ConfigView, ConfigErrorView>(config@),
                Err(e) => self@.built() == Err::<ConfigView, ConfigErrorView>(e@),
            },
    {
        let sender_comp_id = match self.sender_comp_id {
            Some(id) => id,
            None => {
                return Err(SessionConfigError::MissingField { field: "sender_comp_id" });
            },
        };
        let target_comp_id = match self.target_comp_id {
            Some(id) => id,
            None => {
                return Err(SessionConfigError::MissingField { field: "target_comp_id" });
            },
        };
        let heartbeat_interval = match self.heartbeat {
            HeartbeatSetting::Disabled => Duration::zero(),
            HeartbeatSetting::Interval(interval) => {
                if interval.is_zero() {
                    return Err(SessionConfigError::HeartbeatDisabledWithoutOptIn);
                }
                interval
            },
        };
        let config = SessionConfig {
            sender_comp_id,
            target_comp_id,
            begin_string: self.begin_string,
            heartbeat_interval,
            reset_on_logon: self.reset_on_logon,
            reset_on_logout: self.reset_on_logout,
            reset_on_disconnect: self.reset_on_disconnect,
            max_message_size: self.max_message_size,
            logon_timeout: self.logon_timeout,
            logout_timeout: self.logout_timeout,
            validate_checksum: self.validate_checksum,
            // The knobs without a setter take the defaults of
            // `SessionConfig::new` and are tuned through the
            // `SessionConfig::with_*` setters after the build.
            validate_length: true,
            sending_time_tolerance: Duration::from_secs(DEFAULT_SENDING_TIME_TOLERANCE_SECS),
            resend_timeout: Duration::from_secs(DEFAULT_RESEND_TIMEOUT_SECS),
            max_resend_requests: DEFAULT_RESEND_REQUESTS,
            sender_sub_id: self.sender_sub_id,
            target_sub_id: self.target_sub_id,
            sender_location_id: self.sender_location_id,
            target_location_id: self.target_location_id,
        };
        match config.validate() {
            Ok(()) => Ok(config),
            Err(e) => Err(e),
        }
    }
}

} // verus!
