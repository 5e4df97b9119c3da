//! Message types and decoded messages.

use crate::outside::small::{field_slice, fields_in, Small};
use crate::types::charset::Charset;
use crate::types::error::{DecodeError, DecodeErrorView, MsgTypeError};
use crate::types::field::{FieldRef, FieldView};
use std::ops::Range;
use vstd::prelude::*;
use vstd::string::StringSliceAdditionalSpecFns;
use vstd::utf8::valid_utf8;

verus! {

/// Maximum length of a `MsgType` (35) value, in bytes.
pub const MSG_TYPE_MAX_LEN: usize = 8;

/// The type of a message, the value of `MsgType` (35).
#[derive(Debug, PartialEq, Eq)]
#[non_exhaustive]
pub enum MsgType {
    /// Heartbeat (`0`).
    Heartbeat,
    /// Test Request (`1`).
    TestRequest,
    /// Resend Request (`2`).
    ResendRequest,
    /// Reject (`3`).
    Reject,
    /// Sequence Reset (`4`).
    SequenceReset,
    /// Logout (`5`).
    Logout,
    /// Execution Report (`8`).
    ExecutionReport,
    /// Logon (`A`).
    Logon,
    /// New Order Single (`D`).
    NewOrderSingle,
    /// Any other code.
    Custom(String),
}

/// The type of a message, with its code as a sequence of characters.
#[verifier::ext_equal]
pub enum MsgTypeView {
    Heartbeat,
    TestRequest,
    ResendRequest,
    Reject,
    SequenceReset,
    Logout,
    ExecutionReport,
    Logon,
    NewOrderSingle,
    Custom(Seq<char>),
}

impl View for MsgType {
    type V = MsgTypeView;

    open spec fn view(&self) -> MsgTypeView {
        match *self {
            MsgType::Heartbeat => MsgTypeView::Heartbeat,
            MsgType::TestRequest => MsgTypeView::TestRequest,
            MsgType::ResendRequest => MsgTypeView::ResendRequest,
            MsgType::Reject => MsgTypeView::Reject,
            MsgType::SequenceReset => MsgTypeView::SequenceReset,
            MsgType::Logout => MsgTypeView::Logout,
            MsgType::ExecutionReport => MsgTypeView::ExecutionReport,
            MsgType::Logon => MsgTypeView::Logon,
            MsgType::NewOrderSingle => MsgTypeView::NewOrderSingle,
            MsgType::Custom(code) => MsgTypeView::Custom(code@),
        }
    }
}

/// The message type that `code` names.
pub open spec fn msg_type_of(code: Seq<char>) -> MsgTypeView {
    if code == seq!['0'] {
        MsgTypeView::Heartbeat
    } else if code == seq!['1'] {
        MsgTypeView::TestRequest
    } else if code == seq!['2'] {
        MsgTypeView::ResendRequest
    } else if code == seq!['3'] {
        MsgTypeView::Reject
    } else if code == seq!['4'] {
        MsgTypeView::SequenceReset
    } else if code == seq!['5'] {
        MsgTypeView::Logout
    } else if code == seq!['8'] {
        MsgTypeView::ExecutionReport
    } else if code == seq!['A'] {
        MsgTypeView::Logon
    } else if code == seq!['D'] {
        MsgTypeView::NewOrderSingle
    } else {
        MsgTypeView::Custom(code)
    }
}

/// The code that names `msg_type`.
pub open spec fn code_of(msg_type: MsgTypeView) -> Seq<char> {
    match msg_type {
        MsgTypeView::Heartbeat => seq!['0'],
        MsgTypeView::TestRequest => seq!['1'],
        MsgTypeView::ResendRequest => seq!['2'],
        MsgTypeView::Reject => seq!['3'],
        MsgTypeView::SequenceReset => seq!['4'],
        MsgTypeView::Logout => seq!['5'],
        MsgTypeView::ExecutionReport => seq!['8'],
        MsgTypeView::Logon => seq!['A'],
        MsgTypeView::NewOrderSingle => seq!['D'],
        MsgTypeView::Custom(code) => code,
    }
}

/// The bytes that a message type code may be written with: graphic ASCII
/// except `=`.
pub open spec fn written_code() -> Charset {
    Charset { space: false, equals: false }
}

/// The bytes that a message type code may be read with: graphic ASCII. A field
/// splits at its first `=`, so a `=` in its value is the value's own.
pub open spec fn read_code() -> Charset {
    Charset { space: false, equals: true }
}

/// Why a code with the bytes `code` is refused by a reader or writer that
/// accepts the bytes of `charset`.
pub open spec fn code_error(code: Seq<u8>, charset: Charset) -> Option<MsgTypeError> {
    if code.len() == 0 {
        Some(MsgTypeError::Empty)
    } else if code.len() > MSG_TYPE_MAX_LEN {
        Some(MsgTypeError::TooLong { len: code.len() as usize, max_len: MSG_TYPE_MAX_LEN })
    } else {
        match charset.first_outside(code) {
            Some(at) => Some(MsgTypeError::IllegalByte { byte: code[at], position: at as usize }),
            None => None,
        }
    }
}

/// Naming a type by its code and looking the code up again gives the code.
pub proof fn law_code_reads_back(code: Seq<char>)
    ensures
        code_of(msg_type_of(code)) == code,
{
}

/// The types of the session layer, and the two that it knows beside them, have
/// codes of one character; every other code names a type of its own.
pub proof fn law_type_is_named_by_its_code(code: Seq<char>)
    ensures
        msg_type_of(code) is Heartbeat <==> code == seq!['0'],
        msg_type_of(code) is TestRequest <==> code == seq!['1'],
        msg_type_of(code) is ResendRequest <==> code == seq!['2'],
        msg_type_of(code) is Reject <==> code == seq!['3'],
        msg_type_of(code) is SequenceReset <==> code == seq!['4'],
        msg_type_of(code) is Logout <==> code == seq!['5'],
        msg_type_of(code) is ExecutionReport <==> code == seq!['8'],
        msg_type_of(code) is Logon <==> code == seq!['A'],
        msg_type_of(code) is NewOrderSingle <==> code == seq!['D'],
        msg_type_of(code) matches MsgTypeView::Custom(name) ==> name == code,
{
    let codes = seq![
        seq!['0'],
        seq!['1'],
        seq!['2'],
        seq!['3'],
        seq!['4'],
        seq!['5'],
        seq!['8'],
        seq!['A'],
        seq!['D'],
    ];
    assert forall|i: int, j: int| 0 <= i < j < codes.len() implies codes[i] != codes[j] by {
        assert(codes[i][0] != codes[j][0]);
    }
}

/// A code that may be written may be read.
pub proof fn law_written_code_is_readable(code: Seq<u8>)
    requires
        code_error(code, written_code()) is None,
    ensures
        code_error(code, read_code()) is None,
{
    assert(written_code().has_all(code));
    assert(read_code().has_all(code)) by {
        assert forall|i: int| 0 <= i < code.len() implies read_code().has(#[trigger] code[i]) by {
            assert(written_code().has(code[i]));
        }
    }
}

impl Clone for MsgType {
    fn clone(&self) -> (copy: Self)
        ensures
            copy == *self,
    {
        match self {
            MsgType::Heartbeat => MsgType::Heartbeat,
            MsgType::TestRequest => MsgType::TestRequest,
            MsgType::ResendRequest => MsgType::ResendRequest,
            MsgType::Reject => MsgType::Reject,
            MsgType::SequenceReset => MsgType::SequenceReset,
            MsgType::Logout => MsgType::Logout,
            MsgType::ExecutionReport => MsgType::ExecutionReport,
            MsgType::Logon => MsgType::Logon,
            MsgType::NewOrderSingle => MsgType::NewOrderSingle,
            MsgType::Custom(code) => MsgType::Custom(code.clone()),
        }
    }
}

impl Default for MsgType {
    fn default() -> (msg_type: Self)
        ensures
            msg_type == MsgType::Heartbeat,
    {
        MsgType::Heartbeat
    }
}

impl MsgType {
    /// Creates a message type that is to be written into a frame.
    ///
    /// # Errors
    /// [`MsgTypeError`] if the code is empty, longer than
    /// [`MSG_TYPE_MAX_LEN`] bytes, or carries a byte other than graphic ASCII
    /// except `=`.
    pub fn new(code: &str) -> (msg_type: Result<MsgType, MsgTypeError>)
        ensures
            match msg_type {
                Ok(m) => code_error(code.spec_bytes(), written_code()) is None && m@
                    == msg_type_of(code@),
                Err(e) => code_error(code.spec_bytes(), written_code()) == Some(e),
            },
    {
        Self::checked(code, Charset { space: false, equals: false })
    }

    /// Reads the message type of a frame.
    ///
    /// # Errors
    /// [`MsgTypeError`] if the code is empty, longer than
    /// [`MSG_TYPE_MAX_LEN`] bytes, or carries a byte other than graphic ASCII.
    pub fn parse(code: &str) -> (msg_type: Result<MsgType, MsgTypeError>)
        ensures
            match msg_type {
                Ok(m) => code_error(code.spec_bytes(), read_code()) is None && m@ == msg_type_of(
                    code@,
                ),
                Err(e) => code_error(code.spec_bytes(), read_code()) == Some(e),
            },
    {
        Self::checked(code, Charset { space: false, equals: true })
    }

    fn checked(code: &str, charset: Charset) -> (msg_type: Result<MsgType, MsgTypeError>)
        ensures
            match msg_type {
                Ok(m) => code_error(code.spec_bytes(), charset) is None && m@ == msg_type_of(
                    code@,
                ),
                Err(e) => code_error(code.spec_bytes(), charset) == Some(e),
            },
    {
        let bytes = code.as_bytes();
        if bytes.is_empty() {
            return Err(MsgTypeError::Empty);
        }
        if bytes.len() > MSG_TYPE_MAX_LEN {
            return Err(MsgTypeError::TooLong { len: bytes.len(), max_len: MSG_TYPE_MAX_LEN });
        }
        if let Some(position) = charset.find_outside(bytes) {
            return Err(MsgTypeError::IllegalByte { byte: bytes[position], position });
        }
        proof {
            charset.lemma_text(code);
            assert(bytes@.len() == 1 ==> code@ =~= seq![bytes@[0] as char]);
        }
        if bytes.len() == 1 {
            match bytes[0] {
                48 => {
                    return Ok(MsgType::Heartbeat);
                },
                49 => {
                    return Ok(MsgType::TestRequest);
                },
                50 => {
                    return Ok(MsgType::ResendRequest);
                },
                51 => {
                    return Ok(MsgType::Reject);
                },
                52 => {
                    return Ok(MsgType::SequenceReset);
                },
                53 => {
                    return Ok(MsgType::Logout);
                },
                56 => {
                    return Ok(MsgType::ExecutionReport);
                },
                65 => {
                    return Ok(MsgType::Logon);
                },
                68 => {
                    return Ok(MsgType::NewOrderSingle);
                },
                _ => {},
            }
        }
        proof {
            if bytes@.len() == 1 {
                assert(code@[0] == bytes@[0] as char);
            }
            assert(seq!['0'][0] == '0' && seq!['1'][0] == '1' && seq!['2'][0] == '2');
        }
        Ok(MsgType::Custom(code.to_owned()))
    }

    /// Returns the code that tag 35 carries for this message type.
    pub fn as_str(&self) -> (code: &str)
        ensures
            code@ == code_of(self@),
    {
        proof {
            reveal_strlit("0");
            reveal_strlit("1");
            reveal_strlit("2");
            reveal_strlit("3");
            reveal_strlit("4");
            reveal_strlit("5");
            reveal_strlit("8");
            reveal_strlit("A");
            reveal_strlit("D");
        }
        match self {
            MsgType::Heartbeat => "0",
            MsgType::TestRequest => "1",
            MsgType::ResendRequest => "2",
            MsgType::Reject => "3",
            MsgType::SequenceReset => "4",
            MsgType::Logout => "5",
            MsgType::ExecutionReport => "8",
            MsgType::Logon => "A",
            MsgType::NewOrderSingle => "D",
            MsgType::Custom(code) => code.as_str(),
        }
    }
}

/// What a decoded message consists of.
#[verifier::ext_equal]
pub struct RawMessageView {
    /// The bytes of the whole message.
    pub buffer: Seq<u8>,
    /// Where the value of `BeginString` (8) starts and ends in the buffer.
    pub begin_string: (nat, nat),
    /// Where the body starts and ends in the buffer.
    pub body: (nat, nat),
    /// The message type.
    pub msg_type: MsgTypeView,
    /// The fields before `CheckSum` (10), in the order of the message.
    pub fields: Seq<FieldView>,
}

impl RawMessageView {
    /// The index of the first field with the given tag.
    pub open spec fn is_first_field(self, tag: u32, at: int) -> bool {
        &&& 0 <= at < self.fields.len()
        &&& self.fields[at].tag == tag
        &&& forall|j: int| 0 <= j < at ==> (#[trigger] self.fields[j]).tag != tag
    }

    /// Whether the message has a field with the given tag.
    pub open spec fn has_field(self, tag: u32) -> bool {
        exists|at: int| self.is_first_field(tag, at)
    }

    /// The first field with the given tag.
    pub open spec fn field(self, tag: u32) -> FieldView {
        self.fields[choose|at: int| self.is_first_field(tag, at)]
    }

    /// The first field with a tag is the one at its first index.
    pub proof fn lemma_first_field(self, tag: u32, at: int)
        requires
            self.is_first_field(tag, at),
        ensures
            self.has_field(tag),
            self.field(tag) == self.fields[at],
    {
        let other = choose|i: int| self.is_first_field(tag, i);
        assert(self.is_first_field(tag, other));
        assert(!(other < at) && !(at < other));
    }
}

/// Of several fields with a tag the first is found, and a message has a field
/// with a tag where any of its fields has that tag.
pub proof fn law_first_field_with_a_tag_is_found(message: RawMessageView, tag: u32, at: int)
    requires
        0 <= at <= message.fields.len(),
        forall|j: int| 0 <= j < at ==> (#[trigger] message.fields[j]).tag != tag,
        at < message.fields.len() ==> message.fields[at].tag == tag,
    ensures
        message.has_field(tag) <==> at < message.fields.len(),
        at < message.fields.len() ==> message.field(tag) == message.fields[at],
{
    if at < message.fields.len() {
        assert(message.is_first_field(tag, at));
        message.lemma_first_field(tag, at);
    }
}

/// A range lies in a buffer where it does not end before it starts or behind the
/// buffer.
pub proof fn law_range_lies_in_the_buffer(start: nat, end: nat, len: nat)
    ensures
        in_bounds(start, end, len) <==> start <= end && end <= len,
{
}

/// A message type code is refused where it is empty, longer than eight bytes, or
/// holds a byte that is not graphic ASCII, and only there; a writer refuses `=`
/// as well.
pub proof fn law_code_is_graphic(code: Seq<u8>)
    ensures
        code_error(code, read_code()) is None <==> {
            &&& 1 <= code.len() <= 8
            &&& forall|i: int| 0 <= i < code.len() ==> 0x21 <= #[trigger] code[i] <= 0x7e
        },
        code_error(code, written_code()) is None <==> {
            &&& 1 <= code.len() <= 8
            &&& forall|i: int|
                0 <= i < code.len() ==> 0x21 <= #[trigger] code[i] <= 0x7e && code[i] != 0x3d
        },
{
    if forall|i: int| 0 <= i < code.len() ==> 0x21 <= #[trigger] code[i] <= 0x7e {
        assert(read_code().has_all(code));
    }
    if read_code().has_all(code) {
        assert forall|i: int| 0 <= i < code.len() implies 0x21 <= #[trigger] code[i] <= 0x7e by {
            assert(read_code().has(code[i]));
        }
    }
    if forall|i: int|
        0 <= i < code.len() ==> 0x21 <= #[trigger] code[i] <= 0x7e && code[i] != 0x3d {
        assert(written_code().has_all(code));
    }
    if written_code().has_all(code) {
        assert forall|i: int| 0 <= i < code.len() implies 0x21 <= #[trigger] code[i] <= 0x7e
            && code[i] != 0x3d by {
            assert(written_code().has(code[i]));
        }
    }
}

/// Whether `start..end` is a range of a buffer of `len` bytes.
pub open spec fn in_bounds(start: nat, end: nat, len: nat) -> bool {
    start <= end <= len
}

/// A decoded message that borrows its bytes from the input buffer.
#[derive(Debug)]
pub struct RawMessage<'a> {
    /// The bytes of the whole message.
    buffer: &'a [u8],
    /// Range of the `BeginString` (8) value.
    begin_string: Range<usize>,
    /// Range of the body.
    body: Range<usize>,
    /// The message type.
    msg_type: MsgType,
    /// The fields before `CheckSum` (10).
    fields: Small<FieldRef<'a>, 32>,
}

impl View for RawMessage<'_> {
    type V = RawMessageView;

    closed spec fn view(&self) -> RawMessageView {
        RawMessageView {
            buffer: self.buffer@,
            begin_string: (self.begin_string.start as nat, self.begin_string.end as nat),
            body: (self.body.start as nat, self.body.end as nat),
            msg_type: self.msg_type@,
            fields: fields_in(self.fields),
        }
    }
}

impl<'a> RawMessage<'a> {
    #[verifier::type_invariant]
    spec fn ranges_in_bounds(self) -> bool {
        &&& self.begin_string.start <= self.begin_string.end <= self.buffer@.len()
        &&& self.body.start <= self.body.end <= self.buffer@.len()
    }

    /// Creates a message from its bytes and the ranges in them.
    ///
    /// # Errors
    /// [`DecodeError::RangeOutOfBounds`] for the first of the two ranges that
    /// does not lie in `buffer`.
    pub fn new(
        buffer: &'a [u8],
        begin_string: Range<usize>,
        body: Range<usize>,
        msg_type: MsgType,
        fields: Small<FieldRef<'a>, 32>,
    ) -> (message: Result<Self, DecodeError>)
        ensures
            ({
                let len = buffer@.len();
                let first = (begin_string.start as nat, begin_string.end as nat);
                let second = (body.start as nat, body.end as nat);
                if !in_bounds(first.0, first.1, len) {
                    message matches Err(e) && e@ == (DecodeErrorView::RangeOutOfBounds {
                        start: first.0,
                        end: first.1,
                        buffer_len: len,
                    })
                } else if !in_bounds(second.0, second.1, len) {
                    message matches Err(e) && e@ == (DecodeErrorView::RangeOutOfBounds {
                        start: second.0,
                        end: second.1,
                        buffer_len: len,
                    })
                } else {
                    message matches Ok(m) && m@ == (RawMessageView {
                        buffer: buffer@,
                        begin_string: first,
                        body: second,
                        msg_type: msg_type@,
                        fields: fields_in(fields),
                    })
                }
            }),
    {
        let buffer_len: usize = buffer.len();
        if begin_string.start > begin_string.end || begin_string.end > buffer_len {
            return Err(
                DecodeError::RangeOutOfBounds {
                    start: begin_string.start,
                    end: begin_string.end,
                    buffer_len,
                },
            );
        }
        if body.start > body.end || body.end > buffer_len {
            return Err(
                DecodeError::RangeOutOfBounds { start: body.start, end: body.end, buffer_len },
            );
        }
        Ok(RawMessage { buffer, begin_string, body, msg_type, fields })
    }

    /// Returns the value of `BeginString` (8) as text.
    ///
    /// # Errors
    /// [`DecodeError::InvalidUtf8`] if the value is not valid UTF-8.
    pub fn begin_string(&self) -> (text: Result<&'a str, DecodeError>)
        ensures
            ({
                let value = self@.buffer.subrange(
                    self@.begin_string.0 as int,
                    self@.begin_string.1 as int,
                );
                match text {
                    Ok(s) => valid_utf8(value) && s.spec_bytes() == value,
                    Err(e) => !valid_utf8(value) && e@ == DecodeErrorView::InvalidUtf8,
                }
            }),
    {
        proof {
            use_type_invariant(self);
        }
        let value = vstd::slice::slice_subrange(
            self.buffer,
            self.begin_string.start,
            self.begin_string.end,
        );
        match core::str::from_utf8(value) {
            Ok(text) => Ok(text),
            Err(error) => Err(DecodeError::InvalidUtf8(error)),
        }
    }

    /// Returns the bytes of the body: what lies between `BodyLength` (9) and
    /// `CheckSum` (10).
    ///
    /// The range is checked when the message is made, so this does not fail.
    pub fn body(&self) -> (body: Result<&'a [u8], DecodeError>)
        ensures
            body matches Ok(b) && b@ == self@.buffer.subrange(
                self@.body.0 as int,
                self@.body.1 as int,
            ),
    {
        proof {
            use_type_invariant(self);
        }
        Ok(vstd::slice::slice_subrange(self.buffer, self.body.start, self.body.end))
    }

    /// Returns the range of the body in the message.
    pub fn body_range(&self) -> (range: &Range<usize>)
        ensures
            (range.start as nat, range.end as nat) == self@.body,
    {
        &self.body
    }

    /// Returns the message type.
    pub fn msg_type(&self) -> (msg_type: &MsgType)
        ensures
            msg_type@ == self@.msg_type,
    {
        &self.msg_type
    }

    /// Returns the fields before `CheckSum` (10), in the order of the message.
    pub fn fields(&self) -> (fields: &[FieldRef<'a>])
        ensures
            fields@.len() == self@.fields.len(),
            forall|i: int| 0 <= i < fields@.len() ==> (#[trigger] fields@[i])@ == self@.fields[i],
    {
        field_slice(&self.fields)
    }

    /// Returns the first field with the given tag.
    pub fn get_field(&self, tag: u32) -> (field: Option<FieldRef<'a>>)
        ensures
            match field {
                Some(f) => self@.has_field(tag) && f@ == self@.field(tag),
                None => !self@.has_field(tag),
            },
    {
        let fields = field_slice(&self.fields);
        let mut i: usize = 0;
        while i < fields.len()
            invariant
                i <= fields@.len(),
                fields@.len() == self@.fields.len(),
                forall|k: int|
                    0 <= k < fields@.len() ==> (#[trigger] fields@[k])@ == self@.fields[k],
                forall|j: int| 0 <= j < i ==> (#[trigger] self@.fields[j]).tag != tag,
            decreases fields@.len() - i,
        {
            let field = fields[i];
            assert(field@ == self@.fields[i as int]);
            if field.tag == tag {
                proof {
                    self@.lemma_first_field(tag, i as int);
                }
                return Some(field);
            }
            i += 1;
        }
        None
    }

    /// Returns the value of the first field with the given tag as text.
    ///
    /// `None` if there is no such field or its value is not valid UTF-8.
    pub fn get_field_str(&self, tag: u32) -> (text: Option<&'a str>)
        ensures
            match text {
                Some(s) => self@.has_field(tag) && s.spec_bytes() == self@.field(tag).value,
                None => !(self@.has_field(tag) && valid_utf8(self@.field(tag).value)),
            },
    {
        match self.get_field(tag) {
            Some(field) => match field.as_str() {
                Ok(text) => Some(text),
                Err(_) => None,
            },
            None => None,
        }
    }

    /// Returns the number of fields before `CheckSum` (10).
    pub fn field_count(&self) -> (count: usize)
        ensures
            count == self@.fields.len(),
    {
        field_slice(&self.fields).len()
    }

    /// Returns the length of the message, in bytes.
    pub fn len(&self) -> (len: usize)
        ensures
            len == self@.buffer.len(),
    {
        self.buffer.len()
    }

    /// Returns true if the message has no bytes.
    pub fn is_empty(&self) -> (empty: bool)
        ensures
            empty == (self@.buffer.len() == 0),
    {
        self.buffer.is_empty()
    }
}

} // verus!
