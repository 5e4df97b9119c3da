//! UTF-8 text of the standard library.

use vstd::prelude::*;
use vstd::string::StringSliceAdditionalSpecFns;
use vstd::utf8::{decode_utf8, encode_utf8, valid_utf8};

verus! {

/// The error of `core::str::from_utf8`.
#[verifier::external_type_specification]
#[verifier::external_body]
pub struct ExUtf8Error(core::str::Utf8Error);

/// `core::str::from_utf8`: the text that `v` encodes, where `v` is valid
/// UTF-8, and an error otherwise.
pub assume_specification[ core::str::from_utf8 ](v: &[u8]) -> (text: Result<
    &str,
    core::str::Utf8Error,
>)
    ensures
        text is Ok <==> valid_utf8(v@),
        text matches Ok(s) ==> s.spec_bytes() == v@,
;

/// The text that `String::from_utf8_lossy` makes of `bytes`.
pub uninterp spec fn utf8_lossy(bytes: Seq<u8>) -> Seq<char>;

/// `String::from_utf8_lossy`: the text of `bytes`, with U+FFFD in the place of
/// what is not UTF-8; valid UTF-8 is decoded as it stands.
#[verifier::external_body]
pub(crate) fn lossy_text(bytes: &[u8]) -> (text: String)
    ensures
        text@ == utf8_lossy(bytes@),
        valid_utf8(bytes@) ==> text@ == decode_utf8(bytes@),
{
    String::from_utf8_lossy(bytes).into_owned()
}

/// `char::encode_utf8`: the UTF-8 bytes of `c`.
#[verifier::external_body]
pub(crate) fn char_bytes(c: char) -> (bytes: Vec<u8>)
    ensures
        bytes@ == encode_utf8(seq![c]),
{
    let mut buf: [u8; 4] = [0; 4];
    c.encode_utf8(&mut buf).as_bytes().to_vec()
}

/// The lower-case hexadecimal digit of `n`.
pub open spec fn hex_digit(n: u8) -> char {
    if n < 10 {
        (48 + n) as char
    } else {
        (87 + n) as char
    }
}

/// The two hexadecimal digits of `byte`.
pub open spec fn hex_chars(byte: u8) -> Seq<char> {
    seq![hex_digit(byte / 16), hex_digit((byte % 16) as u8)]
}

/// The hexadecimal digit of `n`, as text.
fn hex_digit_text(n: u8) -> (text: &'static str)
    requires
        n < 16,
    ensures
        text@ == seq![hex_digit(n)],
{
    proof {
        reveal_strlit("0");
        reveal_strlit("1");
        reveal_strlit("2");
        reveal_strlit("3");
        reveal_strlit("4");
        reveal_strlit("5");
        reveal_strlit("6");
        reveal_strlit("7");
        reveal_strlit("8");
        reveal_strlit("9");
        reveal_strlit("a");
        reveal_strlit("b");
        reveal_strlit("c");
        reveal_strlit("d");
        reveal_strlit("e");
        reveal_strlit("f");
    }
    match n {
        0 => "0",
        1 => "1",
        2 => "2",
        3 => "3",
        4 => "4",
        5 => "5",
        6 => "6",
        7 => "7",
        8 => "8",
        9 => "9",
        10 => "a",
        11 => "b",
        12 => "c",
        13 => "d",
        14 => "e",
        _ => "f",
    }
}

/// The two hexadecimal digits of `byte`, as text.
pub fn hex_text(byte: u8) -> (text: String)
    ensures
        text@ == hex_chars(byte),
{
    let mut text = String::from_str(hex_digit_text(byte / 16));
    text.append(hex_digit_text(byte % 16));
    assert(text@ =~= hex_chars(byte));
    text
}

} // verus!
