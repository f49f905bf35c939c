//! UTF-8 conversions between bytes, characters and strings, specified over
//! vstd's model of UTF-8 (`encode_utf8`, `decode_utf8`, `valid_utf8`).

use vstd::prelude::*;
use vstd::utf8::*;

verus! {

/// True when `code` is a Unicode scalar value, i.e. the value of some `char`.
pub open spec fn is_char_code(code: u32) -> bool {
    code < 0xD800 || (0xE000 <= code && code <= 0x10FFFF)
}

/// Calls `std::char::from_u32`. Its documentation: it returns `Some` of the
/// character whose value is `code` when `code` is a Unicode scalar value, and
/// `None` otherwise.
#[verifier::external_body]
pub(crate) fn char_from_u32(code: u32) -> (res: Option<char>)
    ensures
        res is Some <==> is_char_code(code),
        res matches Some(c) ==> c as u32 == code,
{
    std::char::from_u32(code)
}

/// The UTF-8 encoding of `c`: one to four bytes, by the width of its value.
pub(crate) fn char_utf8_bytes(c: char) -> (res: Vec<u8>)
    ensures
        res@ == encode_utf8(seq![c]),
{
    let v = c as u32;
    let mut out: Vec<u8> = Vec::new();
    if v <= 0x7F {
        out.push((v & 0x7F) as u8);
    } else if v <= 0x7FF {
        out.push(0xC0 | ((v >> 6) & 0x1F) as u8);
        out.push(0x80 | (v & 0x3F) as u8);
    } else if v <= 0xFFFF {
        out.push(0xE0 | ((v >> 12) & 0x0F) as u8);
        out.push(0x80 | ((v >> 6) & 0x3F) as u8);
        out.push(0x80 | (v & 0x3F) as u8);
    } else {
        out.push(0xF0 | ((v >> 18) & 0x7) as u8);
        out.push(0x80 | ((v >> 12) & 0x3F) as u8);
        out.push(0x80 | ((v >> 6) & 0x3F) as u8);
        out.push(0x80 | (v & 0x3F) as u8);
    }
    assert(seq![c].drop_first() =~= Seq::<char>::empty());
    assert(encode_utf8(Seq::<char>::empty()) =~= Seq::<u8>::empty());
    assert(out@ =~= encode_scalar(v));
    assert(encode_utf8(seq![c]) =~= encode_scalar(v) + Seq::<u8>::empty());
    out
}

/// Calls `String::from_utf8`. Its documentation: the bytes become a
/// `String` when they are valid UTF-8, and an error comes back otherwise. The
/// contract claims exactly that, with the string's characters being the
/// UTF-8 decoding of the bytes.
#[verifier::external_body]
pub(crate) fn string_from_utf8(bytes: Vec<u8>) -> (res: Option<String>)
    ensures
        res is Some <==> valid_utf8(bytes@),
        res matches Some(s) ==> s@ == decode_utf8(bytes@),
{
    String::from_utf8(bytes).ok()
}

/// The characters that `String::from_utf8_lossy` makes of `bytes`: their
/// UTF-8 decoding with each invalid sequence replaced by U+FFFD.
pub uninterp spec fn utf8_lossy(bytes: Seq<u8>) -> Seq<char>;

/// The characters of `bytes` read as UTF-8: their decoding when they are
/// valid, and `utf8_lossy` of them otherwise.
pub open spec fn lossy_decode(bytes: Seq<u8>) -> Seq<char> {
    if valid_utf8(bytes) {
        decode_utf8(bytes)
    } else {
        utf8_lossy(bytes)
    }
}

/// Calls `String::from_utf8_lossy` and turns the result into a `String`.
/// The contract claims that the characters are the named `utf8_lossy` of the
/// bytes, and, as the documentation says, that valid UTF-8 comes back
/// decoded without replacement.
#[verifier::external_body]
pub(crate) fn string_from_utf8_lossy(bytes: &[u8]) -> (res: String)
    ensures
        res@ == utf8_lossy(bytes@),
        valid_utf8(bytes@) ==> res@ == decode_utf8(bytes@),
{
    String::from_utf8_lossy(bytes).into_owned()
}

} // verus!
