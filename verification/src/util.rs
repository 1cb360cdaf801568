//! Conversions from raw bytes to text and numbers.

use crate::buffer::{bytes_as_slice, bytes_view};
use crate::decimal::{decimal, is_digit, lemma_decimal_digits, parse_decimal, parse_u64, push_decimal};
use crate::error::{ErrorView, RedisError};
use bytes::Bytes;
use vstd::prelude::*;
use vstd::utf8::{decode_utf8, encode_utf8, encode_utf8_decode_utf8, encode_utf8_valid_utf8, is_ascii_chars, is_ascii_chars_encode_utf8, valid_utf8};

verus! {

/// `core::str::from_utf8`: the bytes are handed back as text exactly when they
/// are well-formed UTF-8, and the text is then what they encode. Trusted; the
/// contract restates the standard library's documentation over vstd's
/// definition of UTF-8.
#[verifier::external_body]
pub(crate) fn str_from_utf8<'a>(bytes: &'a [u8]) -> (r: Option<&'a str>)
    ensures
        r is Some <==> valid_utf8(bytes@),
        r matches Some(s) ==> s@ == decode_utf8(bytes@),
{
    core::str::from_utf8(bytes).ok()
}

/// The message of the error that malformed input gets.
pub open spec fn syntax_message() -> Seq<char> {
    "syntax error"@
}

/// Reads a slice of bytes as UTF-8 text.
pub fn slice_to_string(bytes: &[u8]) -> (r: Result<String, RedisError>)
    ensures
        match r {
            Ok(s) => valid_utf8(bytes@) && s@ == decode_utf8(bytes@),
            Err(e) => !valid_utf8(bytes@) && e@ == ErrorView::SyntaxErr(syntax_message()),
        },
{
    match str_from_utf8(bytes) {
        Some(s) => Ok(s.to_owned()),
        None => Err(RedisError::syntax_err("syntax error")),
    }
}

/// Reads a buffer as UTF-8 text; bytes that are not UTF-8 are a syntax error.
pub fn bytes_to_string(bytes: Bytes) -> (r: Result<String, RedisError>)
    ensures
        match r {
            Ok(s) => valid_utf8(bytes_view(bytes)) && s@ == decode_utf8(bytes_view(bytes)),
            Err(e) => !valid_utf8(bytes_view(bytes)) && e@ == ErrorView::SyntaxErr(
                syntax_message(),
            ),
        },
{
    slice_to_string(bytes_as_slice(&bytes))
}

/// Reads a buffer as an unsigned decimal number; anything else is a syntax
/// error.
pub fn bytes_to_u64(bytes: Bytes) -> (r: Result<u64, RedisError>)
    ensures
        match r {
            Ok(n) => parse_decimal(bytes_view(bytes)) == Some(n),
            Err(e) => parse_decimal(bytes_view(bytes)) is None && e@ == ErrorView::SyntaxErr(
                syntax_message(),
            ),
        },
{
    match parse_u64(bytes_as_slice(&bytes)) {
        Some(n) => Ok(n),
        None => Err(RedisError::syntax_err("syntax error")),
    }
}

/// True when every byte of `s` is an ASCII character.
pub open spec fn all_ascii(s: Seq<u8>) -> bool {
    forall|i: int| 0 <= i < s.len() ==> (#[trigger] s[i]) < 128
}

/// The characters that ASCII bytes stand for, one for one.
pub open spec fn ascii_chars(s: Seq<u8>) -> Seq<char> {
    Seq::new(s.len(), |i: int| s[i] as char)
}

/// ASCII bytes are well-formed UTF-8 and encode their own characters.
pub proof fn lemma_ascii_is_text(s: Seq<u8>)
    requires
        all_ascii(s),
    ensures
        valid_utf8(s),
        decode_utf8(s) == ascii_chars(s),
        encode_utf8(ascii_chars(s)) == s,
{
    let chars = ascii_chars(s);
    assert(is_ascii_chars(chars)) by {
        assert forall|i: int| 0 <= i < chars.len() implies '\0' <= #[trigger] chars[i]
            <= '\u{7f}' by {
            assert(s[i] < 128);
        }
    }
    is_ascii_chars_encode_utf8(chars);
    assert(encode_utf8(chars) =~= s) by {
        assert forall|i: int| 0 <= i < s.len() implies encode_utf8(chars)[i] == s[i] by {
            assert(chars[i] as u8 == s[i]);
        }
    }
    encode_utf8_valid_utf8(chars);
    encode_utf8_decode_utf8(chars);
}

/// The text of the decimal writing of `n`.
pub open spec fn decimal_text(n: nat) -> Seq<char> {
    ascii_chars(decimal(n))
}

/// Turns ASCII bytes into the text they spell.
pub(crate) fn ascii_to_string(bytes: &[u8]) -> (s: String)
    requires
        all_ascii(bytes@),
    ensures
        s@ == ascii_chars(bytes@),
{
    proof {
        lemma_ascii_is_text(bytes@);
    }
    match str_from_utf8(bytes) {
        Some(t) => t.to_owned(),
        None => String::new(),
    }
}

/// The decimal writing of `n` as text.
pub fn decimal_string(n: u64) -> (s: String)
    ensures
        s@ == decimal_text(n as nat),
{
    let mut digits: Vec<u8> = Vec::new();
    push_decimal(&mut digits, n);
    proof {
        lemma_decimal_digits(n as nat);
        assert(digits@ =~= decimal(n as nat));
        assert forall|i: int| 0 <= i < digits@.len() implies (#[trigger] digits@[i]) < 128 by {
            assert(is_digit(digits@[i]));
        }
    }
    ascii_to_string(digits.as_slice())
}

} // verus!
