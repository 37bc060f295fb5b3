//! Text on the wire: UTF-8 payloads and the numbers written in them.

use crate::resp::decimal::{parse_decimal, parse_i64};
use crate::resp::Error;
use vstd::prelude::*;
use vstd::slice::slice_to_vec;
use vstd::utf8::*;

verus! {

/// The error type of `String::from_utf8`. Nothing is read from it.
#[verifier::external_type_specification]
#[verifier::external_body]
pub struct ExFromUtf8Error(std::string::FromUtf8Error);

/// `String::from_utf8` succeeds exactly on well-formed UTF-8, and the string
/// it then returns holds the characters that the bytes encode.
pub assume_specification[ std::string::String::from_utf8 ](vec: std::vec::Vec<u8>) -> (r: Result<
    std::string::String,
    std::string::FromUtf8Error,
>)
    ensures
        r is Ok <==> valid_utf8(vec@),
        r matches Ok(text) ==> text@ == decode_utf8(vec@),
;

/// The text that the payload `bytes` holds, or the error for bytes that are
/// not UTF-8.
pub open spec fn text_of(bytes: Seq<u8>) -> Result<Seq<char>, Error> {
    if valid_utf8(bytes) {
        Ok(decode_utf8(bytes))
    } else {
        Err(Error::InvalidData("Invalid Simple String"))
    }
}

/// The number that the payload `bytes` holds, or the error for bytes that
/// are not UTF-8 or not the decimal text of a signed 64-bit integer.
pub open spec fn number_of(bytes: Seq<u8>) -> Result<i64, Error> {
    if !valid_utf8(bytes) {
        Err(Error::InvalidData("Invalid Simple String"))
    } else {
        match parse_i64(bytes) {
            Some(number) => Ok(number),
            None => Err(Error::InvalidData("Invalid Integer")),
        }
    }
}

/// True when `text` does not hold the character `c`.
pub open spec fn lacks(text: Seq<char>, c: char) -> bool {
    forall|i: int| 0 <= i < text.len() ==> #[trigger] text[i] != c
}

/// True when `bytes` does not hold the byte `b`.
pub open spec fn lacks_byte(bytes: Seq<u8>, b: u8) -> bool {
    forall|i: int| 0 <= i < bytes.len() ==> #[trigger] bytes[i] != b
}

/// True when `text` holds neither a carriage return nor a line feed, so
/// that it can stand on one line.
pub open spec fn single_line(text: Seq<char>) -> bool {
    lacks(text, '\r') && lacks(text, '\n')
}

/// True when `text` holds no line feed.
pub open spec fn no_line_feed(text: Seq<char>) -> bool {
    lacks(text, '\n')
}

/// True when every byte of `bytes` is an ASCII character.
pub open spec fn is_ascii_bytes(bytes: Seq<u8>) -> bool {
    forall|i: int| 0 <= i < bytes.len() ==> #[trigger] bytes[i] < 128
}

/// The bytes of one encoded character: the ASCII character `a` is a single
/// byte, and no other character has that byte.
proof fn lemma_encode_scalar_ascii(c: char, a: char)
    requires
        a as u32 <= 0x7f,
    ensures
        c == a ==> encode_scalar(c as u32) =~= seq![a as u8],
        c != a ==> lacks_byte(encode_scalar(c as u32), a as u8),
{
    let v = c as u32;
    if v <= 0x7f {
        assert((v & 0x7F) as u8 == v as u8) by (bit_vector)
            requires
                v <= 0x7f,
        ;
    } else {
        assert(forall|b: u8| 0x80u8 | b >= 128) by (bit_vector);
        assert(forall|b: u8| 0xC0u8 | b >= 128) by (bit_vector);
        assert(forall|b: u8| 0xE0u8 | b >= 128) by (bit_vector);
        assert(forall|b: u8| 0xF0u8 | b >= 128) by (bit_vector);
    }
}

/// Text holds the ASCII character `a` exactly if its encoding holds the
/// byte of `a`.
pub proof fn lemma_lacks_ascii(text: Seq<char>, a: char)
    requires
        a as u32 <= 0x7f,
    ensures
        lacks(text, a) <==> lacks_byte(encode_utf8(text), a as u8),
    decreases text.len(),
{
    if text.len() > 0 {
        let first = encode_scalar(text[0] as u32);
        let tail = text.drop_first();
        let rest = encode_utf8(tail);
        lemma_encode_scalar_ascii(text[0], a);
        lemma_lacks_ascii(tail, a);
        assert(encode_utf8(text) == first + rest);
        if lacks(text, a) {
            assert(text[0] != a);
            assert(lacks(tail, a)) by {
                assert forall|i: int| 0 <= i < tail.len() implies #[trigger] tail[i] != a by {
                    assert(tail[i] == text[i + 1]);
                }
            }
            assert forall|i: int| 0 <= i < encode_utf8(text).len() implies #[trigger] encode_utf8(
                text,
            )[i] != a as u8 by {
                if i < first.len() {
                    assert(encode_utf8(text)[i] == first[i]);
                } else {
                    assert(encode_utf8(text)[i] == rest[i - first.len()]);
                }
            }
        } else {
            let j = choose|j: int| 0 <= j < text.len() && text[j] == a;
            if j == 0 {
                assert(encode_utf8(text)[0] == first[0]);
            } else {
                assert(tail[j - 1] == text[j]);
                assert(!lacks(tail, a));
                let k = choose|k: int| 0 <= k < rest.len() && rest[k] == a as u8;
                assert(encode_utf8(text)[first.len() + k] == rest[k]);
            }
        }
    }
}

/// ASCII bytes are well-formed UTF-8.
pub proof fn lemma_ascii_is_utf8(bytes: Seq<u8>)
    requires
        is_ascii_bytes(bytes),
    ensures
        valid_utf8(bytes),
    decreases bytes.len(),
{
    if bytes.len() > 0 {
        let b = bytes[0];
        assert(b < 128);
        assert((b & 0x7F) as u32 <= 0x7f) by (bit_vector);
        let rest = pop_first_scalar(bytes);
        assert(is_leading_byte_width_1(b));
        assert(length_of_first_scalar(bytes) == 1);
        assert(is_ascii_bytes(rest)) by {
            assert forall|i: int| 0 <= i < rest.len() implies #[trigger] rest[i] < 128 by {
                assert(rest[i] == bytes[i + 1]);
            }
        }
        lemma_ascii_is_utf8(rest);
    }
}

/// The content of a string result.
pub open spec fn text_outcome(r: Result<String, Error>) -> Result<Seq<char>, Error> {
    match r {
        Ok(text) => Ok(text@),
        Err(e) => Err(e),
    }
}

/// True when no byte of `bytes` is `b`.
pub fn has_no_byte(bytes: &[u8], b: u8) -> (none: bool)
    ensures
        none == lacks_byte(bytes@, b),
{
    let mut i: usize = 0;
    while i < bytes.len()
        invariant
            i <= bytes.len(),
            forall|j: int| 0 <= j < i ==> #[trigger] bytes@[j] != b,
        decreases bytes.len() - i,
    {
        if bytes[i] == b {
            return false;
        }
        i += 1;
    }
    true
}

/// True when `text` holds neither a carriage return nor a line feed.
pub fn is_single_line(text: &str) -> (single: bool)
    ensures
        single == single_line(text@),
{
    proof {
        lemma_lacks_ascii(text@, '\r');
        lemma_lacks_ascii(text@, '\n');
    }
    let bytes = text.as_bytes();
    has_no_byte(bytes, 13u8) && has_no_byte(bytes, 10u8)
}

/// Reads a payload as UTF-8 text.
pub fn parse_string(bytes: &[u8]) -> (r: Result<String, Error>)
    ensures
        text_outcome(r) == text_of(bytes@),
{
    match String::from_utf8(slice_to_vec(bytes)) {
        Ok(text) => Ok(text),
        Err(_) => Err(Error::InvalidData("Invalid Simple String")),
    }
}

/// Reads a payload as the decimal text of a signed 64-bit integer.
pub fn parse_number(bytes: &[u8]) -> (r: Result<i64, Error>)
    ensures
        r == number_of(bytes@),
{
    match parse_string(bytes) {
        Ok(text) => {
            proof {
                decode_utf8_encode_utf8(bytes@);
            }
            match parse_decimal(text.as_str().as_bytes()) {
                Some(number) => Ok(number),
                None => Err(Error::InvalidData("Invalid Integer")),
            }
        },
        Err(e) => Err(e),
    }
}

} // verus!
