//! The encoder: from a value to the exact bytes that stand for it.

use crate::resp::decimal::{decimal, push_decimal, push_digits};
use crate::resp::{lemma_views, Value, ValueView};
use vstd::prelude::*;
use vstd::utf8::encode_utf8;

verus! {

/// The line terminator, CR LF.
pub open spec fn crlf() -> Seq<u8> {
    seq![13u8, 10u8]
}

/// The bytes that stand for the value `v` on the wire.
pub open spec fn encoding(v: ValueView) -> Seq<u8>
    decreases v,
{
    match v {
        ValueView::Null => seq![36u8, 45u8, 49u8, 13u8, 10u8],
        ValueView::NullArray => seq![42u8, 45u8, 49u8, 13u8, 10u8],
        ValueView::String(text) => seq![43u8] + encode_utf8(text) + crlf(),
        ValueView::Error(text) => seq![45u8] + encode_utf8(text) + crlf(),
        ValueView::Integer(number) => seq![58u8] + decimal(number as int) + crlf(),
        ValueView::Array(items) => seq![42u8] + decimal(items.len() as int) + crlf()
            + encoding_all(items),
        ValueView::Bulk(text) => seq![36u8] + decimal(encode_utf8(text).len() as int) + crlf()
            + encode_utf8(text) + crlf(),
    }
}

/// The encodings of `items`, one after the other.
pub open spec fn encoding_all(items: Seq<ValueView>) -> Seq<u8>
    decreases items,
{
    if items.len() == 0 {
        Seq::empty()
    } else {
        encoding_all(items.drop_last()) + encoding(items.last())
    }
}

impl Value {
    /// Appends the encoding of this value to `writer`, as one contiguous
    /// run of bytes.
    pub fn write(&self, writer: &mut Vec<u8>)
        ensures
            final(writer)@ == old(writer)@ + encoding(self@),
    {
        encode_to_buffer(self, writer);
    }
}

/// Appends the encoding of `value` to `buffer`.
pub fn encode_to_buffer(value: &Value, buffer: &mut Vec<u8>)
    ensures
        final(buffer)@ == old(buffer)@ + encoding(value@),
    decreases value,
{
    match value {
        Value::Null => {
            buffer.push(36u8);
            buffer.push(45u8);
            buffer.push(49u8);
            buffer.push(13u8);
            buffer.push(10u8);
            assert(buffer@ =~= old(buffer)@ + encoding(value@));
        },
        Value::NullArray => {
            buffer.push(42u8);
            buffer.push(45u8);
            buffer.push(49u8);
            buffer.push(13u8);
            buffer.push(10u8);
            assert(buffer@ =~= old(buffer)@ + encoding(value@));
        },
        Value::String(text) => write_string(buffer, 43u8, text.as_str()),
        Value::Error(text) => write_string(buffer, 45u8, text.as_str()),
        Value::Integer(number) => {
            buffer.push(58u8);
            push_decimal(buffer, *number);
            buffer.push(13u8);
            buffer.push(10u8);
            assert(buffer@ =~= old(buffer)@ + encoding(value@));
        },
        Value::Array(items) => {
            let size: usize = items.len();
            buffer.push(42u8);
            push_digits(buffer, size as u64);
            buffer.push(13u8);
            buffer.push(10u8);
            let ghost head = buffer@;
            assert(head =~= old(buffer)@ + (seq![42u8] + decimal(size as int) + crlf()));
            let mut i: usize = 0;
            while i < size
                invariant
                    i <= size,
                    size == items@.len(),
                    *value is Array,
                    value->Array_0 == *items,
                    buffer@ == head + encoding_all(value@->Array_0.take(i as int)),
                decreases size - i,
            {
                proof {
                    assert(decreases_to!(*value => value->Array_0));
                    lemma_views(items@);
                    let prefix = value@->Array_0.take(i + 1);
                    assert(prefix.drop_last() =~= value@->Array_0.take(i as int));
                    assert(prefix.last() == items@[i as int]@);
                    assert(encoding_all(prefix) == encoding_all(prefix.drop_last()) + encoding(
                        prefix.last(),
                    ));
                }
                encode_to_buffer(&items[i], buffer);
                i += 1;
            }
            proof {
                lemma_views(items@);
                assert(value@->Array_0.take(size as int) =~= value@->Array_0);
                assert(buffer@ =~= old(buffer)@ + encoding(value@));
            }
        },
        Value::Bulk(text) => {
            let bytes = text.as_str().as_bytes();
            let size: usize = bytes.len();
            buffer.push(36u8);
            push_digits(buffer, size as u64);
            buffer.push(13u8);
            buffer.push(10u8);
            buffer.extend_from_slice(bytes);
            buffer.push(13u8);
            buffer.push(10u8);
            assert(buffer@ =~= old(buffer)@ + encoding(value@));
        },
    }
}

/// Appends one line to `buffer`: the tag `prefix`, the text, CR LF.
fn write_string(buffer: &mut Vec<u8>, prefix: u8, text: &str)
    ensures
        final(buffer)@ == old(buffer)@ + (seq![prefix] + encode_utf8(text@) + crlf()),
{
    buffer.push(prefix);
    buffer.extend_from_slice(text.as_bytes());
    buffer.push(13u8);
    buffer.push(10u8);
    assert(buffer@ =~= old(buffer)@ + (seq![prefix] + encode_utf8(text@) + crlf()));
}

} // verus!
