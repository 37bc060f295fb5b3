//! What holds of the codec as a whole: decoding undoes encoding, framing is
//! strict, lengths are held to their range, and a bulk string is never cut
//! short.

use crate::resp::decimal::{decimal, decimal_value, lemma_decimal_bytes, lemma_decimal_value};
use crate::resp::legal::{lemma_legal_is_sendable, legal, sendable};
use crate::resp::read::{
    decode_at, decode_bulk, decode_items, lemma_decode_items_used, lemma_line_len, line_len,
    out_of_range, remaining, Decoded, DecodedItems, RESP_MAX_SIZE,
};
use crate::resp::text::{
    is_ascii_bytes, lemma_ascii_is_utf8, lemma_lacks_ascii, no_line_feed, number_of,
};
use crate::resp::write::{crlf, encoding, encoding_all};
use crate::resp::{Error, ValueView};
use vstd::prelude::*;
use vstd::utf8::{
    decode_utf8, decode_utf8_encode_utf8, encode_utf8, encode_utf8_decode_utf8,
    encode_utf8_valid_utf8, valid_utf8,
};

verus! {

/// True when the bytes `part` stand in `s` from position `pos` on.
pub open spec fn holds_at(s: Seq<u8>, pos: int, part: Seq<u8>) -> bool {
    &&& 0 <= pos
    &&& pos + part.len() <= s.len()
    &&& forall|i: int| 0 <= i < part.len() ==> s[pos + i] == #[trigger] part[i]
}

/// Where two runs of bytes stand one after the other, each of them stands
/// at its own place.
proof fn lemma_holds_split(s: Seq<u8>, pos: int, a: Seq<u8>, b: Seq<u8>)
    requires
        holds_at(s, pos, a + b),
    ensures
        holds_at(s, pos, a),
        holds_at(s, pos + a.len(), b),
{
    assert forall|i: int| 0 <= i < a.len() implies s[pos + i] == #[trigger] a[i] by {
        assert((a + b)[i] == a[i]);
    }
    assert forall|i: int| 0 <= i < b.len() implies s[pos + a.len() + i] == #[trigger] b[i] by {
        assert((a + b)[a.len() + i] == b[i]);
    }
}

/// A line whose first `k` bytes are no line feed and whose next byte is one
/// has `k + 1` bytes.
proof fn lemma_line_len_exact(s: Seq<u8>, pos: int, k: nat)
    requires
        0 <= pos,
        pos + k < s.len(),
        forall|i: int| pos <= i < pos + k ==> s[i] != 10u8,
        s[pos + k] == 10u8,
    ensures
        line_len(s, pos) == k + 1,
    decreases k,
{
    if k > 0 {
        lemma_line_len_exact(s, pos + 1, (k - 1) as nat);
    }
}

/// Where a tag, a payload without line feed and CR LF stand in the input,
/// they are one line, and the payload is what lies between tag and CR LF.
proof fn lemma_header_line(s: Seq<u8>, pos: int, tag: u8, payload: Seq<u8>)
    requires
        holds_at(s, pos, seq![tag] + payload + crlf()),
        tag != 10u8,
        forall|i: int| 0 <= i < payload.len() ==> #[trigger] payload[i] != 10u8,
    ensures
        line_len(s, pos) == payload.len() + 3,
        0 <= pos < s.len(),
        s[pos] == tag,
        s[pos + payload.len() + 1] == 13u8,
        s[pos + payload.len() + 2] == 10u8,
        s.subrange(pos + 1, pos + payload.len() + 1) == payload,
{
    let line = seq![tag] + payload + crlf();
    let k = payload.len() + 2;
    assert(line.len() == payload.len() + 3);
    assert(line[0] == tag);
    assert(line[payload.len() as int + 1] == 13u8);
    assert(line[payload.len() as int + 2] == 10u8);
    assert forall|i: int| pos <= i < pos + k implies s[i] != 10u8 by {
        let j = i - pos;
        assert(s[pos + j] == line[j]);
        if 1 <= j <= payload.len() {
            assert(line[j] == payload[j - 1]);
        }
    }
    assert(s[pos + k] == line[k as int]);
    lemma_line_len_exact(s, pos, k as nat);
    assert(s[pos + 0] == line[0]);
    assert(s[pos + (payload.len() + 1)] == line[payload.len() as int + 1]);
    assert forall|i: int| 0 <= i < payload.len() implies s.subrange(
        pos + 1,
        pos + payload.len() + 1,
    )[i] == payload[i] by {
        assert(s[pos + (i + 1)] == line[i + 1]);
        assert(line[i + 1] == payload[i]);
    }
    assert(s.subrange(pos + 1, pos + payload.len() + 1) =~= payload);
}

/// Decimal text reads back as the number it was written from.
pub proof fn lemma_number_of_decimal(number: i64)
    ensures
        number_of(decimal(number as int)) == Ok::<i64, Error>(number),
        forall|i: int|
            0 <= i < decimal(number as int).len() ==> #[trigger] decimal(number as int)[i]
                != 10u8,
{
    lemma_decimal_bytes(number as int);
    lemma_decimal_value(number as int);
    assert(is_ascii_bytes(decimal(number as int)));
    lemma_ascii_is_utf8(decimal(number as int));
}

/// Wherever the encoding of a value that can be sent stands in the input,
/// decoding at that place gives the value back and takes exactly the bytes
/// of the encoding.
pub proof fn lemma_decode_encoding(s: Seq<u8>, pos: int, v: ValueView)
    requires
        sendable(v),
        holds_at(s, pos, encoding(v)),
    ensures
        decode_at(s, pos) == (Decoded { result: Ok(v), used: encoding(v).len() }),
    decreases v,
{
    match v {
        ValueView::Null => {
            lemma_number_of_decimal(-1i64);
            assert(decimal(-1) =~= seq![45u8, 49u8]);
            assert(encoding(v) =~= seq![36u8] + decimal(-1) + crlf());
            lemma_header_line(s, pos, 36u8, decimal(-1));
        },
        ValueView::NullArray => {
            lemma_number_of_decimal(-1i64);
            assert(decimal(-1) =~= seq![45u8, 49u8]);
            assert(encoding(v) =~= seq![42u8] + decimal(-1) + crlf());
            lemma_header_line(s, pos, 42u8, decimal(-1));
        },
        ValueView::String(text) => {
            lemma_lacks_ascii(text, '\n');
            encode_utf8_valid_utf8(text);
            encode_utf8_decode_utf8(text);
            lemma_header_line(s, pos, 43u8, encode_utf8(text));
        },
        ValueView::Error(text) => {
            lemma_lacks_ascii(text, '\n');
            encode_utf8_valid_utf8(text);
            encode_utf8_decode_utf8(text);
            lemma_header_line(s, pos, 45u8, encode_utf8(text));
        },
        ValueView::Integer(number) => {
            lemma_number_of_decimal(number);
            lemma_header_line(s, pos, 58u8, decimal(number as int));
        },
        ValueView::Array(items) => {
            let size = items.len() as i64;
            let header = seq![42u8] + decimal(size as int) + crlf();
            lemma_number_of_decimal(size);
            assert(encoding(v) == header + encoding_all(items));
            lemma_holds_split(s, pos, header, encoding_all(items));
            lemma_header_line(s, pos, 42u8, decimal(size as int));
            lemma_decode_encoding_all(s, pos + header.len(), items);
        },
        ValueView::Bulk(text) => {
            let payload = encode_utf8(text);
            let size = payload.len() as i64;
            let header = seq![36u8] + decimal(size as int) + crlf();
            let at = pos + header.len();
            lemma_number_of_decimal(size);
            encode_utf8_valid_utf8(text);
            encode_utf8_decode_utf8(text);
            assert(encoding(v) =~= header + (payload + crlf()));
            lemma_holds_split(s, pos, header, payload + crlf());
            lemma_header_line(s, pos, 36u8, decimal(size as int));
            lemma_holds_split(s, at, payload, crlf());
            assert(s[at + size + 0] == crlf()[0]);
            assert(s[at + size + 1] == crlf()[1]);
            assert(s.subrange(at, at + size) =~= payload) by {
                assert forall|i: int| 0 <= i < payload.len() implies s[at + i] == payload[i] by {
                    assert(s[at + i] == payload[i]);
                }
            }
            assert(decode_bulk(s, at, Ok(size)) == (Decoded {
                result: Ok(v),
                used: (size + 2) as nat,
            }));
        },
    }
}

/// Wherever the encodings of values that can be sent stand one after the
/// other in the input, decoding that many units from that place gives the
/// values back and takes exactly the bytes of the encodings.
pub proof fn lemma_decode_encoding_all(s: Seq<u8>, pos: int, items: Seq<ValueView>)
    requires
        forall|i: int| 0 <= i < items.len() ==> sendable(#[trigger] items[i]),
        holds_at(s, pos, encoding_all(items)),
    ensures
        decode_items(s, pos, items.len()) == (DecodedItems {
            result: Ok(items),
            used: encoding_all(items).len(),
        }),
    decreases items,
{
    if items.len() == 0 {
        assert(items =~= Seq::<ValueView>::empty());
    } else {
        let front = items.drop_last();
        let last = items.last();
        assert(encoding_all(items) == encoding_all(front) + encoding(last));
        lemma_holds_split(s, pos, encoding_all(front), encoding(last));
        assert forall|i: int| 0 <= i < front.len() implies sendable(#[trigger] front[i]) by {
            assert(front[i] == items[i]);
        }
        lemma_decode_encoding_all(s, pos, front);
        lemma_decode_encoding(s, pos + encoding_all(front).len(), last);
        assert(front.push(last) =~= items);
        assert(decode_items(s, pos, items.len()).result == Ok::<Seq<ValueView>, Error>(
            front.push(last),
        ));
    }
}

/// Round trip: decoding the encoding of a legal value gives the value back,
/// and takes every byte of the encoding.
pub proof fn lemma_round_trip(v: ValueView)
    requires
        legal(v),
    ensures
        decode_at(encoding(v), 0) == (Decoded { result: Ok(v), used: encoding(v).len() }),
{
    lemma_legal_is_sendable(v);
    lemma_decode_encoding(encoding(v), 0, v);
}

/// Round trip in a stream: whatever follows the encoding of a legal value,
/// decoding gives the value back and stops where the encoding ends.
pub proof fn lemma_round_trip_pipelined(v: ValueView, rest: Seq<u8>)
    requires
        legal(v),
    ensures
        decode_at(encoding(v) + rest, 0) == (Decoded { result: Ok(v), used: encoding(v).len() }),
{
    lemma_legal_is_sendable(v);
    lemma_decode_encoding(encoding(v) + rest, 0, v);
}

/// Framing strictness: a unit whose first line has fewer than three bytes,
/// or does not end in CR LF, is refused as invalid input.
pub proof fn lemma_framing_strict(s: Seq<u8>, pos: int)
    requires
        0 <= pos < s.len(),
        line_len(s, pos) < 3 || !(s[pos + line_len(s, pos) - 2] == 13u8 && s[pos + line_len(
            s,
            pos,
        ) - 1] == 10u8),
    ensures
        decode_at(s, pos).result matches Err(Error::InvalidInput(_)),
        decode_at(s, pos).used == line_len(s, pos),
{
    lemma_line_len(s, pos);
}

/// True when the line at `pos` is well framed, carries the type tag `tag`
/// and has the decimal text of the integer `size` as its payload.
pub open spec fn announces(s: Seq<u8>, pos: int, tag: u8, size: int) -> bool {
    let n = line_len(s, pos);
    &&& 0 <= pos < s.len()
    &&& n >= 3
    &&& s[pos] == tag
    &&& s[pos + n - 2] == 13u8
    &&& s[pos + n - 1] == 10u8
    &&& decimal_value(s.subrange(pos + 1, pos + n - 2)) == Some(size)
}

/// The decimal text of an integer is read as that integer if it is a signed
/// 64-bit integer, and else is no number.
proof fn lemma_number_of_text(payload: Seq<u8>, size: int)
    requires
        decimal_value(payload) == Some(size),
    ensures
        i64::MIN <= size <= i64::MAX ==> number_of(payload) == Ok::<i64, Error>(size as i64),
        !(i64::MIN <= size <= i64::MAX) ==> number_of(payload) == Err::<i64, Error>(
            Error::InvalidData("Invalid Integer"),
        ),
{
    assert(is_ascii_bytes(payload)) by {
        assert forall|i: int| 0 <= i < payload.len() implies #[trigger] payload[i] < 128 by {
            if payload[0] == 45u8 || payload[0] == 43u8 {
                if i > 0 {
                    assert(payload.skip(1)[i - 1] == payload[i]);
                }
            }
        }
    }
    lemma_ascii_is_utf8(payload);
}

/// Range enforcement: an array or a bulk string that announces a length
/// below -1 or above 512 MiB is refused as invalid data.
pub proof fn lemma_range_enforced(s: Seq<u8>, pos: int, tag: u8, size: int)
    requires
        tag == 42u8 || tag == 36u8,
        announces(s, pos, tag, size),
        size < -1 || size > RESP_MAX_SIZE,
    ensures
        decode_at(s, pos).result matches Err(Error::InvalidData(_)),
        decode_at(s, pos).used == line_len(s, pos),
{
    lemma_number_of_text(s.subrange(pos + 1, pos + line_len(s, pos) - 2), size);
}

/// Sentinel: an array or a bulk string that announces the length -1 is the
/// absent array or the absent bulk string, and nothing after the header line
/// is read.
pub proof fn lemma_sentinel(s: Seq<u8>, pos: int, tag: u8)
    requires
        tag == 42u8 || tag == 36u8,
        announces(s, pos, tag, -1),
    ensures
        tag == 42u8 ==> decode_at(s, pos).result == Ok::<ValueView, Error>(ValueView::NullArray),
        tag == 36u8 ==> decode_at(s, pos).result == Ok::<ValueView, Error>(ValueView::Null),
        decode_at(s, pos).used == line_len(s, pos),
{
    lemma_number_of_text(s.subrange(pos + 1, pos + line_len(s, pos) - 2), -1);
}

/// Exactness: a bulk string that announces more bytes than the input still
/// has, its CR LF counted, fails as an I/O error, and is no bulk string.
pub proof fn lemma_bulk_cut_short(s: Seq<u8>, pos: int, size: int)
    requires
        announces(s, pos, 36u8, size),
        0 <= size <= RESP_MAX_SIZE,
        pos + line_len(s, pos) + size + 2 > s.len(),
    ensures
        decode_at(s, pos).result == Err::<ValueView, Error>(Error::Io("Cannot read bulk")),
{
    lemma_number_of_text(s.subrange(pos + 1, pos + line_len(s, pos) - 2), size);
}

/// Exactness: a bulk string that was decoded had all the bytes that its
/// header announced, followed by CR LF, and they are its text.
pub proof fn lemma_bulk_whole(s: Seq<u8>, pos: int, size: int)
    requires
        announces(s, pos, 36u8, size),
        decode_at(s, pos).result is Ok,
        size != -1,
    ensures
        0 <= size <= RESP_MAX_SIZE,
        pos + line_len(s, pos) + size + 2 <= s.len(),
        decode_at(s, pos).used == line_len(s, pos) + size + 2,
        s[pos + line_len(s, pos) + size] == 13u8,
        s[pos + line_len(s, pos) + size + 1] == 10u8,
        decode_at(s, pos).result matches Ok(ValueView::Bulk(text)) && encode_utf8(text)
            == s.subrange(pos + line_len(s, pos), pos + line_len(s, pos) + size),
{
    let at = pos + line_len(s, pos);
    lemma_number_of_text(s.subrange(pos + 1, at - 2), size);
    decode_utf8_encode_utf8(s.subrange(at, at + size));
}

/// No byte of a line but its last is a line feed.
proof fn lemma_line_body(s: Seq<u8>, pos: int)
    requires
        0 <= pos <= s.len(),
    ensures
        forall|i: int| pos <= i < pos + line_len(s, pos) - 1 ==> s[i] != 10u8,
    decreases s.len() - pos,
{
    if pos < s.len() && s[pos] != 10u8 {
        lemma_line_body(s, pos + 1);
    }
}

/// Well-formed UTF-8 without the byte 10 is text without line feed.
proof fn lemma_text_without_line_feed(bytes: Seq<u8>)
    requires
        valid_utf8(bytes),
        forall|i: int| 0 <= i < bytes.len() ==> bytes[i] != 10u8,
    ensures
        no_line_feed(decode_utf8(bytes)),
{
    decode_utf8_encode_utf8(bytes);
    lemma_lacks_ascii(decode_utf8(bytes), '\n');
}

/// What the decoder gives can be sent and read back: a decoded simple
/// string or error holds no line feed, and a decoded array or bulk string
/// has a length within the range.
pub proof fn lemma_decoded_is_sendable(s: Seq<u8>, pos: int)
    requires
        0 <= pos <= s.len(),
    ensures
        decode_at(s, pos).result matches Ok(v) ==> sendable(v),
    decreases remaining(s, pos), 0nat, 0nat,
{
    lemma_line_len(s, pos);
    lemma_line_body(s, pos);
    let n = line_len(s, pos);
    if pos < s.len() && n >= 3 && s[pos + n - 2] == 13u8 && s[pos + n - 1] == 10u8 {
        let payload = s.subrange(pos + 1, pos + n - 2);
        let tag = s[pos];
        if tag == 43u8 || tag == 45u8 {
            if valid_utf8(payload) {
                assert forall|i: int| 0 <= i < payload.len() implies payload[i] != 10u8 by {
                    assert(payload[i] == s[pos + 1 + i]);
                }
                lemma_text_without_line_feed(payload);
            }
        } else if tag == 42u8 {
            match number_of(payload) {
                Ok(size) => {
                    if size != -1 && !out_of_range(size) {
                        lemma_decoded_items_are_sendable(s, pos + n, size as nat);
                    }
                },
                Err(e) => {},
            }
        } else if tag == 36u8 {
            match number_of(payload) {
                Ok(size) => {
                    let at = pos + n;
                    if size != -1 && !out_of_range(size) && at + size + 2 <= s.len() {
                        let text = s.subrange(at, at + size);
                        if valid_utf8(text) {
                            decode_utf8_encode_utf8(text);
                        }
                    }
                },
                Err(e) => {},
            }
        }
    }
}

/// A run of units that was decoded has as many values as were asked for,
/// and each of them can be sent and read back.
pub proof fn lemma_decoded_items_are_sendable(s: Seq<u8>, pos: int, count: nat)
    requires
        0 <= pos <= s.len(),
    ensures
        decode_items(s, pos, count).result matches Ok(values) ==> values.len() == count
            && forall|i: int| 0 <= i < values.len() ==> sendable(#[trigger] values[i]),
    decreases remaining(s, pos), 1nat, count,
{
    if count > 0 {
        let front = decode_items(s, pos, (count - 1) as nat);
        lemma_decoded_items_are_sendable(s, pos, (count - 1) as nat);
        if front.result is Ok {
            lemma_decode_items_used(s, pos, (count - 1) as nat);
            lemma_decoded_is_sendable(s, pos + front.used);
        }
    }
}

/// Decoding what was decoded and encoded again gives the same value: the
/// decoder accepts every value that it can give.
pub proof fn lemma_decoded_round_trip(s: Seq<u8>, pos: int)
    requires
        0 <= pos <= s.len(),
    ensures
        decode_at(s, pos).result matches Ok(v) ==> decode_at(encoding(v), 0) == (Decoded {
            result: Ok(v),
            used: encoding(v).len(),
        }),
{
    lemma_decoded_is_sendable(s, pos);
    match decode_at(s, pos).result {
        Ok(v) => {
            lemma_decode_encoding(encoding(v), 0, v);
        },
        Err(e) => {},
    }
}

/// Decoding from a buffer never fails in the byte source: the error for a
/// failed line read is not among its results.
pub proof fn lemma_never_buf_read_error(s: Seq<u8>, pos: int)
    ensures
        decode_at(s, pos).result != Err::<ValueView, Error>(Error::BufReadError),
    decreases remaining(s, pos), 0nat, 0nat,
{
    let n = line_len(s, pos);
    if 0 <= pos < s.len() && n >= 3 && s[pos + n - 2] == 13u8 && s[pos + n - 1] == 10u8 && s[pos]
        == 42u8 {
        match number_of(s.subrange(pos + 1, pos + n - 2)) {
            Ok(size) => {
                if size != -1 && !out_of_range(size) {
                    lemma_items_never_buf_read_error(s, pos + n, size as nat);
                }
            },
            Err(e) => {},
        }
    }
}

/// Decoding a run of units from a buffer never fails in the byte source.
pub proof fn lemma_items_never_buf_read_error(s: Seq<u8>, pos: int, count: nat)
    ensures
        decode_items(s, pos, count).result != Err::<Seq<ValueView>, Error>(Error::BufReadError),
    decreases remaining(s, pos), 1nat, count,
{
    if count > 0 {
        let front = decode_items(s, pos, (count - 1) as nat);
        lemma_items_never_buf_read_error(s, pos, (count - 1) as nat);
        if front.result is Ok {
            lemma_never_buf_read_error(s, pos + front.used);
        }
    }
}

} // verus!
