//! The decoder: from bytes to one value at a time.
//!
//! `decode_at` says, for any input and any position in it, what the unit that
//! starts there decodes to and how many bytes it takes. `Reader` computes
//! exactly that.

use crate::resp::text::{number_of, parse_number, parse_string, text_of};
use crate::resp::{views, Error, Value, ValueView};
use vstd::prelude::*;
use vstd::slice::slice_subrange;

verus! {

/// The largest length that an array or a bulk string may announce: 512 MiB.
pub const RESP_MAX_SIZE: i64 = 536870912;

/// The shortest line there is: a type tag and CR LF.
pub const MINI_BUFFER_SIZE: usize = 3;

/// What decoding one unit gives: the value or the error, and the number of
/// bytes that were taken from the input.
pub struct Decoded {
    pub result: Result<ValueView, Error>,
    pub used: nat,
}

/// What decoding a run of units gives: the values or the first error, and
/// the number of bytes that were taken from the input.
pub struct DecodedItems {
    pub result: Result<Seq<ValueView>, Error>,
    pub used: nat,
}

/// The number of bytes of `s` from `pos` on.
pub open spec fn remaining(s: Seq<u8>, pos: int) -> nat {
    if pos <= s.len() {
        (s.len() - pos) as nat
    } else {
        0
    }
}

/// The length of the line that starts at `pos`: the bytes up to and
/// including the next line feed, or up to the end of `s` if there is none.
pub open spec fn line_len(s: Seq<u8>, pos: int) -> nat
    decreases s.len() - pos,
{
    if pos < 0 || pos >= s.len() {
        0
    } else if s[pos] == 10u8 {
        1
    } else {
        1 + line_len(s, pos + 1)
    }
}

/// True when `number` cannot be the length of an array or a bulk string.
pub open spec fn out_of_range(number: i64) -> bool {
    number < 0 || number > RESP_MAX_SIZE
}

/// What follows the header line of a bulk string, from `at` on, where
/// `header` is what the payload of that line was read as: nothing for the
/// length -1, else as many bytes of text as the header says and CR LF, all of
/// which must be there.
pub open spec fn decode_bulk(s: Seq<u8>, at: int, header: Result<i64, Error>) -> Decoded {
    match header {
        Err(e) => Decoded { result: Err(e), used: 0 },
        Ok(size) => if size == -1 {
            Decoded { result: Ok(ValueView::Null), used: 0 }
        } else if out_of_range(size) {
            Decoded { result: Err(Error::InvalidData("Invalid Bulk size")), used: 0 }
        } else if at + size + 2 > s.len() {
            Decoded { result: Err(Error::Io("Cannot read bulk")), used: remaining(s, at) }
        } else if !(s[at + size] == 13u8 && s[at + size + 1] == 10u8) {
            Decoded { result: Err(Error::InvalidInput("Invalid CRLF")), used: (size + 2) as nat }
        } else {
            Decoded {
                result: match text_of(s.subrange(at, at + size)) {
                    Ok(text) => Ok(ValueView::Bulk(text)),
                    Err(e) => Err(e),
                },
                used: (size + 2) as nat,
            }
        }
    }
}

/// What follows the header line of an array, from `at` on, where `header`
/// is what the payload of that line was read as: nothing for the length -1,
/// else as many units as the header says.
pub open spec fn decode_array(s: Seq<u8>, at: int, header: Result<i64, Error>) -> Decoded
    decreases remaining(s, at), 2nat, 0nat,
{
    match header {
        Err(e) => Decoded { result: Err(e), used: 0 },
        Ok(size) => if size == -1 {
            Decoded { result: Ok(ValueView::NullArray), used: 0 }
        } else if out_of_range(size) {
            Decoded { result: Err(Error::InvalidData("Invalid Array size")), used: 0 }
        } else {
            let items = decode_items(s, at, size as nat);
            Decoded {
                result: match items.result {
                    Ok(values) => Ok(ValueView::Array(values)),
                    Err(e) => Err(e),
                },
                used: items.used,
            }
        }
    }
}

/// The unit that starts at `pos` in `s`: its first line, with the type tag
/// and the payload, and what follows that line for an array or a bulk
/// string.
pub open spec fn decode_at(s: Seq<u8>, pos: int) -> Decoded
    decreases remaining(s, pos), 0nat, 0nat,
{
    let n = line_len(s, pos);
    if pos < 0 || pos >= s.len() || n == 0 {
        Decoded { result: Err(Error::UnexpectedEof), used: 0 }
    } else if n < 3 {
        Decoded { result: Err(Error::InvalidInput("Buffer too short")), used: n }
    } else if !(s[pos + n - 2] == 13u8 && s[pos + n - 1] == 10u8) {
        Decoded { result: Err(Error::InvalidInput("Invalid CRLF")), used: n }
    } else {
        let payload = s.subrange(pos + 1, pos + n - 2);
        let tag = s[pos];
        if tag == 43u8 {
            Decoded {
                result: match text_of(payload) {
                    Ok(text) => Ok(ValueView::String(text)),
                    Err(e) => Err(e),
                },
                used: n,
            }
        } else if tag == 45u8 {
            Decoded {
                result: match text_of(payload) {
                    Ok(text) => Ok(ValueView::Error(text)),
                    Err(e) => Err(e),
                },
                used: n,
            }
        } else if tag == 58u8 {
            Decoded {
                result: match number_of(payload) {
                    Ok(number) => Ok(ValueView::Integer(number)),
                    Err(e) => Err(e),
                },
                used: n,
            }
        } else if tag == 42u8 {
            let rest = decode_array(s, pos + n, number_of(payload));
            Decoded { result: rest.result, used: n + rest.used }
        } else if tag == 36u8 {
            let rest = decode_bulk(s, pos + n, number_of(payload));
            Decoded { result: rest.result, used: n + rest.used }
        } else {
            Decoded { result: Err(Error::InvalidInput("Invalid byte identifier")), used: n }
        }
    }
}

/// The `count` units that start at `pos` in `s`, one after the other. The
/// first unit that fails ends the run.
pub open spec fn decode_items(s: Seq<u8>, pos: int, count: nat) -> DecodedItems
    decreases remaining(s, pos), 1nat, count,
{
    if count == 0 {
        DecodedItems { result: Ok(Seq::empty()), used: 0 }
    } else {
        let front = decode_items(s, pos, (count - 1) as nat);
        match front.result {
            Err(e) => front,
            Ok(values) => {
                let last = decode_at(s, pos + front.used);
                DecodedItems {
                    result: match last.result {
                        Ok(value) => Ok(values.push(value)),
                        Err(e) => Err(e),
                    },
                    used: front.used + last.used,
                }
            },
        }
    }
}

/// The content of a decoding result.
pub open spec fn outcome(r: Result<Value, Error>) -> Result<ValueView, Error> {
    match r {
        Ok(value) => Ok(value@),
        Err(e) => Err(e),
    }
}

/// A line never runs past the end of the input, and is not empty while there
/// is input left.
pub proof fn lemma_line_len(s: Seq<u8>, pos: int)
    requires
        0 <= pos <= s.len(),
    ensures
        pos + line_len(s, pos) <= s.len(),
        pos < s.len() ==> line_len(s, pos) >= 1,
    decreases s.len() - pos,
{
    if pos < s.len() && s[pos] != 10u8 {
        lemma_line_len(s, pos + 1);
    }
}

/// A unit never takes more bytes than the input has left.
pub proof fn lemma_decode_at_used(s: Seq<u8>, pos: int)
    requires
        0 <= pos <= s.len(),
    ensures
        pos + decode_at(s, pos).used <= s.len(),
    decreases remaining(s, pos), 0nat, 0nat,
{
    lemma_line_len(s, pos);
    let n = line_len(s, pos);
    if pos < s.len() && n >= 3 {
        let header = number_of(s.subrange(pos + 1, pos + n - 2));
        if header is Ok && header->Ok_0 != -1 && !out_of_range(header->Ok_0) {
            lemma_decode_items_used(s, pos + n, header->Ok_0 as nat);
        }
    }
}

/// A run of units never takes more bytes than the input has left.
pub proof fn lemma_decode_items_used(s: Seq<u8>, pos: int, count: nat)
    requires
        0 <= pos <= s.len(),
    ensures
        pos + decode_items(s, pos, count).used <= s.len(),
    decreases remaining(s, pos), 1nat, count,
{
    if count > 0 {
        lemma_decode_items_used(s, pos, (count - 1) as nat);
        let front = decode_items(s, pos, (count - 1) as nat);
        if front.result is Ok {
            lemma_decode_at_used(s, pos + front.used);
        }
    }
}

/// Once a run of units has failed, asking for more units changes nothing.
pub proof fn lemma_decode_items_failed(s: Seq<u8>, pos: int, count: nat, more: nat)
    requires
        count <= more,
        decode_items(s, pos, count).result is Err,
    ensures
        decode_items(s, pos, more) == decode_items(s, pos, count),
    decreases more,
{
    if count < more {
        lemma_decode_items_failed(s, pos, count, (more - 1) as nat);
    }
}

/// True when `number` cannot be the length of an array or a bulk string.
pub fn is_out_of_resp_range(number: i64) -> (out: bool)
    ensures
        out == out_of_range(number),
{
    number < 0 || number > RESP_MAX_SIZE
}

/// True when the two bytes `a`, `b` are not the line terminator CR LF.
pub fn has_invalid_crlf(a: u8, b: u8) -> (invalid: bool)
    ensures
        invalid == !(a == 13u8 && b == 10u8),
{
    a != 13u8 || b != 10u8
}

/// A cursor over a buffer of input, which hands out one value per call.
pub struct Reader<'a> {
    buffer: &'a [u8],
    position: usize,
}

impl<'a> Reader<'a> {
    /// The whole input, read or not.
    pub closed spec fn input(&self) -> Seq<u8> {
        self.buffer@
    }

    /// The number of bytes that have been taken from the input.
    pub closed spec fn position(&self) -> int {
        self.position as int
    }

    /// The cursor stands inside the input or at its end.
    #[verifier::type_invariant]
    spec fn wf(&self) -> bool {
        self.position <= self.buffer@.len()
    }

    /// A reader at the start of `buffer`.
    pub fn new(buffer: &'a [u8]) -> (reader: Self)
        ensures
            reader.input() == buffer@,
            reader.position() == 0,
    {
        Reader { buffer, position: 0 }
    }

    /// Takes the next line from the input, line feed included.
    fn read_line(&mut self) -> (line: &'a [u8])
        ensures
            final(self).input() == old(self).input(),
            final(self).position() == old(self).position() + line@.len(),
            line@.len() == line_len(old(self).input(), old(self).position()),
            line@ == old(self).input().subrange(
                old(self).position(),
                old(self).position() + line@.len(),
            ),
    {
        proof {
            use_type_invariant(&*self);
        }
        let start: usize = self.position;
        let len: usize = self.buffer.len();
        let mut end: usize = start;
        while end < len && self.buffer[end] != 10u8
            invariant
                start <= end <= len,
                len == self.buffer@.len(),
                line_len(self.buffer@, start as int) == (end - start) + line_len(
                    self.buffer@,
                    end as int,
                ),
            decreases len - end,
        {
            end += 1;
        }
        if end < len {
            end += 1;
        }
        self.position = end;
        slice_subrange(self.buffer, start, end)
    }

    /// Decodes the next unit of the input and moves past it.
    pub fn read(&mut self) -> (r: Result<Value, Error>)
        ensures
            final(self).input() == old(self).input(),
            outcome(r) == decode_at(old(self).input(), old(self).position()).result,
            final(self).position() == old(self).position() + decode_at(
                old(self).input(),
                old(self).position(),
            ).used,
        decreases remaining(old(self).input(), old(self).position()), 0nat, 0nat,
    {
        let line = self.read_line();
        proof {
            use_type_invariant(&*self);
        }
        let len: usize = line.len();
        if len == 0 {
            return Err(Error::UnexpectedEof);
        }
        if len < MINI_BUFFER_SIZE {
            return Err(Error::InvalidInput("Buffer too short"));
        }
        if has_invalid_crlf(line[len - 2], line[len - 1]) {
            return Err(Error::InvalidInput("Invalid CRLF"));
        }
        let identifier: u8 = line[0];
        let bytes = slice_subrange(line, 1, len - 2);
        proof {
            let s = old(self).input();
            let pos = old(self).position();
            assert(bytes@ =~= s.subrange(pos + 1, pos + len - 2));
        }
        if identifier == 43u8 {
            match parse_string(bytes) {
                Ok(text) => Ok(Value::String(text)),
                Err(e) => Err(e),
            }
        } else if identifier == 45u8 {
            match parse_string(bytes) {
                Ok(text) => Ok(Value::Error(text)),
                Err(e) => Err(e),
            }
        } else if identifier == 58u8 {
            match parse_number(bytes) {
                Ok(number) => Ok(Value::Integer(number)),
                Err(e) => Err(e),
            }
        } else if identifier == 42u8 {
            self.parse_array(bytes)
        } else if identifier == 36u8 {
            self.parse_bulk(bytes)
        } else {
            Err(Error::InvalidInput("Invalid byte identifier"))
        }
    }

    /// Decodes what follows the header line of a bulk string, whose payload
    /// is `header`.
    fn parse_bulk(&mut self, header: &[u8]) -> (r: Result<Value, Error>)
        ensures
            final(self).input() == old(self).input(),
            outcome(r) == decode_bulk(
                old(self).input(),
                old(self).position(),
                number_of(header@),
            ).result,
            final(self).position() == old(self).position() + decode_bulk(
                old(self).input(),
                old(self).position(),
                number_of(header@),
            ).used,
    {
        let number: i64 = match parse_number(header) {
            Ok(number) => number,
            Err(e) => {
                return Err(e);
            },
        };
        if number == -1 {
            return Ok(Value::Null);
        }
        if is_out_of_resp_range(number) {
            return Err(Error::InvalidData("Invalid Bulk size"));
        }
        proof {
            use_type_invariant(&*self);
        }
        let size: usize = number as usize;
        let start: usize = self.position;
        let available: usize = self.buffer.len() - start;
        if available < 2 || available - 2 < size {
            self.position = self.buffer.len();
            return Err(Error::Io("Cannot read bulk"));
        }
        self.position = start + size + 2;
        if has_invalid_crlf(self.buffer[start + size], self.buffer[start + size + 1]) {
            return Err(Error::InvalidInput("Invalid CRLF"));
        }
        match parse_string(slice_subrange(self.buffer, start, start + size)) {
            Ok(text) => Ok(Value::Bulk(text)),
            Err(e) => Err(e),
        }
    }

    /// Decodes what follows the header line of an array, whose payload is
    /// `header`.
    fn parse_array(&mut self, header: &[u8]) -> (r: Result<Value, Error>)
        ensures
            final(self).input() == old(self).input(),
            outcome(r) == decode_array(
                old(self).input(),
                old(self).position(),
                number_of(header@),
            ).result,
            final(self).position() == old(self).position() + decode_array(
                old(self).input(),
                old(self).position(),
                number_of(header@),
            ).used,
        decreases remaining(old(self).input(), old(self).position()), 2nat, 0nat,
    {
        let size: i64 = match parse_number(header) {
            Ok(number) => number,
            Err(e) => {
                return Err(e);
            },
        };
        if size == -1 {
            return Ok(Value::NullArray);
        }
        if is_out_of_resp_range(size) {
            return Err(Error::InvalidData("Invalid Array size"));
        }
        proof {
            use_type_invariant(&*self);
        }
        let ghost s = self.input();
        let ghost at = self.position();
        let mut values: Vec<Value> = Vec::new();
        let mut i: i64 = 0;
        while i < size
            invariant
                0 <= i <= size,
                number_of(header@) == Ok::<i64, Error>(size),
                size != -1,
                !out_of_range(size),
                self.input() == s,
                s == old(self).input(),
                at == old(self).position(),
                0 <= at <= s.len(),
                decode_items(s, at, i as nat).result == Ok::<Seq<ValueView>, Error>(
                    views(values@),
                ),
                self.position() == at + decode_items(s, at, i as nat).used,
            decreases size - i,
        {
            let ghost front = decode_items(s, at, i as nat);
            let ghost last = decode_at(s, at + front.used);
            let ghost next = decode_items(s, at, (i + 1) as nat);
            let ghost before = values@;
            proof {
                use_type_invariant(&*self);
                lemma_decode_items_used(s, at, i as nat);
                assert(next.used == front.used + last.used);
                assert(next.result == match last.result {
                    Ok(value) => Ok::<Seq<ValueView>, Error>(views(values@).push(value)),
                    Err(e) => Err::<Seq<ValueView>, Error>(e),
                });
            }
            match self.read() {
                Ok(value) => {
                    values.push(value);
                    proof {
                        assert(values@.drop_last() =~= before);
                    }
                },
                Err(e) => {
                    proof {
                        lemma_decode_items_failed(s, at, (i + 1) as nat, size as nat);
                    }
                    return Err(e);
                },
            }
            i += 1;
        }
        Ok(Value::Array(values))
    }
}

impl Value {
    /// Decodes the unit at the start of `buffer`.
    pub fn read(buffer: &[u8]) -> (r: Result<Value, Error>)
        ensures
            outcome(r) == decode_at(buffer@, 0).result,
    {
        let mut parser = Reader::new(buffer);
        parser.read()
    }
}

} // verus!
