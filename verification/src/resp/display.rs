//! Text forms of values and errors, for messages and logs.

use crate::resp::decimal::{decimal, lemma_decimal_bytes, push_decimal};
use crate::resp::text::{is_ascii_bytes, lemma_ascii_is_utf8};
use crate::resp::{lemma_views, Error, Value, ValueView};
use vstd::prelude::*;
use vstd::utf8::decode_utf8;

verus! {

/// The text between double quotes, with the characters that cannot stand
/// there as they are written as escapes: what `{:?}` gives for a string.
pub uninterp spec fn quoted(text: Seq<char>) -> Seq<char>;

/// `format!` with `{:?}` on a `str`: the result is the quoted form of the
/// text, which depends on the text alone.
#[verifier::external_body]
fn quote(text: &str) -> (r: String)
    ensures
        r@ == quoted(text@),
{
    format!("{:?}", text)
}

/// The characters of the decimal text of `n`.
pub open spec fn decimal_chars(n: int) -> Seq<char> {
    decode_utf8(decimal(n))
}

/// A tag with what it holds in round brackets.
pub open spec fn tagged(tag: Seq<char>, inner: Seq<char>) -> Seq<char> {
    tag + "("@ + inner + ")"@
}

/// The debugging form of a value: the name of its kind and, in round
/// brackets, what it holds, strings quoted and arrays in square brackets.
pub open spec fn debug_text(v: ValueView) -> Seq<char>
    decreases v,
{
    match v {
        ValueView::Null => "Null"@,
        ValueView::NullArray => "NullArray"@,
        ValueView::String(text) => tagged("String"@, quoted(text)),
        ValueView::Error(text) => tagged("Error"@, quoted(text)),
        ValueView::Integer(number) => tagged("Integer"@, decimal_chars(number as int)),
        ValueView::Array(items) => tagged("Array"@, "["@ + debug_items(items) + "]"@),
        ValueView::Bulk(text) => tagged("Bulk"@, quoted(text)),
    }
}

/// The debugging forms of `items`, separated by a comma and a space.
pub open spec fn debug_items(items: Seq<ValueView>) -> Seq<char>
    decreases items,
{
    if items.len() == 0 {
        Seq::empty()
    } else if items.len() == 1 {
        debug_text(items.last())
    } else {
        debug_items(items.drop_last()) + ", "@ + debug_text(items.last())
    }
}

/// The plain form of a value: as the debugging form, but with the text of
/// strings as it is.
pub open spec fn display_text(v: ValueView) -> Seq<char> {
    match v {
        ValueView::Null => "Null"@,
        ValueView::NullArray => "NullArray"@,
        ValueView::String(text) => tagged("String"@, text),
        ValueView::Error(text) => tagged("Error"@, text),
        ValueView::Integer(number) => tagged("Integer"@, decimal_chars(number as int)),
        ValueView::Array(items) => tagged("Array"@, "["@ + debug_items(items) + "]"@),
        ValueView::Bulk(text) => tagged("Bulk"@, text),
    }
}

/// The message of an error.
pub open spec fn error_text(e: Error) -> Seq<char> {
    match e {
        Error::InvalidInput(message) => "Invalid Input: "@ + message@,
        Error::InvalidData(message) => "Invalid Data: "@ + message@,
        Error::UnexpectedEof => "Unexpected EOF"@,
        Error::Io(message) => "IO Error: "@ + message@,
        Error::BufReadError => "BufRead Error"@,
    }
}

/// The decimal text of `number`.
pub fn decimal_text(number: i64) -> (text: String)
    ensures
        text@ == decimal_chars(number as int),
{
    let mut digits: Vec<u8> = Vec::new();
    push_decimal(&mut digits, number);
    proof {
        lemma_decimal_bytes(number as int);
        assert(digits@ =~= decimal(number as int));
        assert(is_ascii_bytes(digits@));
        lemma_ascii_is_utf8(digits@);
    }
    match String::from_utf8(digits) {
        Ok(text) => text,
        Err(_) => String::new(),
    }
}

/// `tag`, then `inner` in round brackets.
pub fn tagged_text(tag: &str, inner: &str) -> (text: String)
    ensures
        text@ == tagged(tag@, inner@),
{
    let mut text = String::from_str(tag);
    text.append("(");
    text.append(inner);
    text.append(")");
    text
}

impl Value {
    /// The debugging form of this value.
    pub fn to_debug_string(&self) -> (text: String)
        ensures
            text@ == debug_text(self@),
        decreases self, 1nat,
    {
        match self {
            Value::Null => String::from_str("Null"),
            Value::NullArray => String::from_str("NullArray"),
            Value::String(inner) => tagged_text("String", quote(inner.as_str()).as_str()),
            Value::Error(inner) => tagged_text("Error", quote(inner.as_str()).as_str()),
            Value::Integer(number) => tagged_text("Integer", decimal_text(*number).as_str()),
            Value::Array(items) => tagged_text("Array", self.items_text().as_str()),
            Value::Bulk(inner) => tagged_text("Bulk", quote(inner.as_str()).as_str()),
        }
    }

    /// The debugging forms of the items of this array, in square brackets;
    /// of a value that is no array, a pair of square brackets.
    fn items_text(&self) -> (text: String)
        ensures
            self@ matches ValueView::Array(items) ==> text@ == "["@ + debug_items(items) + "]"@,
        decreases self, 0nat,
    {
        let mut text = String::from_str("[");
        if let Value::Array(items) = self {
            let mut i: usize = 0;
            while i < items.len()
                invariant
                    i <= items.len(),
                    *self is Array,
                    self->Array_0 == *items,
                    text@ == "["@ + debug_items(self@->Array_0.take(i as int)),
                decreases items.len() - i,
            {
                proof {
                    assert(decreases_to!(*self => self->Array_0));
                    lemma_views(items@);
                    let prefix = self@->Array_0.take(i + 1);
                    assert(prefix.drop_last() =~= self@->Array_0.take(i as int));
                    assert(prefix.last() == items@[i as int]@);
                    assert(debug_items(prefix) == if i == 0 {
                        debug_text(prefix.last())
                    } else {
                        debug_items(prefix.drop_last()) + ", "@ + debug_text(prefix.last())
                    });
                    assert(debug_items(prefix.drop_last()) == if i == 0 {
                        Seq::<char>::empty()
                    } else {
                        debug_items(prefix.drop_last())
                    });
                }
                if i > 0 {
                    text.append(", ");
                }
                let item = items[i].to_debug_string();
                text.append(item.as_str());
                proof {
                    let prefix = self@->Array_0.take(i + 1);
                    assert(text@ =~= "["@ + debug_items(prefix));
                }
                i += 1;
            }
            proof {
                lemma_views(items@);
                assert(self@->Array_0.take(i as int) =~= self@->Array_0);
            }
        }
        text.append("]");
        text
    }

    /// The plain form of this value.
    pub fn to_string(&self) -> (text: String)
        ensures
            text@ == display_text(self@),
    {
        match self {
            Value::Null => String::from_str("Null"),
            Value::NullArray => String::from_str("NullArray"),
            Value::String(inner) => tagged_text("String", inner.as_str()),
            Value::Error(inner) => tagged_text("Error", inner.as_str()),
            Value::Integer(number) => tagged_text("Integer", decimal_text(*number).as_str()),
            Value::Array(items) => tagged_text("Array", self.items_text().as_str()),
            Value::Bulk(inner) => tagged_text("Bulk", inner.as_str()),
        }
    }
}

impl Error {
    /// The message of this error.
    pub fn to_string(&self) -> (text: String)
        ensures
            text@ == error_text(*self),
    {
        match self {
            Error::InvalidInput(message) => String::from_str("Invalid Input: ").concat(message),
            Error::InvalidData(message) => String::from_str("Invalid Data: ").concat(message),
            Error::UnexpectedEof => String::from_str("Unexpected EOF"),
            Error::Io(message) => String::from_str("IO Error: ").concat(message),
            Error::BufReadError => String::from_str("BufRead Error"),
        }
    }
}

} // verus!
