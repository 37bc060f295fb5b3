//! Which values can travel: the limits that the protocol sets on a value,
//! and the test for them.

use crate::resp::read::RESP_MAX_SIZE;
use crate::resp::text::{is_single_line, no_line_feed, single_line};
use crate::resp::{lemma_views, Value, ValueView};
use vstd::prelude::*;
use vstd::utf8::encode_utf8;

verus! {

/// True when the value can travel: simple strings and errors stand on one
/// line, and no array or bulk string is longer than the protocol allows.
pub open spec fn legal(v: ValueView) -> bool
    decreases v,
{
    match v {
        ValueView::Null => true,
        ValueView::NullArray => true,
        ValueView::String(text) => single_line(text),
        ValueView::Error(text) => single_line(text),
        ValueView::Integer(number) => true,
        ValueView::Array(items) => items.len() <= RESP_MAX_SIZE && forall|i: int|
            0 <= i < items.len() ==> legal(#[trigger] items[i]),
        ValueView::Bulk(text) => encode_utf8(text).len() <= RESP_MAX_SIZE,
    }
}

/// True when the value can be sent and read back: simple strings and
/// errors hold no line feed, and no array or bulk string is longer than the
/// protocol allows. Every legal value is such a value, and so is every value
/// that was decoded.
pub open spec fn sendable(v: ValueView) -> bool
    decreases v,
{
    match v {
        ValueView::Null => true,
        ValueView::NullArray => true,
        ValueView::String(text) => no_line_feed(text),
        ValueView::Error(text) => no_line_feed(text),
        ValueView::Integer(number) => true,
        ValueView::Array(items) => items.len() <= RESP_MAX_SIZE && forall|i: int|
            0 <= i < items.len() ==> sendable(#[trigger] items[i]),
        ValueView::Bulk(text) => encode_utf8(text).len() <= RESP_MAX_SIZE,
    }
}

/// A legal value can be sent and read back.
pub proof fn lemma_legal_is_sendable(v: ValueView)
    requires
        legal(v),
    ensures
        sendable(v),
    decreases v,
{
    match v {
        ValueView::Array(items) => {
            assert forall|i: int| 0 <= i < items.len() implies sendable(#[trigger] items[i]) by {
                lemma_legal_is_sendable(items[i]);
            }
        },
        _ => {},
    }
}

impl Value {
    /// True when this value is legal: to be tested before a value that was
    /// built by hand is sent.
    pub fn is_legal(&self) -> (ok: bool)
        ensures
            ok == legal(self@),
        decreases self,
    {
        match self {
            Value::Null => true,
            Value::NullArray => true,
            Value::String(text) => is_single_line(text.as_str()),
            Value::Error(text) => is_single_line(text.as_str()),
            Value::Integer(_) => true,
            Value::Array(items) => {
                proof {
                    lemma_views(items@);
                }
                if items.len() > RESP_MAX_SIZE as usize {
                    return false;
                }
                let mut i: usize = 0;
                while i < items.len()
                    invariant
                        i <= items.len(),
                        *self is Array,
                        self->Array_0 == *items,
                        self@->Array_0.len() == items@.len(),
                        forall|j: int|
                            0 <= j < items@.len() ==> (#[trigger] self@->Array_0[j]) == items@[j]@,
                        forall|j: int| 0 <= j < i ==> legal(#[trigger] self@->Array_0[j]),
                    decreases items.len() - i,
                {
                    proof {
                        assert(decreases_to!(*self => self->Array_0));
                    }
                    if !items[i].is_legal() {
                        proof {
                            assert(!legal(self@->Array_0[i as int]));
                        }
                        return false;
                    }
                    i += 1;
                }
                true
            },
            Value::Bulk(text) => text.as_str().as_bytes().len() <= RESP_MAX_SIZE as usize,
        }
    }
}

} // verus!
