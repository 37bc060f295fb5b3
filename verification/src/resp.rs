//! The RESP data model: the values that travel on the wire and the ways in
//! which decoding them can fail.

use vstd::prelude::*;

pub mod decimal;
pub mod display;
pub mod laws;
pub mod legal;
pub mod read;
pub mod text;
pub mod write;

verus! {

/// One value of the protocol.
#[derive(Debug, PartialEq)]
pub enum Value {
    /// The absent bulk string.
    Null,
    /// The absent array.
    NullArray,
    /// A simple string: a short status text on one line.
    String(String),
    /// An error message on one line.
    Error(String),
    /// A signed 64-bit integer.
    Integer(i64),
    /// A sequence of values.
    Array(Vec<Value>),
    /// A length-prefixed text, which may hold any character.
    Bulk(String),
}

/// The mathematical content of a [`Value`].
pub enum ValueView {
    Null,
    NullArray,
    String(Seq<char>),
    Error(Seq<char>),
    Integer(i64),
    Array(Seq<ValueView>),
    Bulk(Seq<char>),
}

impl View for Value {
    type V = ValueView;

    open spec fn view(&self) -> ValueView
        decreases self,
    {
        match self {
            Value::Null => ValueView::Null,
            Value::NullArray => ValueView::NullArray,
            Value::String(text) => ValueView::String(text@),
            Value::Error(text) => ValueView::Error(text@),
            Value::Integer(number) => ValueView::Integer(*number),
            Value::Array(items) => ValueView::Array(views(items@)),
            Value::Bulk(text) => ValueView::Bulk(text@),
        }
    }
}

impl Clone for Value {
    /// A copy with the same content.
    fn clone(&self) -> (copy: Value)
        ensures
            copy@ == self@,
        decreases self,
    {
        match self {
            Value::Null => Value::Null,
            Value::NullArray => Value::NullArray,
            Value::String(text) => Value::String(text.clone()),
            Value::Error(text) => Value::Error(text.clone()),
            Value::Integer(number) => Value::Integer(*number),
            Value::Array(items) => {
                let mut copies: Vec<Value> = Vec::new();
                let mut i: usize = 0;
                while i < items.len()
                    invariant
                        i <= items.len(),
                        *self is Array,
                        self->Array_0 == *items,
                        copies@.len() == i,
                        forall|j: int| 0 <= j < i ==> (#[trigger] copies@[j])@ == items@[j]@,
                    decreases items.len() - i,
                {
                    proof {
                        assert(decreases_to!(*self => self->Array_0));
                    }
                    let copy = items[i].clone();
                    copies.push(copy);
                    i += 1;
                }
                proof {
                    lemma_views(items@);
                    lemma_views(copies@);
                    assert(views(copies@) =~= views(items@));
                }
                Value::Array(copies)
            },
            Value::Bulk(text) => Value::Bulk(text.clone()),
        }
    }
}

/// The contents of a sequence of values.
pub open spec fn views(items: Seq<Value>) -> Seq<ValueView>
    decreases items,
{
    if items.len() == 0 {
        Seq::empty()
    } else {
        views(items.drop_last()).push(items.last().view())
    }
}

/// `views` keeps the length and takes the content item by item.
pub proof fn lemma_views(items: Seq<Value>)
    ensures
        views(items).len() == items.len(),
        forall|i: int| 0 <= i < items.len() ==> (#[trigger] views(items)[i]) == items[i]@,
    decreases items.len(),
{
    if items.len() > 0 {
        lemma_views(items.drop_last());
        assert(views(items) == views(items.drop_last()).push(items.last().view()));
    } else {
        assert(views(items) == Seq::<ValueView>::empty());
    }
}

/// The ways in which decoding can fail.
#[derive(Debug, Clone, Copy, PartialEq, Eq)]
pub enum Error {
    /// Malformed framing: a line that is too short, a missing CR LF, an
    /// unknown type tag.
    InvalidInput(&'static str),
    /// A well-framed unit whose payload makes no sense: a number that is no
    /// number, a length out of range, text that is not UTF-8.
    InvalidData(&'static str),
    /// The input ended where a new unit was expected.
    UnexpectedEof,
    /// The input could not supply the bytes that a unit announced.
    Io(&'static str),
    /// Reading a line failed in the byte source itself.
    BufReadError,
}

} // verus!
