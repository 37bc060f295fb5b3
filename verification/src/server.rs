//! What the server does with one request: decode it, run the command it
//! denotes, encode the reply. Reading the request and sending the reply are
//! left to the caller.

use crate::command::from_resp_value::{command_from, command_of};
use crate::command::run::{run_spec, Ran};
use crate::resp::display::error_text;
use crate::resp::read::decode_at;
use crate::resp::write::encoding;
use crate::resp::{Error, Value, ValueView};
use crate::storage::strings::Store;
use vstd::prelude::*;

verus! {

/// The request that the server works on: the decoded value, or for input
/// that does not decode an error value with the message of the failure.
pub open spec fn request_of(decoded: Result<ValueView, Error>) -> ValueView {
    match decoded {
        Ok(value) => value,
        Err(e) => ValueView::Error(error_text(e)),
    }
}

/// What the server does with the bytes `request` on the store `entries`.
pub open spec fn answer(request: Seq<u8>, entries: Map<Seq<char>, Seq<char>>) -> Ran {
    run_spec(command_of(request_of(decode_at(request, 0).result)), entries)
}

/// Handles one request: the bytes to send back, or `None` where the input
/// ended in the middle of a unit and the connection is to be closed. A
/// request that fails to decode in any other way is answered like an error
/// value with the message of the failure.
pub fn respond(request: &[u8], store: &mut Store) -> (reply: Option<Vec<u8>>)
    ensures
        decode_at(request@, 0).result == Err::<ValueView, Error>(Error::UnexpectedEof) ==> {
            &&& reply is None
            &&& final(store)@ == old(store)@
        },
        decode_at(request@, 0).result != Err::<ValueView, Error>(Error::UnexpectedEof) ==> {
            &&& reply matches Some(bytes) && bytes@ == encoding(
                answer(request@, old(store)@).reply,
            )
            &&& final(store)@ == answer(request@, old(store)@).entries
        },
{
    let value = match Value::read(request) {
        Ok(value) => value,
        Err(Error::UnexpectedEof) => {
            return None;
        },
        Err(e) => Value::Error(e.to_string()),
    };
    let command = command_from(&value);
    let response = command.run(store);
    let mut bytes: Vec<u8> = Vec::new();
    response.write(&mut bytes);
    assert(bytes@ =~= encoding(response@));
    Some(bytes)
}

} // verus!
