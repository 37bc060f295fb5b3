//! The commands that a request can denote.

use crate::storage::strings::{pair_views, texts};
use vstd::prelude::*;

pub mod from_resp_value;
pub mod run;

verus! {

/// One command of the server.
#[derive(Debug, PartialEq, Eq)]
pub enum Command {
    /// Asks for a sign of life.
    Ping,
    /// Asks for the value under a key.
    Get(String),
    /// Stores a value under a key.
    Put(String, String),
    /// Asks for the values under several keys.
    MGet(Vec<String>),
    /// Stores several pairs of key and value.
    MSet(Vec<(String, String)>),
    /// Several commands, to be run in order.
    Multiple(Vec<Command>),
    /// A request that denotes no command, with the message that says so.
    Error(String),
}

/// The mathematical content of a [`Command`].
pub enum CommandView {
    Ping,
    Get(Seq<char>),
    Put(Seq<char>, Seq<char>),
    MGet(Seq<Seq<char>>),
    MSet(Seq<(Seq<char>, Seq<char>)>),
    Multiple(Seq<CommandView>),
    Error(Seq<char>),
}

/// The contents of a sequence of commands.
pub open spec fn command_views(items: Seq<Command>) -> Seq<CommandView>
    decreases items,
{
    if items.len() == 0 {
        Seq::empty()
    } else {
        command_views(items.drop_last()).push(items.last().view())
    }
}

impl View for Command {
    type V = CommandView;

    open spec fn view(&self) -> CommandView
        decreases self,
    {
        match self {
            Command::Ping => CommandView::Ping,
            Command::Get(key) => CommandView::Get(key@),
            Command::Put(key, value) => CommandView::Put(key@, value@),
            Command::MGet(keys) => CommandView::MGet(texts(keys@)),
            Command::MSet(pairs) => CommandView::MSet(pair_views(pairs@)),
            Command::Multiple(commands) => CommandView::Multiple(command_views(commands@)),
            Command::Error(message) => CommandView::Error(message@),
        }
    }
}

/// `command_views` keeps the length and takes the content item by item.
pub proof fn lemma_command_views(items: Seq<Command>)
    ensures
        command_views(items).len() == items.len(),
        forall|i: int| 0 <= i < items.len() ==> (#[trigger] command_views(items)[i]) == items[i]@,
    decreases items.len(),
{
    if items.len() > 0 {
        lemma_command_views(items.drop_last());
        assert(command_views(items) == command_views(items.drop_last()).push(
            items.last().view(),
        ));
    } else {
        assert(command_views(items) == Seq::<CommandView>::empty());
    }
}

} // verus!
