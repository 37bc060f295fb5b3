//! Running a command against the store.

use crate::command::{lemma_command_views, Command, CommandView};
use crate::resp::{lemma_views, Value, ValueView};
use crate::storage::strings::{
    found, founds, get, lookup, lookups, m_get, m_set, pair_view, pair_views, store_all, texts,
    Store,
};
use vstd::prelude::*;

verus! {

/// What running a command gives: the reply and the store as it then is.
pub struct Ran {
    pub reply: ValueView,
    pub entries: Map<Seq<char>, Seq<char>>,
}

/// What running a sequence of commands gives: the replies in order and the
/// store as it then is.
pub struct RanAll {
    pub replies: Seq<ValueView>,
    pub entries: Map<Seq<char>, Seq<char>>,
}

/// The reply to a lookup: the value as a simple string, or the absent bulk
/// string.
pub open spec fn lookup_reply(value: Option<Seq<char>>) -> ValueView {
    match value {
        Some(text) => ValueView::String(text),
        None => ValueView::Null,
    }
}

/// What running `command` on the store `entries` gives.
pub open spec fn run_spec(command: CommandView, entries: Map<Seq<char>, Seq<char>>) -> Ran
    decreases command,
{
    match command {
        CommandView::Ping => Ran { reply: ValueView::String("PONG"@), entries },
        CommandView::Error(message) => Ran { reply: ValueView::Error(message), entries },
        CommandView::Get(key) => Ran { reply: lookup_reply(lookup(entries, key)), entries },
        CommandView::Put(key, value) => Ran {
            reply: ValueView::String("OK"@),
            entries: entries.insert(key, value),
        },
        CommandView::MSet(pairs) => Ran {
            reply: ValueView::String("OK"@),
            entries: store_all(entries, pairs),
        },
        CommandView::MGet(keys) => Ran {
            reply: ValueView::Array(
                lookups(entries, keys).map_values(|value: Option<Seq<char>>| lookup_reply(value)),
            ),
            entries,
        },
        CommandView::Multiple(commands) => {
            let all = run_all(commands, entries);
            Ran { reply: ValueView::Array(all.replies), entries: all.entries }
        },
    }
}

/// What running `commands` in order gives, each on the store that the one
/// before it left.
pub open spec fn run_all(commands: Seq<CommandView>, entries: Map<Seq<char>, Seq<char>>) -> RanAll
    decreases commands,
{
    if commands.len() == 0 {
        RanAll { replies: Seq::empty(), entries }
    } else {
        let front = run_all(commands.drop_last(), entries);
        let last = run_spec(commands.last(), front.entries);
        RanAll { replies: front.replies.push(last.reply), entries: last.entries }
    }
}

impl Command {
    /// Runs this command on `store` and gives the reply.
    pub fn run(&self, store: &mut Store) -> (reply: Value)
        ensures
            reply@ == run_spec(self@, old(store)@).reply,
            final(store)@ == run_spec(self@, old(store)@).entries,
        decreases self, 0nat,
    {
        match self {
            Command::Multiple(commands) => {
                let mut values: Vec<Value> = Vec::new();
                let mut i: usize = 0;
                proof {
                    lemma_command_views(commands@);
                }
                while i < commands.len()
                    invariant
                        i <= commands.len(),
                        *self is Multiple,
                        self->Multiple_0 == *commands,
                        self@->Multiple_0.len() == commands@.len(),
                        forall|j: int|
                            0 <= j < commands@.len() ==> (#[trigger] self@->Multiple_0[j])
                                == commands@[j]@,
                        crate::resp::views(values@) == run_all(
                            self@->Multiple_0.take(i as int),
                            old(store)@,
                        ).replies,
                        store@ == run_all(self@->Multiple_0.take(i as int), old(store)@).entries,
                    decreases commands.len() - i,
                {
                    proof {
                        assert(decreases_to!(*self => self->Multiple_0));
                        let prefix = self@->Multiple_0.take(i + 1);
                        assert(prefix.drop_last() =~= self@->Multiple_0.take(i as int));
                        assert(prefix.last() == commands@[i as int]@);
                        let front = run_all(prefix.drop_last(), old(store)@);
                        let last = run_spec(prefix.last(), front.entries);
                        assert(run_all(prefix, old(store)@) == (RanAll {
                            replies: front.replies.push(last.reply),
                            entries: last.entries,
                        }));
                    }
                    let ghost before = values@;
                    let value = run_command(&commands[i], store);
                    values.push(value);
                    proof {
                        assert(values@.drop_last() =~= before);
                        assert(crate::resp::views(values@) == crate::resp::views(before).push(
                            value@,
                        ));
                    }
                    i += 1;
                }
                proof {
                    assert(self@->Multiple_0.take(i as int) =~= self@->Multiple_0);
                }
                Value::Array(values)
            },
            Command::Ping => Value::String(String::from_str("PONG")),
            Command::Error(message) => Value::Error(message.clone()),
            Command::Get(key) => match get(store, key.as_str()) {
                Some(value) => Value::String(value),
                None => Value::Null,
            },
            Command::Put(key, value) => {
                crate::storage::strings::set(store, key.clone(), value.clone());
                Value::String(String::from_str("OK"))
            },
            Command::MSet(values) => {
                m_set(store, copy_pairs(values));
                Value::String(String::from_str("OK"))
            },
            Command::MGet(keys) => {
                let read = m_get(store, copy_texts(keys));
                assert(read@.len() == founds(read@).len());
                let mut values: Vec<Value> = Vec::new();
                let mut i: usize = 0;
                while i < read.len()
                    invariant
                        i <= read.len(),
                        values@.len() == i,
                        forall|j: int|
                            0 <= j < i ==> (#[trigger] values@[j])@ == lookup_reply(
                                found(read@[j]),
                            ),
                    decreases read.len() - i,
                {
                    let value = match &read[i] {
                        Some(text) => Value::String(text.clone()),
                        None => Value::Null,
                    };
                    values.push(value);
                    i += 1;
                }
                proof {
                    lemma_views(values@);
                    assert(crate::resp::views(values@) =~= lookups(
                        old(store)@,
                        texts(keys@),
                    ).map_values(|value: Option<Seq<char>>| lookup_reply(value)));
                }
                Value::Array(values)
            },
        }
    }
}

/// A copy of `items` with the same contents.
fn copy_texts(items: &Vec<String>) -> (copy: Vec<String>)
    ensures
        texts(copy@) == texts(items@),
{
    let mut copy: Vec<String> = Vec::new();
    let mut i: usize = 0;
    while i < items.len()
        invariant
            i <= items.len(),
            copy@.len() == i,
            forall|j: int| 0 <= j < i ==> (#[trigger] copy@[j])@ == items@[j]@,
        decreases items.len() - i,
    {
        copy.push(items[i].clone());
        i += 1;
    }
    proof {
        assert(texts(copy@) =~= texts(items@));
    }
    copy
}

/// A copy of `items` with the same contents.
fn copy_pairs(items: &Vec<(String, String)>) -> (copy: Vec<(String, String)>)
    ensures
        pair_views(copy@) == pair_views(items@),
{
    let mut copy: Vec<(String, String)> = Vec::new();
    let mut i: usize = 0;
    while i < items.len()
        invariant
            i <= items.len(),
            copy@.len() == i,
            forall|j: int| 0 <= j < i ==> pair_view(#[trigger] copy@[j]) == pair_view(items@[j]),
        decreases items.len() - i,
    {
        copy.push((items[i].0.clone(), items[i].1.clone()));
        i += 1;
    }
    proof {
        assert(pair_views(copy@) =~= pair_views(items@));
    }
    copy
}

/// Runs `command` on `store`.
fn run_command(command: &Command, store: &mut Store) -> (reply: Value)
    ensures
        reply@ == run_spec(command@, old(store)@).reply,
        final(store)@ == run_spec(command@, old(store)@).entries,
    decreases command, 1nat,
{
    command.run(store)
}

} // verus!
