//! From a decoded request to the command it denotes.

use crate::command::{command_views, Command, CommandView};
use crate::resp::display::debug_text;
use crate::resp::{lemma_views, views, Value, ValueView};
use crate::storage::strings::{pair_views, texts};
use vstd::prelude::*;
use vstd::slice::slice_subrange;
use vstd::std_specs::convert::FromSpecImpl;
use vstd::utf8::encode_utf8_decode_utf8;

verus! {

/// The upper-case form of a text, as Unicode defines it.
pub uninterp spec fn uppercase(text: Seq<char>) -> Seq<char>;

/// `str::to_uppercase`: the result is the upper-case form of the text, which
/// depends on the text alone.
#[verifier::external_body]
fn to_uppercase(text: &str) -> (upper: String)
    ensures
        upper@ == uppercase(text@),
{
    text.to_uppercase()
}

/// The texts of those of `args` that are bulk strings, in order.
pub open spec fn bulk_keys(args: Seq<ValueView>) -> Seq<Seq<char>>
    decreases args.len(),
{
    if args.len() == 0 {
        Seq::empty()
    } else {
        let front = bulk_keys(args.drop_last());
        match args.last() {
            ValueView::Bulk(key) => front.push(key),
            _ => front,
        }
    }
}

/// `args` taken two by two, `chunks` times from the start: the pairs of
/// texts of those twos that are two bulk strings, in order.
pub open spec fn bulk_pairs(args: Seq<ValueView>, chunks: nat) -> Seq<(Seq<char>, Seq<char>)>
    decreases chunks,
{
    if chunks == 0 {
        Seq::empty()
    } else {
        let front = bulk_pairs(args, (chunks - 1) as nat);
        match (args[2 * chunks - 2], args[2 * chunks - 1]) {
            (ValueView::Bulk(key), ValueView::Bulk(value)) => front.push((key, value)),
            _ => front,
        }
    }
}

/// The command of a request whose first item is a bulk string with the
/// upper-case form `name` and whose other items are `args`, if `name` with
/// such items is the name of a command.
pub open spec fn named_spec(name: Seq<char>, args: Seq<ValueView>) -> Option<CommandView> {
    if args.len() == 1 && args[0] is Bulk && name == "GET"@ {
        Some(CommandView::Get(args[0]->Bulk_0))
    } else if args.len() == 2 && args[0] is Bulk && args[1] is Bulk && name == "SET"@ {
        Some(CommandView::Put(args[0]->Bulk_0, args[1]->Bulk_0))
    } else if name == "MSET"@ {
        Some(CommandView::MSet(bulk_pairs(args, args.len() / 2)))
    } else if name == "MGET"@ {
        Some(CommandView::MGet(bulk_keys(args)))
    } else {
        None
    }
}

/// The message for a request that denotes no command.
pub open spec fn unknown_text(v: ValueView) -> Seq<char> {
    "Unknown command: "@ + debug_text(v)
}

/// The command that the request `v` denotes.
///
/// An array whose first item is a bulk string is looked up by the upper-case
/// form of that string; any other array, and one whose name is not known, is
/// the commands of its items. The bulk string `PING` is the ping. Anything
/// else is no command.
pub open spec fn command_of(v: ValueView) -> CommandView
    decreases v,
{
    match v {
        ValueView::Array(values) => {
            let named = if values.len() >= 1 && values[0] is Bulk {
                named_spec(uppercase(values[0]->Bulk_0), values.skip(1))
            } else {
                None
            };
            match named {
                Some(command) => command,
                None => CommandView::Multiple(commands_of(values)),
            }
        },
        ValueView::Bulk(text) => if text == "PING"@ {
            CommandView::Ping
        } else {
            CommandView::Error(unknown_text(v))
        },
        _ => CommandView::Error(unknown_text(v)),
    }
}

/// The commands that the requests `values` denote, in order.
pub open spec fn commands_of(values: Seq<ValueView>) -> Seq<CommandView>
    decreases values,
{
    if values.len() == 0 {
        Seq::empty()
    } else {
        commands_of(values.drop_last()).push(command_of(values.last()))
    }
}

/// The content of a command that may be there.
pub open spec fn named_view(command: Option<Command>) -> Option<CommandView> {
    match command {
        Some(command) => Some(command@),
        None => None,
    }
}

/// True when the two texts are the same.
pub fn same_text(a: &str, b: &str) -> (same: bool)
    ensures
        same == (a@ == b@),
{
    let x = a.as_bytes();
    let y = b.as_bytes();
    proof {
        encode_utf8_decode_utf8(a@);
        encode_utf8_decode_utf8(b@);
    }
    if x.len() != y.len() {
        return false;
    }
    let mut i: usize = 0;
    while i < x.len()
        invariant
            i <= x.len(),
            x@.len() == y@.len(),
            x@.take(i as int) == y@.take(i as int),
            x@ != y@ ==> a@ != b@,
        decreases x.len() - i,
    {
        if x[i] != y[i] {
            return false;
        }
        proof {
            assert(x@.take(i + 1) =~= x@.take(i as int).push(x@[i as int]));
            assert(y@.take(i + 1) =~= y@.take(i as int).push(y@[i as int]));
        }
        i += 1;
    }
    proof {
        assert(x@.take(i as int) =~= x@);
        assert(y@.take(i as int) =~= y@);
    }
    true
}

/// The message for the request `value`, which denotes no command.
fn unknown_message(value: &Value) -> (message: String)
    ensures
        message@ == unknown_text(value@),
{
    let mut message = String::from_str("Unknown command: ");
    message.append(value.to_debug_string().as_str());
    message
}

impl Command {
    /// The command of a request whose first item is a bulk string with the
    /// upper-case form `name` and whose other items are `args`, if `name`
    /// with such items is the name of a command.
    pub fn named(name: &str, args: &[Value]) -> (command: Option<Command>)
        ensures
            named_view(command) == named_spec(name@, views(args@)),
    {
        proof {
            lemma_views(args@);
        }
        if args.len() == 1 && same_text(name, "GET") {
            if let Value::Bulk(key) = &args[0] {
                return Some(Command::Get(key.clone()));
            }
        }
        if args.len() == 2 && same_text(name, "SET") {
            if let Value::Bulk(key) = &args[0] {
                if let Value::Bulk(value) = &args[1] {
                    return Some(Command::Put(key.clone(), value.clone()));
                }
            }
        }
        if same_text(name, "MSET") {
            let chunks: usize = args.len() / 2;
            let mut pairs: Vec<(String, String)> = Vec::new();
            let mut j: usize = 0;
            while j < chunks
                invariant
                    j <= chunks,
                    chunks == args@.len() / 2,
                    args@.len() <= usize::MAX,
                    views(args@).len() == args@.len(),
                    forall|i: int|
                        0 <= i < args@.len() ==> (#[trigger] views(args@)[i]) == args@[i]@,
                    pair_views(pairs@) == bulk_pairs(views(args@), j as nat),
                decreases chunks - j,
            {
                let ghost before = pairs@;
                proof {
                    assert(bulk_pairs(views(args@), (j + 1) as nat) == {
                        let front = bulk_pairs(views(args@), j as nat);
                        match (views(args@)[2 * j], views(args@)[2 * j + 1]) {
                            (ValueView::Bulk(key), ValueView::Bulk(value)) => front.push(
                                (key, value),
                            ),
                            _ => front,
                        }
                    });
                }
                if let Value::Bulk(key) = &args[2 * j] {
                    if let Value::Bulk(value) = &args[2 * j + 1] {
                        pairs.push((key.clone(), value.clone()));
                        proof {
                            assert(pair_views(pairs@) =~= pair_views(before).push((key@, value@)));
                        }
                    }
                }
                j += 1;
            }
            return Some(Command::MSet(pairs));
        }
        if same_text(name, "MGET") {
            let mut keys: Vec<String> = Vec::new();
            let mut i: usize = 0;
            while i < args.len()
                invariant
                    i <= args.len(),
                    views(args@).len() == args@.len(),
                    forall|k: int|
                        0 <= k < args@.len() ==> (#[trigger] views(args@)[k]) == args@[k]@,
                    texts(keys@) == bulk_keys(views(args@).take(i as int)),
                decreases args.len() - i,
            {
                let ghost before = keys@;
                proof {
                    let prefix = views(args@).take(i + 1);
                    assert(prefix.drop_last() =~= views(args@).take(i as int));
                    assert(prefix.last() == args@[i as int]@);
                }
                if let Value::Bulk(key) = &args[i] {
                    keys.push(key.clone());
                    proof {
                        assert(texts(keys@) =~= texts(before).push(key@));
                    }
                }
                i += 1;
            }
            proof {
                assert(views(args@).take(i as int) =~= views(args@));
            }
            return Some(Command::MGet(keys));
        }
        None
    }
}

/// The command that the request `value` denotes.
pub fn command_from(value: &Value) -> (command: Command)
    ensures
        command@ == command_of(value@),
    decreases value,
{
    match value {
        Value::Array(values) => {
            proof {
                lemma_views(values@);
            }
            if values.len() >= 1 {
                if let Value::Bulk(name) = &values[0] {
                    let upper = to_uppercase(name.as_str());
                    let args = slice_subrange(values.as_slice(), 1, values.len());
                    proof {
                        lemma_views(args@);
                        assert(views(args@) =~= views(values@).skip(1));
                    }
                    if let Some(command) = Command::named(upper.as_str(), args) {
                        return command;
                    }
                }
            }
            let mut commands: Vec<Command> = Vec::new();
            let mut i: usize = 0;
            while i < values.len()
                invariant
                    i <= values.len(),
                    *value is Array,
                    value->Array_0 == *values,
                    value@->Array_0 == views(values@),
                    views(values@).len() == values@.len(),
                    forall|k: int|
                        0 <= k < values@.len() ==> (#[trigger] views(values@)[k]) == values@[k]@,
                    command_views(commands@) == commands_of(views(values@).take(i as int)),
                decreases values.len() - i,
            {
                let ghost before = commands@;
                proof {
                    assert(decreases_to!(*value => value->Array_0));
                    let prefix = views(values@).take(i + 1);
                    assert(prefix.drop_last() =~= views(values@).take(i as int));
                    assert(prefix.last() == values@[i as int]@);
                    assert(commands_of(prefix) == commands_of(prefix.drop_last()).push(
                        command_of(prefix.last()),
                    ));
                }
                let command = command_from(&values[i]);
                commands.push(command);
                proof {
                    assert(commands@.drop_last() =~= before);
                    assert(command_views(commands@) == command_views(before).push(command@));
                }
                i += 1;
            }
            proof {
                assert(views(values@).take(i as int) =~= views(values@));
            }
            Command::Multiple(commands)
        },
        Value::Bulk(text) => {
            if same_text(text.as_str(), "PING") {
                Command::Ping
            } else {
                Command::Error(unknown_message(value))
            }
        },
        _ => Command::Error(unknown_message(value)),
    }
}

impl From<Value> for Command {
    /// The command that the request `value` denotes.
    fn from(value: Value) -> (command: Command)
        ensures
            command@ == command_of(value@),
    {
        command_from(&value)
    }
}

/// What `from` gives is stated by content, in its own contract and through
/// `command_of`; no command is named here that it would have to equal.
impl FromSpecImpl<Value> for Command {
    open spec fn obeys_from_spec() -> bool {
        false
    }

    open spec fn from_spec(value: Value) -> Command {
        Command::Ping
    }
}

} // verus!
