//! A store of text values under text keys. The store is an object of its
//! own, handed to whoever runs a command.

use vstd::hash_map::StringHashMap;
use vstd::prelude::*;

verus! {

/// A mapping from keys to values.
pub struct Store {
    entries: StringHashMap<String>,
}

impl View for Store {
    type V = Map<Seq<char>, Seq<char>>;

    closed spec fn view(&self) -> Map<Seq<char>, Seq<char>> {
        self.entries@.map_values(|value: String| value@)
    }
}

/// What a lookup of `key` in the mapping `entries` gives.
pub open spec fn lookup(entries: Map<Seq<char>, Seq<char>>, key: Seq<char>) -> Option<Seq<char>> {
    if entries.contains_key(key) {
        Some(entries[key])
    } else {
        None
    }
}

/// The mapping `entries` after the pairs of `pairs` were stored one by one,
/// first to last, so that of two pairs with one key the later one stays.
pub open spec fn store_all(
    entries: Map<Seq<char>, Seq<char>>,
    pairs: Seq<(Seq<char>, Seq<char>)>,
) -> Map<Seq<char>, Seq<char>>
    decreases pairs.len(),
{
    if pairs.len() == 0 {
        entries
    } else {
        store_all(entries, pairs.drop_last()).insert(pairs.last().0, pairs.last().1)
    }
}

/// The content of a looked-up value.
pub open spec fn found(value: Option<String>) -> Option<Seq<char>> {
    match value {
        Some(text) => Some(text@),
        None => None,
    }
}

/// The contents of a sequence of looked-up values.
pub open spec fn founds(values: Seq<Option<String>>) -> Seq<Option<Seq<char>>> {
    values.map_values(|value: Option<String>| found(value))
}

/// What the lookups of `keys` in the mapping `entries` give, key by key.
pub open spec fn lookups(entries: Map<Seq<char>, Seq<char>>, keys: Seq<Seq<char>>) -> Seq<
    Option<Seq<char>>,
> {
    keys.map_values(|key: Seq<char>| lookup(entries, key))
}

/// The content of a pair of key and value.
pub open spec fn pair_view(pair: (String, String)) -> (Seq<char>, Seq<char>) {
    (pair.0@, pair.1@)
}

/// The contents of a sequence of strings.
pub open spec fn texts(items: Seq<String>) -> Seq<Seq<char>> {
    items.map_values(|item: String| item@)
}

/// The contents of a sequence of pairs of key and value.
pub open spec fn pair_views(items: Seq<(String, String)>) -> Seq<(Seq<char>, Seq<char>)> {
    items.map_values(|item: (String, String)| pair_view(item))
}

impl Store {
    /// An empty store.
    pub fn new() -> (store: Store)
        ensures
            store@ == Map::<Seq<char>, Seq<char>>::empty(),
    {
        let store = Store { entries: StringHashMap::new() };
        assert(store@ =~= Map::<Seq<char>, Seq<char>>::empty());
        store
    }
}

/// Stores `value` under `key`, in place of what was there.
pub fn set(store: &mut Store, key: String, value: String)
    ensures
        final(store)@ == old(store)@.insert(key@, value@),
{
    store.entries.insert(key, value);
    assert(store@ =~= old(store)@.insert(key@, value@));
}

/// The value under `key`, if there is one.
pub fn get(store: &Store, key: &str) -> (value: Option<String>)
    ensures
        found(value) == lookup(store@, key@),
{
    match store.entries.get(key) {
        Some(value) => Some(value.clone()),
        None => None,
    }
}

/// Stores every pair of `values`, first to last.
pub fn m_set(store: &mut Store, values: Vec<(String, String)>)
    ensures
        final(store)@ == store_all(old(store)@, pair_views(values@)),
{
    let ghost pairs = pair_views(values@);
    let mut i: usize = 0;
    while i < values.len()
        invariant
            i <= values.len(),
            pairs == pair_views(values@),
            store@ == store_all(old(store)@, pairs.take(i as int)),
        decreases values.len() - i,
    {
        let key = values[i].0.clone();
        let value = values[i].1.clone();
        proof {
            assert(pairs.take(i + 1).drop_last() =~= pairs.take(i as int));
            assert(pairs.take(i + 1).last() == (key@, value@));
        }
        set(store, key, value);
        i += 1;
    }
    proof {
        assert(pairs.take(i as int) =~= pairs);
    }
}

/// The values under `keys`, in the order of the keys.
pub fn m_get(store: &Store, keys: Vec<String>) -> (values: Vec<Option<String>>)
    ensures
        founds(values@) == lookups(store@, texts(keys@)),
{
    let mut values: Vec<Option<String>> = Vec::new();
    let mut i: usize = 0;
    while i < keys.len()
        invariant
            i <= keys.len(),
            values@.len() == i,
            forall|j: int|
                0 <= j < i ==> found(#[trigger] values@[j]) == lookup(store@, texts(keys@)[j]),
        decreases keys.len() - i,
    {
        let value = get(store, keys[i].as_str());
        values.push(value);
        i += 1;
    }
    proof {
        assert(founds(values@) =~= lookups(store@, texts(keys@)));
    }
    values
}

} // verus!
