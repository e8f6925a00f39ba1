//! Lists of `(key, value)` entries with distinct keys, used as lookup tables.
use vstd::prelude::*;

verus! {

/// The value of the first entry at or after `i` whose key is `key`.
pub open spec fn lookup_from<V>(entries: Seq<(Seq<char>, V)>, key: Seq<char>, i: int) -> Option<V>
    decreases entries.len() - i,
{
    if i < 0 || i >= entries.len() {
        None
    } else if entries[i].0 == key {
        Some(entries[i].1)
    } else {
        lookup_from(entries, key, i + 1)
    }
}

/// The value of the first entry whose key is `key`.
pub open spec fn lookup<V>(entries: Seq<(Seq<char>, V)>, key: Seq<char>) -> Option<V> {
    lookup_from(entries, key, 0)
}

/// No key occurs in two entries, as in a map.
pub open spec fn keys_distinct<V>(entries: Seq<(Seq<char>, V)>) -> bool {
    forall|i: int, j: int| 0 <= i < j < entries.len() ==> entries[i].0 != entries[j].0
}

/// The `(key, value)` views of entries keyed by strings, with the values kept as they are.
pub open spec fn keyed_view<V>(entries: Seq<(String, V)>) -> Seq<(Seq<char>, V)> {
    entries.map_values(|e: (String, V)| (e.0@, e.1))
}

/// The index of the first entry whose key is `key`.
pub fn find_key<V>(entries: &Vec<(String, V)>, key: &str) -> (r: Option<usize>)
    ensures
        match r {
            Some(k) => k < entries@.len() && entries@[k as int].0@ == key@ && lookup(
                keyed_view(entries@),
                key@,
            ) == Some(entries@[k as int].1),
            None => lookup(keyed_view(entries@), key@) is None,
        },
{
    let ghost kv = keyed_view(entries@);
    let mut j: usize = 0;
    while j < entries.len()
        invariant
            j <= entries@.len(),
            kv == keyed_view(entries@),
            lookup(kv, key@) == lookup_from(kv, key@, j as int),
        decreases entries@.len() - j,
    {
        assert(kv[j as int] == (entries@[j as int].0@, entries@[j as int].1));
        if crate::text::str_eq(entries[j].0.as_str(), key) {
            return Some(j);
        }
        j = j + 1;
    }
    None
}

} // verus!
