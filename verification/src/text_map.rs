//! A map from texts to values.

use crate::text;
use vstd::prelude::*;

verus! {

/// A map keyed by text. Its entries stand in the order in which their keys came.
pub struct TextMap<V> {
    entries: Vec<(String, V)>,
}

/// The first `n` entries read as a map.
pub closed spec fn entries_map<V>(entries: Seq<(String, V)>, n: int) -> Map<Seq<char>, V>
    decreases n,
{
    if n <= 0 || n > entries.len() {
        Map::empty()
    } else {
        entries_map(entries, n - 1).insert(entries[n - 1].0@, entries[n - 1].1)
    }
}

impl<V> TextMap<V> {
    pub closed spec fn view(&self) -> Map<Seq<char>, V> {
        entries_map(self.entries@, self.entries@.len() as int)
    }

    /// A map without entries.
    pub fn new() -> (r: TextMap<V>)
        ensures
            r.view() == Map::<Seq<char>, V>::empty(),
    {
        TextMap { entries: Vec::new() }
    }

    /// Position of the last entry for `key`.
    fn last_entry(&self, key: &str) -> (r: Option<usize>)
        ensures
            r is Some <==> self.view().contains_key(key@),
            r matches Some(i) ==> i < self.entries.len() && self.entries[i as int].1
                == self.view()[key@],
    {
        let mut n: usize = self.entries.len();
        while n > 0
            invariant
                n <= self.entries.len(),
                self.view().contains_key(key@) == entries_map(
                    self.entries@,
                    n as int,
                ).contains_key(key@),
                self.view()[key@] == entries_map(self.entries@, n as int)[key@],
            decreases n,
        {
            n -= 1;
            if text::same(self.entries[n].0.as_str(), key) {
                return Some(n);
            }
        }
        None
    }

    /// The value under `key`.
    pub fn get(&self, key: &str) -> (r: Option<&V>)
        ensures
            r is Some <==> self.view().contains_key(key@),
            r matches Some(v) ==> *v == self.view()[key@],
    {
        match self.last_entry(key) {
            Some(i) => Some(&self.entries[i].1),
            None => None,
        }
    }

    /// Puts `value` under `key`, in place of what stood there.
    pub fn insert(&mut self, key: &str, value: V)
        ensures
            final(self).view() == old(self).view().insert(key@, value),
    {
        let ghost before = self.entries@;
        self.entries.push((key.to_owned(), value));
        proof {
            lemma_entries_prefix(self.entries@, before, before.len() as int);
        }
    }
}

proof fn lemma_entries_prefix<V>(a: Seq<(String, V)>, b: Seq<(String, V)>, n: int)
    requires
        0 <= n <= a.len(),
        n <= b.len(),
        forall|i: int| 0 <= i < n ==> a[i] == b[i],
    ensures
        entries_map(a, n) == entries_map(b, n),
    decreases n,
{
    if n > 0 {
        lemma_entries_prefix(a, b, n - 1);
    }
}

/// A map gives back what was put under a key last, and everything else as before.
pub proof fn law_map_gives_back_what_was_put(
    m: &mut TextMap<String>,
    key: &str,
    value: String,
    other: &str,
    now: Option<&String>,
)
    requires
        call_ensures(TextMap::<String>::insert, (m, key, value), ()),
        call_ensures(TextMap::<String>::get, (&*final(m), other), now),
    ensures
        other@ == key@ ==> now == Some(&value),
        other@ != key@ ==> (now is Some <==> old(m).view().contains_key(other@)),
        other@ != key@ && now is Some ==> *now->0 == old(m).view()[other@],
{
}

} // verus!
