//! A map from texts.

use vstd::prelude::*;

use crate::text::same_text;

verus! {

/// A map from texts, kept as a list of keys and values.
#[derive(Clone, Debug, Default)]
pub struct TextMap<V> {
    entries: Vec<(String, V)>,
}

/// The value that stands first under `key` in a list of keys and values.
pub open spec fn first_under<V>(entries: Seq<(Seq<char>, V)>, key: Seq<char>) -> Option<V>
    decreases entries.len(),
{
    if entries.len() == 0 {
        None
    } else if entries[0].0 == key {
        Some(entries[0].1)
    } else {
        first_under(entries.skip(1), key)
    }
}

impl<V> TextMap<V> {
    pub closed spec fn list(self) -> Seq<(Seq<char>, V)> {
        self.entries@.map_values(|e: (String, V)| (e.0@, e.1))
    }

    /// The value that is kept under a key, if any.
    pub open spec fn at(self, key: Seq<char>) -> Option<V> {
        first_under(self.list(), key)
    }

    pub fn new() -> (map: TextMap<V>)
        ensures
            forall|key: Seq<char>| #[trigger] map.at(key) is None,
    {
        let map = TextMap { entries: Vec::new() };
        assert(map.list() =~= Seq::<(Seq<char>, V)>::empty());
        map
    }

    fn find(&self, key: &str) -> (at: Option<usize>)
        ensures
            match at {
                Some(at) => at < self.entries@.len() && self.entries@[at as int].0@ == key@
                    && self.at(key@) == Some(self.entries@[at as int].1) && (forall|j: int|
                    0 <= j < at ==> (#[trigger] self.entries@[j]).0@ != key@),
                None => self.at(key@) is None && (forall|j: int|
                    0 <= j < self.entries@.len() ==> (#[trigger] self.entries@[j]).0@ != key@),
            },
    {
        let mut at: usize = 0;
        assert(self.list().skip(0) =~= self.list());
        while at < self.entries.len()
            invariant
                at <= self.entries@.len(),
                first_under(self.list().skip(at as int), key@) == self.at(key@),
                forall|j: int| 0 <= j < at ==> (#[trigger] self.entries@[j]).0@ != key@,
            decreases self.entries@.len() - at,
        {
            assert(self.list().skip(at as int)[0] == self.list()[at as int]);
            if same_text(self.entries[at].0.as_str(), key) {
                return Some(at);
            }
            assert(self.list().skip(at as int).skip(1) =~= self.list().skip(at + 1));
            at += 1;
        }
        assert(self.list().skip(at as int) =~= Seq::<(Seq<char>, V)>::empty());
        None
    }

    pub fn get(&self, key: &str) -> (value: Option<&V>)
        ensures
            match value {
                Some(value) => self.at(key@) == Some(*value),
                None => self.at(key@) is None,
            },
    {
        match self.find(key) {
            Some(at) => Some(&self.entries[at].1),
            None => None,
        }
    }

    /// The keys and values. Of several values with one key, the first is kept under it.
    pub fn entries(&self) -> (entries: &[(String, V)])
        ensures
            entries@.map_values(|e: (String, V)| (e.0@, e.1)) == self.list(),
    {
        self.entries.as_slice()
    }

    /// Keeps `value` under `key`, in place of the value that was there.
    pub fn insert(&mut self, key: &str, value: V)
        ensures
            final(self).at(key@) == Some(value),
            forall|other: Seq<char>|
                other != key@ ==> #[trigger] final(self).at(other) == old(self).at(other),
    {
        let ghost before = self.list();
        match self.find(key) {
            Some(at) => {
                let ghost was = before[at as int];
                let kept = self.entries[at].0.clone();
                self.entries.set(at, (kept, value));
                assert(self.list() =~= before.update(at as int, (was.0, value)));
                proof {
                    assert forall|j: int| 0 <= j < at implies (#[trigger] before[j]).0 != key@ by {
                        assert(old(self).entries@[j].0@ != key@);
                    }
                    lemma_first_under_update(before, key@, at as int, value);
                }
            },
            None => {
                self.entries.push((key.to_owned(), value));
                assert(self.list() =~= before.push((key@, value)));
                proof {
                    assert forall|j: int| 0 <= j < before.len() implies (#[trigger] before[j]).0
                        != key@ by {
                        assert(old(self).entries@[j].0@ != key@);
                    }
                    lemma_first_under_push(before, key@, value);
                }
            },
        }
    }
}

proof fn lemma_first_under_push<V>(
    entries: Seq<(Seq<char>, V)>,
    key: Seq<char>,
    value: V,
)
    requires
        forall|j: int| 0 <= j < entries.len() ==> (#[trigger] entries[j]).0 != key,
    ensures
        first_under(entries.push((key, value)), key) == Some(value),
        forall|other: Seq<char>|
            other != key ==> #[trigger] first_under(entries.push((key, value)), other) == first_under(
                entries,
                other,
            ),
    decreases entries.len(),
{
    let longer = entries.push((key, value));
    if entries.len() == 0 {
        assert(longer.skip(1) =~= Seq::<(Seq<char>, V)>::empty());
        assert(longer[0].0 == key);
        assert forall|other: Seq<char>| other != key implies #[trigger] first_under(longer, other)
            == first_under(entries, other) by {
            assert(first_under(longer.skip(1), other) is None);
        }
    } else {
        let rest = entries.skip(1);
        assert forall|j: int| 0 <= j < rest.len() implies (#[trigger] rest[j]).0 != key by {
            assert(rest[j] == entries[j + 1]);
        }
        lemma_first_under_push(rest, key, value);
        assert(longer.skip(1) =~= rest.push((key, value)));
        assert(longer[0] == entries[0]);
        assert forall|other: Seq<char>| other != key implies #[trigger] first_under(longer, other)
            == first_under(entries, other) by {
            assert(first_under(rest.push((key, value)), other) == first_under(rest, other));
        }
    }
}

proof fn lemma_first_under_update<V>(
    entries: Seq<(Seq<char>, V)>,
    key: Seq<char>,
    at: int,
    value: V,
)
    requires
        0 <= at < entries.len(),
        entries[at].0 == key,
        forall|j: int| 0 <= j < at ==> (#[trigger] entries[j]).0 != key,
    ensures
        first_under(entries.update(at, (key, value)), key) == Some(value),
        forall|other: Seq<char>|
            other != key ==> #[trigger] first_under(entries.update(at, (key, value)), other)
                == first_under(entries, other),
    decreases entries.len(),
{
    let updated = entries.update(at, (key, value));
    if at == 0 {
        assert(updated.skip(1) =~= entries.skip(1));
    } else {
        let rest = entries.skip(1);
        assert(rest[at - 1] == entries[at]);
        assert forall|j: int| 0 <= j < at - 1 implies (#[trigger] rest[j]).0 != key by {
            assert(rest[j] == entries[j + 1]);
        }
        lemma_first_under_update(rest, key, at - 1, value);
        assert(updated.skip(1) =~= rest.update(at - 1, (key, value)));
        assert(updated[0] == entries[0]);
        assert(entries[0].0 != key);
        assert forall|other: Seq<char>| other != key implies #[trigger] first_under(updated, other)
            == first_under(entries, other) by {
            assert(first_under(rest.update(at - 1, (key, value)), other) == first_under(
                rest,
                other,
            ));
        }
    }
}

} // verus!
