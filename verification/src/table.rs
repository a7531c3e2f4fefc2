//! Tables from text to values.
use vstd::prelude::*;
use crate::text;

verus! {

/// A table from names to values. The first entry with a name counts.
#[derive(Debug)]
pub struct Table<V> {
    pub entries: Vec<(String, V)>,
}

/// The value of the first entry with the name `key`.
pub open spec fn lookup<V>(entries: Seq<(String, V)>, key: Seq<char>) -> Option<V>
    decreases entries.len(),
{
    if entries.len() == 0 {
        None
    } else if entries[0].0@ == key {
        Some(entries[0].1)
    } else {
        lookup(entries.drop_first(), key)
    }
}

/// Where no entry has the name, there is no value; the first with it gives the value.
pub proof fn lemma_lookup<V>(entries: Seq<(String, V)>, key: Seq<char>, i: int)
    requires
        0 <= i <= entries.len(),
        forall|j: int| 0 <= j < i ==> (#[trigger] entries[j]).0@ != key,
    ensures
        i == entries.len() ==> lookup(entries, key) is None,
        i < entries.len() && entries[i].0@ == key ==> lookup(entries, key) == Some(entries[i].1),
    decreases i,
{
    if i > 0 {
        let rest = entries.drop_first();
        assert(entries[0].0@ != key);
        assert forall|j: int| 0 <= j < i - 1 implies (#[trigger] rest[j]).0@ != key by {
            assert(entries[j + 1].0@ != key);
        }
        lemma_lookup(rest, key, i - 1);
    }
}

/// A value that a table gives stands in one of its entries.
pub proof fn lemma_lookup_entry<V>(entries: Seq<(String, V)>, key: Seq<char>)
    requires
        lookup(entries, key) is Some,
    ensures
        exists|i: int|
            0 <= i < entries.len() && (#[trigger] entries[i]).0@ == key && lookup(entries, key)
                == Some(entries[i].1),
    decreases entries.len(),
{
    if entries[0].0@ != key {
        let rest = entries.drop_first();
        lemma_lookup_entry(rest, key);
        let i = choose|i: int|
            0 <= i < rest.len() && (#[trigger] rest[i]).0@ == key && lookup(rest, key) == Some(
                rest[i].1,
            );
        assert(entries[i + 1] == rest[i]);
    }
}

/// What a table gives for a name after the value of the name was set.
pub proof fn lemma_lookup_push<V>(entries: Seq<(String, V)>, name: String, value: V, key: Seq<char>)
    requires
        lookup(entries, name@) is None,
    ensures
        lookup(entries.push((name, value)), key) == if key == name@ {
            Some(value)
        } else {
            lookup(entries, key)
        },
    decreases entries.len(),
{
    let more = entries.push((name, value));
    if entries.len() == 0 {
        assert(more.drop_first() =~= Seq::empty());
        assert(lookup(more.drop_first(), key) is None);
    } else {
        assert(more.drop_first() =~= entries.drop_first().push((name, value)));
        lemma_lookup_push(entries.drop_first(), name, value, key);
    }
}

/// What a table gives for a name after its first entry with a name got another value.
pub proof fn lemma_lookup_update<V>(entries: Seq<(String, V)>, i: int, value: V, key: Seq<char>)
    requires
        0 <= i < entries.len(),
        forall|j: int| 0 <= j < i ==> (#[trigger] entries[j]).0@ != entries[i].0@,
    ensures
        lookup(entries.update(i, (entries[i].0, value)), key) == if key == entries[i].0@ {
            Some(value)
        } else {
            lookup(entries, key)
        },
    decreases i,
{
    let more = entries.update(i, (entries[i].0, value));
    if i == 0 {
        assert(more.drop_first() =~= entries.drop_first());
    } else {
        let rest = entries.drop_first();
        assert(entries[0].0@ != entries[i].0@);
        assert forall|j: int| 0 <= j < i - 1 implies (#[trigger] rest[j]).0@ != rest[i - 1].0@ by {
            assert(entries[j + 1].0@ != entries[i].0@);
        }
        lemma_lookup_update(rest, i - 1, value, key);
        assert(more.drop_first() =~= rest.update(i - 1, (rest[i - 1].0, value)));
    }
}

impl<V> Table<V> {
    /// The value under a name.
    pub open spec fn at(self, key: Seq<char>) -> Option<V> {
        lookup(self.entries@, key)
    }

    /// A table without entries.
    pub fn new() -> (r: Table<V>)
        ensures
            r.entries@.len() == 0,
            forall|key: Seq<char>| r.at(key) is None,
    {
        Table { entries: Vec::new() }
    }

    /// The position of the first entry with the name `key`.
    fn position(&self, key: &str) -> (r: Option<usize>)
        ensures
            match r {
                Some(i) => {
                    &&& i < self.entries@.len()
                    &&& self.entries@[i as int].0@ == key@
                    &&& forall|j: int| 0 <= j < i ==> (#[trigger] self.entries@[j]).0@ != key@
                },
                None => forall|j: int|
                    0 <= j < self.entries@.len() ==> (#[trigger] self.entries@[j]).0@ != key@,
            },
    {
        let mut i: usize = 0;
        while i < self.entries.len()
            invariant
                i <= self.entries@.len(),
                forall|j: int| 0 <= j < i ==> (#[trigger] self.entries@[j]).0@ != key@,
            decreases self.entries.len() - i,
        {
            if text::same(self.entries[i].0.as_str(), key) {
                return Some(i);
            }
            i += 1;
        }
        None
    }

    /// The value under `key`.
    pub fn get(&self, key: &str) -> (r: Option<&V>)
        ensures
            match r {
                Some(v) => self.at(key@) == Some(*v),
                None => self.at(key@) is None,
            },
    {
        match self.position(key) {
            Some(i) => {
                proof {
                    lemma_lookup(self.entries@, key@, i as int);
                }
                Some(&self.entries[i].1)
            },
            None => {
                proof {
                    lemma_lookup(self.entries@, key@, self.entries@.len() as int);
                }
                None
            },
        }
    }

    /// Whether there is a value under `key`.
    pub fn contains_key(&self, key: &str) -> (r: bool)
        ensures
            r == (self.at(key@) is Some),
    {
        self.get(key).is_some()
    }

    /// Gives the name `key` a value, in place of the one it had.
    pub fn insert(&mut self, key: &str, value: V)
        ensures
            forall|k: Seq<char>| #[trigger]
                final(self).at(k) == if k == key@ {
                    Some(value)
                } else {
                    old(self).at(k)
                },
            old(self).at(key@) is None ==> final(self).entries@.len() == old(self).entries@.len()
                + 1,
            old(self).at(key@) is Some ==> final(self).entries@.len() == old(self).entries@.len(),
    {
        let ghost before = self.entries@;
        match self.position(key) {
            Some(i) => {
                let name = self.entries[i].0.clone();
                proof {
                    lemma_lookup(before, key@, i as int);
                    assert forall|k: Seq<char>| #[trigger]
                        lookup(before.update(i as int, (name, value)), k) == if k == key@ {
                            Some(value)
                        } else {
                            lookup(before, k)
                        } by {
                        lemma_lookup_update(before, i as int, value, k);
                    }
                }
                self.entries.set(i, (name, value));
            },
            None => {
                let name = key.to_owned();
                proof {
                    lemma_lookup(before, key@, before.len() as int);
                    assert forall|k: Seq<char>| #[trigger]
                        lookup(before.push((name, value)), k) == if k == key@ {
                            Some(value)
                        } else {
                            lookup(before, k)
                        } by {
                        lemma_lookup_push(before, name, value, k);
                    }
                }
                self.entries.push((name, value));
            },
        }
    }
}

/// A table gives for a name the value of the first entry with the name, and nothing where no entry
/// has it.
pub proof fn law_first_entry_counts<V>(entries: Seq<(String, V)>, key: Seq<char>)
    ensures
        match lookup(entries, key) {
            Some(v) => exists|i: int|
                0 <= i < entries.len() && (#[trigger] entries[i]).0@ == key && entries[i].1 == v
                    && forall|j: int| 0 <= j < i ==> (#[trigger] entries[j]).0@ != key,
            None => forall|i: int| 0 <= i < entries.len() ==> (#[trigger] entries[i]).0@ != key,
        },
    decreases entries.len(),
{
    if entries.len() > 0 {
        if entries[0].0@ == key {
            assert(entries[0].1 == lookup(entries, key)->Some_0);
        } else {
            let rest = entries.drop_first();
            law_first_entry_counts(rest, key);
            assert forall|i: int| 0 < i < entries.len() implies rest[i - 1]
                == #[trigger] entries[i] by {}
            if lookup(rest, key) is Some {
                let i = choose|i: int|
                    0 <= i < rest.len() && (#[trigger] rest[i]).0@ == key && rest[i].1 == lookup(
                        rest,
                        key,
                    )->Some_0 && forall|j: int| 0 <= j < i ==> (#[trigger] rest[j]).0@ != key;
                assert(entries[i + 1] == rest[i]);
                assert forall|j: int| 0 <= j < i + 1 implies (#[trigger] entries[j]).0@ != key by {
                    if j > 0 {
                        assert(rest[j - 1].0@ != key);
                    }
                }
            }
        }
    }
}

} // verus!
