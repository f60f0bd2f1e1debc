//! A map from strings to strings that is walked in the order of its keys.

use crate::text::{
    comes_before, lemma_precedes_irreflexive, lemma_precedes_total, lemma_precedes_transitive,
    precedes, same_text,
};
use vstd::prelude::*;

verus! {

/// Entries as the contracts see them: the characters of each key and value.
pub type Entries = Seq<(Seq<char>, Seq<char>)>;

/// Each key precedes every key behind it, so that no key occurs twice.
pub open spec fn ascending(entries: Entries) -> bool {
    forall|i: int, j: int|
        0 <= i < j < entries.len() ==> precedes(#[trigger] entries[i].0, #[trigger] entries[j].0)
}

/// The value that the entries hold for `key`, if they hold one.
pub open spec fn value_of(entries: Entries, key: Seq<char>) -> Option<Seq<char>>
    decreases entries.len(),
{
    if entries.len() == 0 {
        None
    } else if entries[0].0 == key {
        Some(entries[0].1)
    } else {
        value_of(entries.drop_first(), key)
    }
}

/// How many entries at the front have a key that precedes `key`.
pub open spec fn rank(entries: Entries, key: Seq<char>) -> int
    decreases entries.len(),
{
    if entries.len() > 0 && precedes(entries[0].0, key) {
        1 + rank(entries.drop_first(), key)
    } else {
        0
    }
}

/// The entries with `value` put under `key`: in place of the value that the
/// key had, or at the key's place in the order.
pub open spec fn with_entry(entries: Entries, key: Seq<char>, value: Seq<char>) -> Entries {
    let at = rank(entries, key);
    if at < entries.len() && entries[at].0 == key {
        entries.update(at, (key, value))
    } else {
        entries.insert(at, (key, value))
    }
}

/// The rank is where the keys stop preceding `key`.
pub proof fn lemma_rank_is(entries: Entries, key: Seq<char>, at: int)
    requires
        0 <= at <= entries.len(),
        forall|j: int| 0 <= j < at ==> precedes(#[trigger] entries[j].0, key),
        at < entries.len() ==> !precedes(entries[at].0, key),
    ensures
        rank(entries, key) == at,
    decreases entries.len(),
{
    if at > 0 {
        assert(precedes(entries[0].0, key));
        let rest = entries.drop_first();
        assert forall|j: int| 0 <= j < at - 1 implies precedes(#[trigger] rest[j].0, key) by {
            assert(rest[j] == entries[j + 1]);
        }
        lemma_rank_is(rest, key, at - 1);
    }
}

/// In ascending entries, all keys before the rank of `key` precede it, and
/// `key` precedes or is each key from the rank on.
pub proof fn lemma_rank_splits(entries: Entries, key: Seq<char>)
    requires
        ascending(entries),
    ensures
        0 <= rank(entries, key) <= entries.len(),
        forall|j: int| 0 <= j < rank(entries, key) ==> precedes(#[trigger] entries[j].0, key),
        forall|j: int|
            rank(entries, key) <= j < entries.len() ==> !precedes(#[trigger] entries[j].0, key),
    decreases entries.len(),
{
    if entries.len() > 0 {
        let rest = entries.drop_first();
        assert forall|i: int, j: int| 0 <= i < j < rest.len() implies precedes(
            #[trigger] rest[i].0,
            #[trigger] rest[j].0,
        ) by {
            assert(rest[i] == entries[i + 1]);
            assert(rest[j] == entries[j + 1]);
        }
        if precedes(entries[0].0, key) {
            lemma_rank_splits(rest, key);
            assert forall|j: int| 0 <= j < rank(entries, key) implies precedes(
                #[trigger] entries[j].0,
                key,
            ) by {
                if j > 0 {
                    assert(entries[j] == rest[j - 1]);
                }
            }
            assert forall|j: int| rank(entries, key) <= j < entries.len() implies !precedes(
                #[trigger] entries[j].0,
                key,
            ) by {
                assert(entries[j] == rest[j - 1]);
            }
        } else {
            assert forall|j: int| 0 <= j < entries.len() implies !precedes(
                #[trigger] entries[j].0,
                key,
            ) by {
                if j > 0 && precedes(entries[j].0, key) {
                    assert(precedes(entries[0].0, entries[j].0));
                    lemma_precedes_transitive(entries[0].0, entries[j].0, key);
                }
            }
        }
    }
}

/// Putting an entry into ascending entries leaves them ascending.
pub proof fn lemma_with_entry_ascending(entries: Entries, key: Seq<char>, value: Seq<char>)
    requires
        ascending(entries),
    ensures
        ascending(with_entry(entries, key, value)),
{
    lemma_rank_splits(entries, key);
    let at = rank(entries, key);
    let after = with_entry(entries, key, value);
    if at < entries.len() && entries[at].0 == key {
        assert forall|i: int, j: int| 0 <= i < j < after.len() implies precedes(
            #[trigger] after[i].0,
            #[trigger] after[j].0,
        ) by {
            assert(after[i].0 == entries[i].0);
            assert(after[j].0 == entries[j].0);
        }
    } else {
        assert forall|i: int, j: int| 0 <= i < j < after.len() implies precedes(
            #[trigger] after[i].0,
            #[trigger] after[j].0,
        ) by {
            if j < at {
                assert(after[i] == entries[i] && after[j] == entries[j]);
            } else if j == at {
                assert(after[i] == entries[i]);
            } else if i == at {
                assert(after[j] == entries[j - 1]);
                lemma_precedes_total(entries[j - 1].0, key);
                if j - 1 > at {
                    assert(precedes(entries[at].0, entries[j - 1].0));
                    lemma_precedes_total(entries[at].0, key);
                    lemma_precedes_transitive(key, entries[at].0, entries[j - 1].0);
                }
            } else if i < at {
                assert(after[i] == entries[i] && after[j] == entries[j - 1]);
            } else {
                assert(after[i] == entries[i - 1] && after[j] == entries[j - 1]);
            }
        }
    }
}

/// The value of a key is the value of the first entry that has the key.
pub proof fn lemma_value_of_first(entries: Entries, key: Seq<char>, at: int)
    requires
        0 <= at <= entries.len(),
        forall|j: int| 0 <= j < at ==> (#[trigger] entries[j]).0 != key,
        at < entries.len() ==> entries[at].0 == key,
    ensures
        value_of(entries, key) == if at < entries.len() {
            Some(entries[at].1)
        } else {
            None
        },
    decreases entries.len(),
{
    if at > 0 {
        assert(entries[0].0 != key);
        let rest = entries.drop_first();
        assert forall|j: int| 0 <= j < at - 1 implies (#[trigger] rest[j]).0 != key by {
            assert(rest[j] == entries[j + 1]);
        }
        lemma_value_of_first(rest, key, at - 1);
    }
}

/// Where the first entry with the given key stands; the number of entries
/// when there is none.
pub proof fn lemma_first_with_key(entries: Entries, key: Seq<char>) -> (at: int)
    ensures
        0 <= at <= entries.len(),
        forall|j: int| 0 <= j < at ==> (#[trigger] entries[j]).0 != key,
        at < entries.len() ==> entries[at].0 == key,
    decreases entries.len(),
{
    if entries.len() == 0 || entries[0].0 == key {
        0
    } else {
        let rest = entries.drop_first();
        let at = lemma_first_with_key(rest, key);
        assert forall|j: int| 0 <= j < at + 1 implies (#[trigger] entries[j]).0 != key by {
            if j > 0 {
                assert(entries[j] == rest[j - 1]);
            }
        }
        if at < rest.len() {
            assert(entries[at + 1] == rest[at]);
        }
        at + 1
    }
}

/// The map law: after `value` has been put under `key`, the key has that
/// value and every other key has the value that it had.
pub proof fn lemma_value_after_insert(
    entries: Entries,
    key: Seq<char>,
    value: Seq<char>,
    other: Seq<char>,
)
    requires
        ascending(entries),
    ensures
        value_of(with_entry(entries, key, value), other) == if other == key {
            Some(value)
        } else {
            value_of(entries, other)
        },
{
    let after = with_entry(entries, key, value);
    let at = rank(entries, key);
    lemma_rank_splits(entries, key);
    lemma_precedes_irreflexive(key);
    let replaced = at < entries.len() && entries[at].0 == key;
    if other == key {
        assert forall|j: int| 0 <= j < at implies (#[trigger] after[j]).0 != key by {
            assert(after[j].0 == entries[j].0);
            assert(precedes(entries[j].0, key));
        }
        lemma_value_of_first(after, key, at);
    } else {
        let found = lemma_first_with_key(entries, other);
        lemma_value_of_first(entries, other, found);
        let found_after = if replaced || found < at {
            found
        } else {
            found + 1
        };
        assert forall|j: int| 0 <= j < found_after implies (#[trigger] after[j]).0 != other by {
            if replaced {
                if j != at {
                    assert(after[j] == entries[j]);
                }
            } else if j < at {
                assert(after[j] == entries[j]);
            } else if j > at {
                assert(after[j] == entries[j - 1]);
            }
        }
        if found < entries.len() {
            if replaced || found < at {
                assert(after[found_after] == entries[found]);
            } else {
                assert(after[found_after] == entries[found]);
            }
        }
        lemma_value_of_first(after, other, found_after);
    }
}

/// A map from strings to strings, kept in the order of its keys.
pub struct TextMap {
    entries: Vec<(String, String)>,
}

impl View for TextMap {
    type V = Entries;

    closed spec fn view(&self) -> Entries {
        Seq::new(self.entries@.len(), |i: int| (self.entries@[i].0@, self.entries@[i].1@))
    }
}

impl TextMap {
    /// The keys ascend: the entries are in the order of their keys, and no
    /// key occurs twice.
    pub open spec fn wf(self) -> bool {
        ascending(self@)
    }

    /// A map without entries.
    pub fn new() -> (m: Self)
        ensures
            m.wf(),
            m@ == Entries::empty(),
    {
        let m = TextMap { entries: Vec::new() };
        assert(m@ =~= Entries::empty());
        m
    }

    /// The number of entries.
    pub fn len(&self) -> (n: usize)
        ensures
            n == self@.len(),
    {
        self.entries.len()
    }

    /// The key of the entry at position `i` in the order of the keys.
    pub fn key(&self, i: usize) -> (k: &str)
        requires
            i < self@.len(),
        ensures
            k@ == self@[i as int].0,
    {
        self.entries[i].0.as_str()
    }

    /// The value of the entry at position `i` in the order of the keys.
    pub fn value(&self, i: usize) -> (v: &str)
        requires
            i < self@.len(),
        ensures
            v@ == self@[i as int].1,
    {
        self.entries[i].1.as_str()
    }

    /// The value that the map holds for `key`.
    pub fn get(&self, key: &str) -> (found: Option<&str>)
        ensures
            match value_of(self@, key@) {
                Some(v) => found is Some && found->0@ == v,
                None => found is None,
            },
    {
        let mut i: usize = 0;
        while i < self.entries.len()
            invariant
                i <= self@.len(),
                self@.len() == self.entries@.len(),
                forall|j: int| 0 <= j < i ==> (#[trigger] self@[j]).0 != key@,
            decreases self.entries.len() - i,
        {
            if same_text(self.entries[i].0.as_str(), key) {
                proof {
                    lemma_value_of_first(self@, key@, i as int);
                }
                return Some(self.entries[i].1.as_str());
            }
            i += 1;
        }
        proof {
            lemma_value_of_first(self@, key@, i as int);
        }
        None
    }

    /// Puts `value` under `key`, in place of the value that the key had, if
    /// it had one. The order of the keys is kept.
    pub fn insert(&mut self, key: String, value: String)
        ensures
            final(self)@ == with_entry(old(self)@, key@, value@),
            old(self).wf() ==> final(self).wf(),
    {
        let mut at: usize = 0;
        while at < self.entries.len() && comes_before(self.entries[at].0.as_str(), key.as_str())
            invariant
                at <= self@.len(),
                self@.len() == self.entries@.len(),
                *self == *old(self),
                forall|j: int| 0 <= j < at ==> precedes((#[trigger] self@[j]).0, key@),
            decreases self.entries.len() - at,
        {
            at += 1;
        }
        proof {
            lemma_rank_is(self@, key@, at as int);
            if old(self).wf() {
                lemma_with_entry_ascending(old(self)@, key@, value@);
            }
        }
        if at < self.entries.len() && same_text(self.entries[at].0.as_str(), key.as_str()) {
            self.entries[at] = (key, value);
            assert(self@ =~= with_entry(old(self)@, key@, value@));
        } else {
            self.entries.insert(at, (key, value));
            assert(self@ =~= with_entry(old(self)@, key@, value@));
        }
    }
}

} // verus!
