//! A small table from names to values that keeps the order of insertion.
use vstd::prelude::*;
use crate::text::str_eq;

verus! {

/// The entries of a table: names with their values, oldest first.
pub type Entries<T> = Seq<(Seq<char>, T)>;

/// The place of the first entry under `key`, or the length where there is
/// none.
pub open spec fn position<T>(entries: Entries<T>, key: Seq<char>) -> int
    decreases entries.len(),
{
    if entries.len() == 0 {
        0
    } else if entries[0].0 == key {
        0
    } else {
        1 + position(entries.drop_first(), key)
    }
}

/// The value that `entries` holds under `key`.
pub open spec fn lookup<T>(entries: Entries<T>, key: Seq<char>) -> Option<T> {
    let at = position(entries, key);
    if at < entries.len() {
        Some(entries[at].1)
    } else {
        None
    }
}

/// `entries` with `value` under `key`: in the place of the entry that was
/// there, or else at the end.
pub open spec fn with_entry<T>(entries: Entries<T>, key: Seq<char>, value: T) -> Entries<T> {
    let at = position(entries, key);
    if at < entries.len() {
        entries.update(at, (key, value))
    } else {
        entries.push((key, value))
    }
}

/// No name occurs twice.
pub open spec fn distinct<T>(entries: Entries<T>) -> bool {
    forall|i: int, j: int|
        0 <= i < j < entries.len() ==> (#[trigger] entries[i]).0 != (#[trigger] entries[j]).0
}

/// `position` is the least index that holds the key.
pub proof fn lemma_position<T>(entries: Entries<T>, key: Seq<char>)
    ensures
        0 <= position(entries, key) <= entries.len(),
        forall|j: int| 0 <= j < position(entries, key) ==> (#[trigger] entries[j]).0 != key,
        position(entries, key) < entries.len() ==> entries[position(entries, key)].0 == key,
    decreases entries.len(),
{
    if entries.len() != 0 && entries[0].0 != key {
        let rest = entries.drop_first();
        lemma_position(rest, key);
        assert forall|j: int| 0 <= j < position(entries, key) implies (#[trigger] entries[j]).0
            != key by {
            if j > 0 {
                assert(entries[j] == rest[j - 1]);
            }
        }
    }
}

/// An index with the key before which no entry has it is the `position`.
pub proof fn lemma_position_is<T>(entries: Entries<T>, key: Seq<char>, at: int)
    requires
        0 <= at <= entries.len(),
        forall|j: int| 0 <= j < at ==> (#[trigger] entries[j]).0 != key,
        at < entries.len() ==> entries[at].0 == key,
    ensures
        position(entries, key) == at,
{
    lemma_position(entries, key);
    let found = position(entries, key);
    if found < at {
        assert(entries[found].0 != key);
    } else if at < found {
        assert(entries[at].0 != key);
    }
}

/// What a lookup finds after `with_entry`.
pub proof fn lemma_with_entry_lookup<T>(
    entries: Entries<T>,
    key: Seq<char>,
    value: T,
    other: Seq<char>,
)
    ensures
        lookup(with_entry(entries, key, value), other) == if other == key {
            Some(value)
        } else {
            lookup(entries, other)
        },
{
    let after = with_entry(entries, key, value);
    let at = position(entries, key);
    lemma_position(entries, key);
    lemma_position(entries, other);
    if other == key {
        lemma_position_is(after, key, at);
    } else {
        let there = position(entries, other);
        assert forall|j: int| 0 <= j < there implies (#[trigger] after[j]).0 != other by {
            if j < entries.len() && j != at {
                assert(after[j] == entries[j]);
            }
        }
        if there < entries.len() {
            assert(after[there] == entries[there]);
            lemma_position_is(after, other, there);
        } else {
            assert forall|j: int| 0 <= j < after.len() implies (#[trigger] after[j]).0
                != other by {
                if j < entries.len() && j != at {
                    assert(after[j] == entries[j]);
                }
            }
            lemma_position_is(after, other, after.len() as int);
        }
    }
}

/// `with_entry` keeps the names distinct.
pub proof fn lemma_with_entry_distinct<T>(entries: Entries<T>, key: Seq<char>, value: T)
    requires
        distinct(entries),
    ensures
        distinct(with_entry(entries, key, value)),
{
    let after = with_entry(entries, key, value);
    let at = position(entries, key);
    lemma_position(entries, key);
    assert forall|i: int, j: int| 0 <= i < j < after.len() implies (#[trigger] after[i]).0 != (
    #[trigger] after[j]).0 by {
        if at < entries.len() {
            assert(after[i].0 == entries[i].0);
            assert(after[j].0 == entries[j].0);
        } else if j < entries.len() {
            assert(after[i] == entries[i]);
            assert(after[j] == entries[j]);
        } else {
            assert(after[i] == entries[i]);
        }
    }
}

/// A table from names to values. A name occurs at most once; the entries
/// keep the order in which their names first came.
#[derive(Debug)]
pub struct Table<V: View> {
    entries: Vec<(String, V)>,
}

/// The entries of a list of pairs, by their views.
pub open spec fn entries_view<V: View>(entries: Seq<(String, V)>) -> Entries<V::V> {
    Seq::new(entries.len(), |i: int| (entries[i].0@, entries[i].1@))
}

impl<V: View> View for Table<V> {
    type V = Entries<V::V>;

    closed spec fn view(&self) -> Entries<V::V> {
        entries_view(self.entries@)
    }
}

impl<V: View> Table<V> {
    #[verifier::type_invariant]
    closed spec fn unique(self) -> bool {
        distinct(entries_view(self.entries@))
    }

    /// The empty table.
    pub fn new() -> (table: Self)
        ensures
            table@ == Seq::<(Seq<char>, V::V)>::empty(),
    {
        let table = Table { entries: Vec::new() };
        assert(table@ =~= Seq::<(Seq<char>, V::V)>::empty());
        table
    }

    /// The table of the given entries, whose names differ from each other.
    pub(crate) fn from_entries(entries: Vec<(String, V)>) -> (table: Self)
        requires
            distinct(entries_view(entries@)),
        ensures
            table@ == entries_view(entries@),
    {
        Table { entries }
    }

    /// States in executable code that no name occurs twice.
    pub(crate) fn names_differ(&self)
        ensures
            distinct(self@),
    {
        proof {
            use_type_invariant(self);
        }
    }

    /// The number of entries.
    pub fn len(&self) -> (n: usize)
        ensures
            n == self@.len(),
    {
        self.entries.len()
    }

    /// Whether the table has no entry.
    pub fn is_empty(&self) -> (empty: bool)
        ensures
            empty == (self@.len() == 0),
    {
        self.entries.len() == 0
    }

    /// The name of the entry at `i`.
    pub(crate) fn key_at(&self, i: usize) -> (key: &String)
        requires
            i < self@.len(),
        ensures
            key@ == self@[i as int].0,
    {
        &self.entries[i].0
    }

    /// The value of the entry at `i`.
    pub(crate) fn value_at(&self, i: usize) -> (value: &V)
        requires
            i < self@.len(),
        ensures
            value@ == self@[i as int].1,
    {
        &self.entries[i].1
    }

    /// The index of the entry under `key`, or the length where there is
    /// none.
    fn find(&self, key: &str) -> (at: usize)
        ensures
            at == position(self@, key@),
    {
        let mut i: usize = 0;
        while i < self.entries.len()
            invariant
                i <= self.entries.len(),
                forall|j: int| 0 <= j < i ==> (#[trigger] self@[j]).0 != key@,
            decreases self.entries.len() - i,
        {
            if str_eq(self.entries[i].0.as_str(), key) {
                proof {
                    lemma_position_is(self@, key@, i as int);
                }
                return i;
            }
            i += 1;
        }
        proof {
            lemma_position_is(self@, key@, i as int);
        }
        i
    }

    /// The value under `key`, if the table has one.
    pub fn get(&self, key: &str) -> (value: Option<&V>)
        ensures
            match value {
                Some(found) => lookup(self@, key@) == Some(found@),
                None => lookup(self@, key@).is_none(),
            },
    {
        let at = self.find(key);
        if at < self.entries.len() {
            Some(&self.entries[at].1)
        } else {
            None
        }
    }

    /// Whether the table has an entry under `key`.
    pub fn contains_key(&self, key: &str) -> (found: bool)
        ensures
            found == lookup(self@, key@).is_some(),
    {
        let at = self.find(key);
        at < self.entries.len()
    }

    /// Puts `value` under `key`: in the place of the entry that was there,
    /// or else at the end.
    pub fn insert(&mut self, key: String, value: V)
        ensures
            final(self)@ == with_entry(old(self)@, key@, value@),
    {
        proof {
            use_type_invariant(&*self);
            lemma_with_entry_distinct(self@, key@, value@);
        }
        let at = self.find(key.as_str());
        let mut entries: Vec<(String, V)> = Vec::new();
        std::mem::swap(&mut entries, &mut self.entries);
        if at < entries.len() {
            entries.set(at, (key, value));
        } else {
            entries.push((key, value));
        }
        assert(entries_view(entries@) =~= with_entry(old(self)@, key@, value@));
        self.entries = entries;
    }
}

} // verus!
