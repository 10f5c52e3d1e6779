//! A table of values by name.

use vstd::prelude::*;

use crate::text;

verus! {

/// A table of values by name.
#[derive(Debug)]
pub struct NameMap<V> {
    /// The entries; a later one stands for an earlier one with the same name.
    entries: Vec<(String, V)>,
}

/// What a list of entries says.
pub closed spec fn entry_map<V>(entries: Seq<(String, V)>) -> Map<Seq<char>, V>
    decreases entries.len(),
{
    if entries.len() == 0 {
        Map::empty()
    } else {
        entry_map(entries.drop_last()).insert(entries.last().0@, entries.last().1)
    }
}

impl<V> View for NameMap<V> {
    type V = Map<Seq<char>, V>;

    closed spec fn view(&self) -> Map<Seq<char>, V> {
        entry_map(self.entries@)
    }
}

/// Whether an entry is the last one with a name.
closed spec fn is_last_named<V>(entries: Seq<(String, V)>, name: Seq<char>, i: int) -> bool {
    &&& 0 <= i < entries.len()
    &&& entries[i].0@ == name
    &&& forall|j: int| i < j < entries.len() ==> (#[trigger] entries[j]).0@ != name
}

/// Another value in the last entry with a name is another value of the name.
proof fn lemma_entry_replaced<V>(entries: Seq<(String, V)>, i: int, entry: (String, V))
    requires
        is_last_named(entries, entry.0@, i),
    ensures
        entry_map(entries.update(i, entry)) == entry_map(entries).insert(entry.0@, entry.1),
    decreases entries.len(),
{
    let after = entries.update(i, entry);
    if i == entries.len() - 1 {
        assert(after.drop_last() =~= entries.drop_last());
        assert(entry_map(after) =~= entry_map(entries).insert(entry.0@, entry.1));
    } else {
        let rest = entries.drop_last();
        assert forall|j: int| i < j < rest.len() implies (#[trigger] rest[j]).0@ != entry.0@ by {
            assert(rest[j] == entries[j]);
        }
        lemma_entry_replaced(rest, i, entry);
        assert(after.drop_last() =~= rest.update(i, entry));
        assert(entries[entries.len() - 1].0@ != entry.0@);
        assert(entry_map(after) =~= entry_map(entries).insert(entry.0@, entry.1));
    }
}

impl<V> NameMap<V> {
    /// An empty table.
    pub fn new() -> (r: Self)
        ensures
            r@ == Map::<Seq<char>, V>::empty(),
    {
        NameMap { entries: Vec::new() }
    }

    /// The position of the entry that says what a name has.
    fn find(&self, name: &str) -> (r: Option<usize>)
        ensures
            match r {
                Some(i) => {
                    &&& i < self.entries@.len()
                    &&& is_last_named(self.entries@, name@, i as int)
                    &&& self@.contains_key(name@)
                    &&& self@[name@] == self.entries@[i as int].1
                },
                None => !self@.contains_key(name@),
            },
    {
        let mut i: usize = self.entries.len();
        let ghost all = self.entries@;
        assert(all.take(i as int) =~= all);
        while i > 0
            invariant
                i <= all.len(),
                all == self.entries@,
                forall|j: int| i <= j < all.len() ==> (#[trigger] all[j]).0@ != name@,
                self@.contains_key(name@) == entry_map(all.take(i as int)).contains_key(name@),
                self@.contains_key(name@) ==> self@[name@] == entry_map(all.take(i as int))[name@],
            decreases i,
        {
            i = i - 1;
            assert(all.take(i + 1).drop_last() =~= all.take(i as int));
            if text::same_text(self.entries[i].0.as_str(), name) {
                return Some(i);
            }
        }
        None
    }

    /// Gives a name a value. A former value is forgotten.
    pub fn insert(&mut self, name: String, value: V)
        ensures
            final(self)@ == old(self)@.insert(name@, value),
    {
        let ghost before = self.entries@;
        match self.find(name.as_str()) {
            Some(i) => {
                proof {
                    lemma_entry_replaced(before, i as int, (name, value));
                }
                self.entries.set(i, (name, value));
            },
            None => {
                self.entries.push((name, value));
                assert(self.entries@.drop_last() =~= before);
            },
        }
    }

    /// The value of a name, to be changed.
    pub fn get_mut(&mut self, name: &str) -> (r: Option<&mut V>)
        ensures
            match r {
                Some(value) => {
                    &&& old(self)@.contains_key(name@)
                    &&& *value == old(self)@[name@]
                    &&& final(self)@ == old(self)@.insert(name@, *final(value))
                },
                None => !old(self)@.contains_key(name@) && final(self)@ == old(self)@,
            },
    {
        let ghost before = self.entries@;
        match self.find(name) {
            Some(i) => {
                proof {
                    let entry = before[i as int];
                    assert forall|v: V| #[trigger]
                        entry_map(before.update(i as int, (entry.0, v))) == entry_map(
                            before,
                        ).insert(name@, v) by {
                        lemma_entry_replaced(before, i as int, (entry.0, v));
                    }
                }
                Some(&mut self.entries[i].1)
            },
            None => None,
        }
    }

    /// The value of a name.
    pub fn get(&self, name: &str) -> (r: Option<&V>)
        ensures
            match r {
                Some(value) => self@.contains_key(name@) && *value == self@[name@],
                None => !self@.contains_key(name@),
            },
    {
        match self.find(name) {
            Some(i) => Some(&self.entries[i].1),
            None => None,
        }
    }
}

} // verus!
