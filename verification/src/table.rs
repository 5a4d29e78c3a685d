//! A map from names to values that can be walked.

use vstd::hash_map::StringHashMap;
use vstd::prelude::*;

verus! {

broadcast use vstd::hash_map::group_hash_map_axioms;

/// A map from names to values. Each name stands once; `index` finds its place.
pub struct NameTable<V> {
    names: Vec<String>,
    values: Vec<V>,
    index: StringHashMap<usize>,
}

impl<V> View for NameTable<V> {
    type V = Map<Seq<char>, V>;

    closed spec fn view(&self) -> Map<Seq<char>, V> {
        Map::new(
            |name: Seq<char>| self.index@.contains_key(name),
            |name: Seq<char>| self.values@[self.index@[name] as int],
        )
    }
}

/// The map that a list of entries with distinct names stands for.
pub open spec fn entries_map<V>(entries: Seq<(String, V)>) -> Map<Seq<char>, V>
    decreases entries.len(),
{
    if entries.len() == 0 {
        Map::empty()
    } else {
        entries_map(entries.drop_last()).insert(entries.last().0@, entries.last().1)
    }
}

/// No two entries have the same name.
pub open spec fn distinct_names<V>(entries: Seq<(String, V)>) -> bool {
    forall|i: int, j: int|
        0 <= i < j < entries.len() ==> (#[trigger] entries[i]).0@ != (#[trigger] entries[j]).0@
}

impl<V> NameTable<V> {
    /// Every name has one place in the two lists, and the index knows it.
    pub closed spec fn well_formed(self) -> bool {
        &&& self.names@.len() == self.values@.len()
        &&& forall|name: Seq<char>| #[trigger]
            self.index@.contains_key(name) ==> {
                &&& self.index@[name] < self.names@.len()
                &&& self.names@[self.index@[name] as int]@ == name
            }
        &&& forall|i: int|
            0 <= i < self.names@.len() ==> {
                &&& self.index@.contains_key((#[trigger] self.names@[i])@)
                &&& self.index@[self.names@[i]@] == i
            }
    }

    /// An empty table.
    pub fn new() -> (table: Self)
        ensures
            table.well_formed(),
            table@ == Map::<Seq<char>, V>::empty(),
    {
        let table = NameTable {
            names: Vec::new(),
            values: Vec::new(),
            index: StringHashMap::new(),
        };
        assert(table@ =~= Map::<Seq<char>, V>::empty());
        table
    }

    /// There are finitely many names.
    pub proof fn lemma_finite(self)
        requires
            self.well_formed(),
        ensures
            self@.dom().finite(),
    {
        self.lemma_len();
    }

    proof fn lemma_len(self)
        requires
            self.well_formed(),
        ensures
            self@.dom().finite(),
            self@.len() == self.names@.len(),
    {
        let texts = self.names@.map_values(|s: String| s@);
        assert(texts.no_duplicates()) by {
            assert forall|i: int, j: int|
                0 <= i < texts.len() && 0 <= j < texts.len() && i != j implies texts[i]
                != texts[j] by {
                assert(self.index@[self.names@[i]@] == i);
                assert(self.index@[self.names@[j]@] == j);
            }
        }
        texts.unique_seq_to_set();
        assert(texts.to_set() =~= self@.dom()) by {
            assert forall|name: Seq<char>| self@.dom().contains(name) implies texts.contains(
                name,
            ) by {
                assert(texts[self.index@[name] as int] == name);
            }
        }
    }

    /// The number of names.
    pub fn len(&self) -> (n: usize)
        requires
            self.well_formed(),
        ensures
            n == self@.len(),
    {
        proof {
            self.lemma_len();
        }
        self.names.len()
    }

    /// The value under a name.
    pub fn get(&self, name: &str) -> (value: Option<&V>)
        requires
            self.well_formed(),
        ensures
            value is Some <==> self@.contains_key(name@),
            value matches Some(v) ==> *v == self@[name@],
    {
        match self.index.get(name) {
            Some(at) => Some(&self.values[*at]),
            None => None,
        }
    }

    /// Puts a value under a name, in place of the one that stood there.
    pub fn insert(&mut self, name: String, value: V)
        requires
            old(self).well_formed(),
        ensures
            final(self).well_formed(),
            final(self)@ == old(self)@.insert(name@, value),
    {
        let found: Option<usize> = match self.index.get(name.as_str()) {
            Some(at) => Some(*at),
            None => None,
        };
        match found {
            Some(at) => {
                self.values.push(value);
                let _replaced = self.values.swap_remove(at);
            },
            None => {
                let at: usize = self.names.len();
                self.index.insert(name.clone(), at);
                self.names.push(name);
                self.values.push(value);
            },
        }
        assert(self@ =~= old(self)@.insert(name@, value));
    }

    /// Moves every entry of another table in. Where both have a name, the other's value stays.
    pub fn extend(&mut self, other: Self)
        requires
            old(self).well_formed(),
            other.well_formed(),
        ensures
            final(self).well_formed(),
            final(self)@ == old(self)@.union_prefer_right(other@),
    {
        let mut entries: Vec<(String, V)> = other.into_entries();
        let ghost all = entries@;
        let ghost before = self@;
        while entries.len() > 0
            invariant
                self.well_formed(),
                entries@ == all.take(entries@.len() as int),
                entries@.len() <= all.len(),
                distinct_names(all),
                self@.union_prefer_right(entries_map(entries@)) == before.union_prefer_right(
                    entries_map(all),
                ),
            decreases entries.len(),
        {
            let ghost current = self@;
            let ghost listed = entries@;
            if let Some((name, value)) = entries.pop() {
                proof {
                    lemma_entries_names(entries@);
                    assert(entries@ == listed.drop_last());
                    assert(!entries_map(entries@).contains_key(name@)) by {
                        if entries_map(entries@).contains_key(name@) {
                            let i = choose|i: int|
                                0 <= i < entries@.len() && (#[trigger] entries@[i]).0@ == name@;
                            assert(all[i] == entries@[i]);
                            assert(all[entries@.len() as int] == listed.last());
                        }
                    }
                }
                self.insert(name, value);
                assert(self@.union_prefer_right(entries_map(entries@))
                    =~= current.union_prefer_right(entries_map(listed)));
            }
        }
        assert(self@ =~= self@.union_prefer_right(entries_map(entries@)));
    }

    /// Takes the table apart into its entries.
    pub fn into_entries(self) -> (entries: Vec<(String, V)>)
        requires
            self.well_formed(),
        ensures
            distinct_names(entries@),
            entries_map(entries@) == self@,
            entries@.len() == self@.len(),
            forall|i: int|
                0 <= i < entries@.len() ==> self@.contains_key((#[trigger] entries@[i]).0@)
                    && self@[entries@[i].0@] == entries@[i].1,
    {
        let ghost all = self;
        let NameTable { names, values, index: _ } = self;
        let mut names: Vec<String> = names;
        let mut values: Vec<V> = values;
        let mut entries: Vec<(String, V)> = Vec::new();
        while names.len() > 0
            invariant
                all.well_formed(),
                names@.len() == values@.len() <= all.names@.len(),
                names@ == all.names@.take(names@.len() as int),
                values@ == all.values@.take(names@.len() as int),
                entries@.len() + names@.len() == all.names@.len(),
                forall|i: int|
                    0 <= i < entries@.len() ==> (#[trigger] entries@[i]) == (
                        all.names@[all.names@.len() - 1 - i],
                        all.values@[all.names@.len() - 1 - i],
                    ),
            decreases names.len(),
        {
            if let (Some(name), Some(value)) = (names.pop(), values.pop()) {
                entries.push((name, value));
            }
        }
        proof {
            let n = all.names@.len();
            assert forall|i: int, j: int| 0 <= i < j < entries@.len() implies (
            #[trigger] entries@[i]).0@ != (#[trigger] entries@[j]).0@ by {
                assert(all.index@[all.names@[n - 1 - i]@] == n - 1 - i);
                assert(all.index@[all.names@[n - 1 - j]@] == n - 1 - j);
            }
            lemma_entries_names(entries@);
            lemma_entries_values(entries@);
            assert forall|name: Seq<char>| #[trigger]
                entries_map(entries@).contains_key(name) <==> all@.contains_key(name) by {
                if all@.contains_key(name) {
                    assert(entries@[n - 1 - all.index@[name]].0@ == name);
                }
            }
            assert forall|name: Seq<char>| #[trigger]
                all@.contains_key(name) implies entries_map(entries@)[name] == all@[name] by {
                let i = n - 1 - all.index@[name];
                assert(entries@[i].0@ == name);
            }
            assert(entries_map(entries@) =~= all@);
            all.lemma_len();
        }
        entries
    }
}

proof fn lemma_entries_names<V>(entries: Seq<(String, V)>)
    ensures
        forall|name: Seq<char>| #[trigger]
            entries_map(entries).contains_key(name) <==> (exists|i: int|
                0 <= i < entries.len() && (#[trigger] entries[i]).0@ == name),
    decreases entries.len(),
{
    if entries.len() > 0 {
        let rest = entries.drop_last();
        lemma_entries_names(rest);
        assert forall|name: Seq<char>| #[trigger]
            entries_map(entries).contains_key(name) <==> (exists|i: int|
                0 <= i < entries.len() && (#[trigger] entries[i]).0@ == name) by {
            if entries_map(entries).contains_key(name) {
                if name == entries.last().0@ {
                    assert(entries[entries.len() - 1].0@ == name);
                } else {
                    assert(entries_map(rest).contains_key(name));
                    let i = choose|i: int| 0 <= i < rest.len() && (#[trigger] rest[i]).0@ == name;
                    assert(entries[i].0@ == name);
                }
            }
            if exists|i: int| 0 <= i < entries.len() && (#[trigger] entries[i]).0@ == name {
                let i = choose|i: int|
                    0 <= i < entries.len() && (#[trigger] entries[i]).0@ == name;
                if i < rest.len() {
                    assert(rest[i].0@ == name);
                    assert(entries_map(rest).contains_key(name));
                }
            }
        }
    }
}

proof fn lemma_entries_values<V>(entries: Seq<(String, V)>)
    requires
        distinct_names(entries),
    ensures
        forall|i: int|
            0 <= i < entries.len() ==> entries_map(entries)[(#[trigger] entries[i]).0@]
                == entries[i].1,
    decreases entries.len(),
{
    if entries.len() > 0 {
        let rest = entries.drop_last();
        assert(distinct_names(rest)) by {
            assert forall|i: int, j: int| 0 <= i < j < rest.len() implies (#[trigger] rest[i]).0@
                != (#[trigger] rest[j]).0@ by {
                assert(entries[i].0@ != entries[j].0@);
            }
        }
        lemma_entries_values(rest);
        assert forall|i: int| 0 <= i < entries.len() implies entries_map(
            entries,
        )[(#[trigger] entries[i]).0@] == entries[i].1 by {
            if i < rest.len() {
                assert(rest[i] == entries[i]);
                assert(entries[i].0@ != entries[entries.len() - 1].0@);
            }
        }
    }
}

/// A list of entries with distinct names stands for the map that has exactly these names, each
/// with the value of its entry.
pub proof fn law_entries_stand_for_a_map<V>(entries: Seq<(String, V)>, name: Seq<char>)
    requires
        forall|i: int, j: int|
            0 <= i < j < entries.len() ==> (#[trigger] entries[i]).0@ != (#[trigger] entries[j]).0@,
    ensures
        distinct_names(entries),
        entries_map(entries).contains_key(name) <==> (exists|i: int|
            0 <= i < entries.len() && (#[trigger] entries[i]).0@ == name),
        forall|i: int|
            0 <= i < entries.len() ==> entries_map(entries)[(#[trigger] entries[i]).0@]
                == entries[i].1,
{
    lemma_entries_names(entries);
    lemma_entries_values(entries);
}

impl<T> NameTable<Vec<T>> {
    /// Appends an item to the list under a name, which starts out empty.
    pub fn push_under(&mut self, name: String, item: T)
        requires
            old(self).well_formed(),
        ensures
            final(self).well_formed(),
            final(self)@.dom() == old(self)@.dom().insert(name@),
            final(self)@[name@]@ == (if old(self)@.contains_key(name@) {
                old(self)@[name@]@
            } else {
                Seq::empty()
            }).push(item),
            forall|other: Seq<char>|
                other != name@ && old(self)@.contains_key(other) ==> #[trigger] final(self)@[other]
                    == old(self)@[other],
    {
        let found: Option<usize> = match self.index.get(name.as_str()) {
            Some(at) => Some(*at),
            None => None,
        };
        match found {
            Some(at) => {
                self.values[at].push(item);
                assert(self@.dom() =~= old(self)@.dom().insert(name@));
            },
            None => {
                let mut list: Vec<T> = Vec::new();
                list.push(item);
                self.insert(name, list);
            },
        }
    }
}

} // verus!
