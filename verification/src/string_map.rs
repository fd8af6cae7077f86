//! A mapping from names to values, both strings: the variables of a run, the
//! headers of a response, a row of data.

use vstd::prelude::*;
use crate::text::same_text;

verus! {

/// A name with its value.
#[derive(Debug, Clone)]
pub struct Entry {
    pub name: String,
    pub value: String,
}

/// No name occurs twice.
pub open spec fn names_distinct(entries: Seq<Entry>) -> bool {
    forall|i: int, j: int|
        0 <= i < j < entries.len() ==> (#[trigger] entries[i]).name@ != (
        #[trigger] entries[j]).name@
}

/// Some entry has the name `name`.
pub open spec fn has_name(entries: Seq<Entry>, name: Seq<char>) -> bool {
    exists|i: int| 0 <= i < entries.len() && (#[trigger] entries[i]).name@ == name
}

/// The place of an entry with the name `name`.
pub open spec fn place_of(entries: Seq<Entry>, name: Seq<char>) -> int {
    choose|i: int| 0 <= i < entries.len() && (#[trigger] entries[i]).name@ == name
}

/// The mapping that the entries stand for.
pub open spec fn mapping_of(entries: Seq<Entry>) -> Map<Seq<char>, Seq<char>> {
    Map::new(
        |name: Seq<char>| has_name(entries, name),
        |name: Seq<char>| entries[place_of(entries, name)].value@,
    )
}

/// An entry's name maps to its value, where no name occurs twice.
pub proof fn lemma_entry_is_mapped(entries: Seq<Entry>, i: int)
    requires
        names_distinct(entries),
        0 <= i < entries.len(),
    ensures
        mapping_of(entries).contains_key(entries[i].name@),
        mapping_of(entries)[entries[i].name@] == entries[i].value@,
{
    let name = entries[i].name@;
    assert(has_name(entries, name));
    let j = place_of(entries, name);
    assert(i == j) by {
        if i < j {
            assert(entries[i].name@ != entries[j].name@);
        }
        if j < i {
            assert(entries[j].name@ != entries[i].name@);
        }
    }
}

/// A mapping from names to values that keeps the order in which the names
/// were first set.
#[derive(Debug, Clone)]
pub struct StringMap {
    entries: Vec<Entry>,
}

impl View for StringMap {
    type V = Map<Seq<char>, Seq<char>>;

    closed spec fn view(&self) -> Map<Seq<char>, Seq<char>> {
        mapping_of(self.entries@)
    }
}

impl StringMap {
    /// The entries, in the order in which their names were first set.
    pub closed spec fn listing(&self) -> Seq<Entry> {
        self.entries@
    }

    /// No name occurs twice among the entries.
    pub closed spec fn wf(&self) -> bool {
        names_distinct(self.entries@)
    }

    /// The mapping is the one that the listing stands for.
    pub proof fn lemma_view_of_listing(&self)
        ensures
            self@ == mapping_of(self.listing()),
            self.wf() == names_distinct(self.listing()),
    {
    }

    /// The empty mapping.
    pub fn new() -> (m: Self)
        ensures
            m.wf(),
            m@ == Map::<Seq<char>, Seq<char>>::empty(),
            m.listing().len() == 0,
    {
        let m = StringMap { entries: Vec::new() };
        assert(m@ =~= Map::<Seq<char>, Seq<char>>::empty());
        m
    }

    /// The number of names.
    pub fn len(&self) -> (n: usize)
        ensures
            n == self.listing().len(),
    {
        self.entries.len()
    }

    /// Whether the mapping is empty.
    pub fn is_empty(&self) -> (empty: bool)
        ensures
            empty == (self.listing().len() == 0),
    {
        self.entries.len() == 0
    }

    /// The place of `name` among the entries, if it is there.
    fn find(&self, name: &str) -> (place: Option<usize>)
        requires
            self.wf(),
        ensures
            match place {
                Some(i) => i < self.entries@.len() && self.entries@[i as int].name@ == name@,
                None => !has_name(self.entries@, name@),
            },
    {
        let mut i: usize = 0;
        while i < self.entries.len()
            invariant
                i <= self.entries@.len(),
                forall|j: int| 0 <= j < i ==> (#[trigger] self.entries@[j]).name@ != name@,
            decreases self.entries@.len() - i,
        {
            if same_text(self.entries[i].name.as_str(), name) {
                return Some(i);
            }
            i += 1;
        }
        None
    }

    /// The value of `name`, if it has one.
    pub fn get(&self, name: &str) -> (value: Option<&String>)
        requires
            self.wf(),
        ensures
            match value {
                Some(v) => self@.contains_key(name@) && self@[name@] == v@,
                None => !self@.contains_key(name@),
            },
    {
        match self.find(name) {
            Some(i) => {
                proof {
                    lemma_entry_is_mapped(self.entries@, i as int);
                }
                Some(&self.entries[i].value)
            },
            None => None,
        }
    }

    /// Whether `name` has a value.
    pub fn contains_key(&self, name: &str) -> (known: bool)
        requires
            self.wf(),
        ensures
            known == self@.contains_key(name@),
    {
        match self.find(name) {
            Some(i) => {
                proof {
                    lemma_entry_is_mapped(self.entries@, i as int);
                }
                true
            },
            None => false,
        }
    }

    /// Gives `name` the value `value`, in place of the one it had.
    pub fn insert(&mut self, name: String, value: String)
        requires
            old(self).wf(),
        ensures
            final(self).wf(),
            final(self)@ == old(self)@.insert(name@, value@),
            final(self).listing().len() == old(self).listing().len() + (if old(
                self,
            )@.contains_key(name@) {
                0int
            } else {
                1int
            }),
    {
        let ghost before = self.entries@;
        let place = self.find(name.as_str());
        match place {
            Some(i) => {
                proof {
                    lemma_entry_is_mapped(before, i as int);
                }
                self.entries.set(i, Entry { name, value });
            },
            None => {
                self.entries.push(Entry { name, value });
            },
        }
        proof {
            let after = self.entries@;
            assert(names_distinct(after));
            assert forall|k: Seq<char>| has_name(after, k) <==> (k == name@ || has_name(
                before,
                k,
            )) by {
                if has_name(after, k) {
                    let j = place_of(after, k);
                    if k != name@ {
                        assert(before[j].name@ == k);
                    }
                }
                if has_name(before, k) {
                    let j = place_of(before, k);
                    assert(after[j].name@ == k);
                }
                if k == name@ {
                    match place {
                        Some(i) => {
                            assert(after[i as int].name@ == k);
                        },
                        None => {
                            assert(after[after.len() - 1].name@ == k);
                        },
                    }
                }
            }
            assert forall|k: Seq<char>| has_name(after, k) implies mapping_of(after)[k] == (
            if k == name@ {
                value@
            } else {
                mapping_of(before)[k]
            }) by {
                let j = place_of(after, k);
                lemma_entry_is_mapped(after, j);
                if k != name@ {
                    assert(before[j].name@ == k);
                    lemma_entry_is_mapped(before, j);
                }
            }
            assert(mapping_of(after) =~= mapping_of(before).insert(name@, value@));
        }
    }

    /// The entries, in the order in which their names were first set.
    pub fn entries(&self) -> (entries: &Vec<Entry>)
        ensures
            entries@ == self.listing(),
    {
        &self.entries
    }

    /// A mapping of its own with the same names and values.
    pub fn copy(&self) -> (copy: Self)
        requires
            self.wf(),
        ensures
            copy.wf(),
            copy@ == self@,
    {
        let mut copy = StringMap::new();
        copy.extend(self);
        assert(copy@ =~= self@);
        copy
    }

    /// Gives every name of `other` the value it has there, in the order of
    /// `other`'s entries.
    pub fn extend(&mut self, other: &StringMap)
        requires
            old(self).wf(),
            other.wf(),
        ensures
            final(self).wf(),
            final(self)@ == old(self)@.union_prefer_right(other@),
    {
        let ghost before = self@;
        let mut i: usize = 0;
        assert(self@ =~= before.union_prefer_right(mapping_of(other.entries@.take(0)))) by {
            assert(mapping_of(other.entries@.take(0)) =~= Map::<Seq<char>, Seq<char>>::empty());
        }
        while i < other.entries.len()
            invariant
                i <= other.entries@.len(),
                self.wf(),
                other.wf(),
                self@ == before.union_prefer_right(mapping_of(other.entries@.take(i as int))),
            decreases other.entries@.len() - i,
        {
            let entry = &other.entries[i];
            proof {
                lemma_mapping_grows(other.entries@, i as int);
            }
            self.insert(entry.name.clone(), entry.value.clone());
            assert(self@ =~= before.union_prefer_right(
                mapping_of(other.entries@.take(i + 1)),
            ));
            i += 1;
        }
        assert(other.entries@.take(i as int) =~= other.entries@);
    }
}

/// The mapping of the first `i + 1` entries is that of the first `i` with
/// entry `i` set, where no name occurs twice.
pub proof fn lemma_mapping_grows(entries: Seq<Entry>, i: int)
    requires
        names_distinct(entries),
        0 <= i < entries.len(),
    ensures
        names_distinct(entries.take(i)),
        names_distinct(entries.take(i + 1)),
        mapping_of(entries.take(i + 1)) == mapping_of(entries.take(i)).insert(
            entries[i].name@,
            entries[i].value@,
        ),
{
    let short = entries.take(i);
    let long = entries.take(i + 1);
    let name = entries[i].name@;
    assert(names_distinct(short)) by {
        assert forall|a: int, b: int| 0 <= a < b < short.len() implies (#[trigger] short[a]).name@
            != (#[trigger] short[b]).name@ by {
            assert(entries[a].name@ != entries[b].name@);
        }
    }
    assert(names_distinct(long)) by {
        assert forall|a: int, b: int| 0 <= a < b < long.len() implies (#[trigger] long[a]).name@
            != (#[trigger] long[b]).name@ by {
            assert(entries[a].name@ != entries[b].name@);
        }
    }
    assert forall|k: Seq<char>| has_name(long, k) <==> (k == name || has_name(short, k)) by {
        if has_name(long, k) {
            let j = place_of(long, k);
            if k != name {
                assert(short[j].name@ == k);
            }
        }
        if has_name(short, k) {
            let j = place_of(short, k);
            assert(long[j].name@ == k);
        }
        if k == name {
            assert(long[i].name@ == k);
        }
    }
    assert forall|k: Seq<char>| has_name(long, k) implies mapping_of(long)[k] == (if k == name {
        entries[i].value@
    } else {
        mapping_of(short)[k]
    }) by {
        let j = place_of(long, k);
        lemma_entry_is_mapped(long, j);
        if k != name {
            assert(short[j].name@ == k);
            lemma_entry_is_mapped(short, j);
        }
    }
    assert(mapping_of(long) =~= mapping_of(short).insert(name, entries[i].value@));
}

} // verus!
