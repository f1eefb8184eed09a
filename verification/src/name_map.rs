//! A table keyed by names.
use crate::text::same_text;
use vstd::prelude::*;

verus! {

/// A map from names to values; each name occurs once.
pub struct NameMap<V> {
    entries: Vec<(String, V)>,
}

/// No two entries have the same name.
pub open spec fn distinct_names<V>(entries: Seq<(String, V)>) -> bool {
    forall|i: int, j: int|
        0 <= i < entries.len() && 0 <= j < entries.len() && (#[trigger] entries[i]).0@ == (
        #[trigger] entries[j]).0@ ==> i == j
}

/// Where a name stands in a list of entries.
pub open spec fn position<V>(entries: Seq<(String, V)>, name: Seq<char>) -> int {
    choose|i: int| 0 <= i < entries.len() && (#[trigger] entries[i]).0@ == name
}

pub open spec fn has_name<V>(entries: Seq<(String, V)>, name: Seq<char>) -> bool {
    exists|i: int| 0 <= i < entries.len() && (#[trigger] entries[i]).0@ == name
}

/// The map that a list of entries stands for.
pub open spec fn entries_map<V>(entries: Seq<(String, V)>) -> Map<Seq<char>, V> {
    Map::new(
        |name: Seq<char>| has_name(entries, name),
        |name: Seq<char>| entries[position(entries, name)].1,
    )
}

impl<V> View for NameMap<V> {
    type V = Map<Seq<char>, V>;

    closed spec fn view(&self) -> Map<Seq<char>, V> {
        entries_map(self.entries@)
    }
}

impl<V> NameMap<V> {
    #[verifier::type_invariant]
    closed spec fn inv(self) -> bool {
        distinct_names(self.entries@)
    }

    pub fn new() -> (map: Self)
        ensures
            map@ == Map::<Seq<char>, V>::empty(),
    {
        let map = NameMap { entries: Vec::new() };
        assert(map@ =~= Map::<Seq<char>, V>::empty());
        map
    }

    fn find(&self, name: &str) -> (at: Option<usize>)
        ensures
            match at {
                Some(i) => i < self.entries@.len() && self.entries@[i as int].0@ == name@
                    && position(self.entries@, name@) == i && self@.contains_key(name@)
                    && self@[name@] == self.entries@[i as int].1,
                None => !self@.contains_key(name@) && !has_name(self.entries@, name@),
            },
    {
        proof {
            use_type_invariant(self);
        }
        let mut i: usize = 0;
        while i < self.entries.len()
            invariant
                distinct_names(self.entries@),
                i <= self.entries@.len(),
                forall|j: int| 0 <= j < i ==> (#[trigger] self.entries@[j]).0@ != name@,
            decreases self.entries@.len() - i,
        {
            if same_text(self.entries[i].0.as_str(), name) {
                return Some(i);
            }
            i = i + 1;
        }
        None
    }

    pub fn get(&self, name: &str) -> (value: Option<&V>)
        ensures
            match value {
                Some(v) => self@.contains_key(name@) && *v == self@[name@],
                None => !self@.contains_key(name@),
            },
    {
        match self.find(name) {
            Some(i) => Some(&self.entries[i].1),
            None => None,
        }
    }

    pub fn insert(&mut self, name: String, value: V)
        ensures
            final(self)@ == old(self)@.insert(name@, value),
    {
        proof {
            use_type_invariant(&*self);
        }
        let ghost before = self.entries@;
        let found = self.find(name.as_str());
        let mut entries: Vec<(String, V)> = Vec::new();
        std::mem::swap(&mut entries, &mut self.entries);
        match found {
            Some(i) => {
                entries.set(i, (name, value));
            },
            None => {
                entries.push((name, value));
            },
        }
        proof {
            assert(distinct_names(entries@));
            assert forall|n: Seq<char>| #[trigger] has_name(entries@, n) <==> has_name(before, n)
                || n == name@ by {
                if has_name(before, n) {
                    let j = position(before, n);
                    assert(entries@[j].0@ == n);
                }
                if n == name@ {
                    let j: int = if found is Some {
                        found->0 as int
                    } else {
                        before.len() as int
                    };
                    assert(entries@[j].0@ == n);
                }
                if has_name(entries@, n) && n != name@ {
                    let j = position(entries@, n);
                    assert(before[j].0@ == n);
                }
            }
            assert forall|n: Seq<char>| has_name(entries@, n) && n != name@ implies entries@[position(
                entries@,
                n,
            )].1 == before[position(before, n)].1 by {
                assert(has_name(before, n));
                let j = position(before, n);
                assert(entries@[j].0@ == n);
            }
            let k: int = if found is Some {
                found->0 as int
            } else {
                before.len() as int
            };
            assert(entries@[k].0@ == name@);
            assert(entries_map(entries@) =~= entries_map(before).insert(name@, value));
        }
        self.entries = entries;
    }

    /// The names in the table, each once.
    pub fn names(&self) -> (names: Vec<String>)
        ensures
            forall|i: int, j: int|
                0 <= i < names@.len() && 0 <= j < names@.len() && (#[trigger] names@[i])@ == (
                #[trigger] names@[j])@ ==> i == j,
            forall|name: Seq<char>|
                self@.contains_key(name) <==> exists|i: int|
                    0 <= i < names@.len() && (#[trigger] names@[i])@ == name,
    {
        proof {
            use_type_invariant(self);
        }
        let mut names: Vec<String> = Vec::new();
        let mut i: usize = 0;
        while i < self.entries.len()
            invariant
                i <= self.entries@.len(),
                names@.len() == i,
                forall|j: int| 0 <= j < i ==> (#[trigger] names@[j])@ == self.entries@[j].0@,
            decreases self.entries@.len() - i,
        {
            names.push(self.entries[i].0.clone());
            i = i + 1;
        }
        proof {
            assert forall|a: int, b: int|
                0 <= a < names@.len() && 0 <= b < names@.len() && (#[trigger] names@[a])@ == (
                #[trigger] names@[b])@ implies a == b by {
                assert(self.entries@[a].0@ == self.entries@[b].0@);
            }
            assert forall|name: Seq<char>|
                self@.contains_key(name) <==> exists|i: int|
                    0 <= i < names@.len() && (#[trigger] names@[i])@ == name by {
                if has_name(self.entries@, name) {
                    let j = position(self.entries@, name);
                    assert(names@[j]@ == name);
                }
                if exists|i: int| 0 <= i < names@.len() && (#[trigger] names@[i])@ == name {
                    let j = choose|i: int| 0 <= i < names@.len() && (#[trigger] names@[i])@ == name;
                    assert(self.entries@[j].0@ == name);
                }
            }
        }
        names
    }
}

} // verus!
