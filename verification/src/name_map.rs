//! A map keyed by names.

use vstd::prelude::*;

verus! {

/// A map from names to values. No name occurs twice among the entries.
#[derive(Debug)]
pub struct NameMap<V> {
    entries: Vec<(String, V)>,
}

/// Whether the entry at `i` is the one with the name `k`.
spec fn entry_at<V>(entries: Seq<(String, V)>, i: int, k: Seq<char>) -> bool {
    0 <= i < entries.len() && entries[i].0@ == k
}

/// Whether no name occurs twice.
spec fn names_differ<V>(entries: Seq<(String, V)>) -> bool {
    forall|i: int, j: int|
        0 <= i < j < entries.len() ==> (#[trigger] entries[i]).0@ != (#[trigger] entries[j]).0@
}

spec fn map_of<V>(entries: Seq<(String, V)>) -> Map<Seq<char>, V> {
    Map::new(
        |k: Seq<char>| exists|i: int| entry_at(entries, i, k),
        |k: Seq<char>| entries[choose|i: int| entry_at(entries, i, k)].1,
    )
}

proof fn map_of_entry<V>(entries: Seq<(String, V)>, i: int)
    requires
        names_differ(entries),
        0 <= i < entries.len(),
    ensures
        map_of(entries).contains_key(entries[i].0@),
        map_of(entries)[entries[i].0@] == entries[i].1,
{
    let k = entries[i].0@;
    assert(entry_at(entries, i, k));
    let j = choose|j: int| entry_at(entries, j, k);
    assert(entry_at(entries, j, k));
    assert(i == j);
}

impl<V> NameMap<V> {
    #[verifier::type_invariant]
    spec fn well_formed(self) -> bool {
        names_differ(self.entries@)
    }

    /// The mathematical map.
    pub closed spec fn view(&self) -> Map<Seq<char>, V> {
        map_of(self.entries@)
    }

    /// The map without entries.
    pub fn new() -> (r: Self)
        ensures
            r@ == Map::<Seq<char>, V>::empty(),
    {
        let r = NameMap { entries: Vec::new() };
        assert(r@ =~= Map::<Seq<char>, V>::empty());
        r
    }

    fn position(&self, key: &str) -> (r: Option<usize>)
        ensures
            match r {
                Some(i) => entry_at(self.entries@, i as int, key@),
                None => forall|i: int| !entry_at(self.entries@, i, key@),
            },
    {
        let name = key.to_owned();
        let mut i: usize = 0;
        while i < self.entries.len()
            invariant
                name@ == key@,
                i <= self.entries@.len(),
                forall|j: int| 0 <= j < i ==> !entry_at(self.entries@, j, key@),
            decreases self.entries@.len() - i,
        {
            if self.entries[i].0 == name {
                return Some(i);
            }
            i = i + 1;
        }
        None
    }

    /// Whether there is an entry with this name.
    pub fn contains_key(&self, key: &str) -> (r: bool)
        ensures
            r == self@.contains_key(key@),
    {
        match self.position(key) {
            Some(i) => {
                assert(entry_at(self.entries@, i as int, key@));
                true
            },
            None => false,
        }
    }

    /// The value under this name, if there is one.
    pub fn get(&self, key: &str) -> (r: Option<&V>)
        ensures
            match r {
                Some(v) => self@.contains_key(key@) && *v == self@[key@],
                None => !self@.contains_key(key@),
            },
    {
        proof {
            use_type_invariant(self);
        }
        match self.position(key) {
            Some(i) => {
                proof {
                    map_of_entry(self.entries@, i as int);
                }
                Some(&self.entries[i].1)
            },
            None => None,
        }
    }

    /// Takes the entry with this name out of the map, if there is one.
    pub fn remove(&mut self, key: &str) -> (r: Option<V>)
        ensures
            match r {
                Some(v) => {
                    &&& old(self)@.contains_key(key@)
                    &&& v == old(self)@[key@]
                    &&& final(self)@ == old(self)@.remove(key@)
                },
                None => !old(self)@.contains_key(key@) && final(self)@ == old(self)@,
            },
    {
        proof {
            use_type_invariant(&*self);
        }
        match self.position(key) {
            Some(i) => {
                let mut entries: Vec<(String, V)> = Vec::new();
                assert(names_differ(entries@));
                std::mem::swap(&mut entries, &mut self.entries);
                let ghost before = entries@;
                let (name, value) = entries.swap_remove(i);
                proof {
                    map_of_entry(before, i as int);
                    let after = entries@;
                    let n = before.len() - 1;
                    assert forall|a: int, b: int| 0 <= a < b < after.len() implies (
                    #[trigger] after[a]).0@ != (#[trigger] after[b]).0@ by {
                        let a0 = if a == i {
                            n
                        } else {
                            a
                        };
                        let b0 = if b == i {
                            n
                        } else {
                            b
                        };
                        assert(after[a] == before[a0] && after[b] == before[b0]);
                    }
                    assert(map_of(after) =~= map_of(before).remove(key@)) by {
                        let goal = map_of(before).remove(key@);
                        assert forall|k: Seq<char>| #[trigger]
                            map_of(after).dom().contains(k) implies goal.dom().contains(k)
                            && map_of(after)[k] == goal[k] by {
                            let a = choose|a: int| entry_at(after, a, k);
                            assert(entry_at(after, a, k));
                            map_of_entry(after, a);
                            let a0 = if a == i {
                                n
                            } else {
                                a
                            };
                            assert(after[a] == before[a0]);
                            map_of_entry(before, a0);
                            assert(a0 != i);
                            assert(before[i as int].0@ == key@);
                            assert(before[a0].0@ != before[i as int].0@);
                        }
                        assert forall|k: Seq<char>| #[trigger] goal.dom().contains(k) implies map_of(
                            after,
                        ).dom().contains(k) by {
                            let a0 = choose|a: int| entry_at(before, a, k);
                            assert(entry_at(before, a0, k));
                            assert(a0 != i);
                            let a = if a0 == n {
                                i as int
                            } else {
                                a0
                            };
                            assert(after[a] == before[a0]);
                            assert(entry_at(after, a, k));
                        }
                    }
                }
                self.entries = entries;
                Some(value)
            },
            None => None,
        }
    }

    /// Puts `value` under the name `key`, in place of what stood there before.
    pub fn insert(&mut self, key: String, value: V)
        ensures
            final(self)@ == old(self)@.insert(key@, value),
    {
        let ghost before_all = self@;
        let _ = self.remove(key.as_str());
        proof {
            use_type_invariant(&*self);
        }
        let ghost before = self.entries@;
        assert(!map_of(before).contains_key(key@));
        let mut entries: Vec<(String, V)> = Vec::new();
        assert(names_differ(entries@));
        std::mem::swap(&mut entries, &mut self.entries);
        entries.push((key, value));
        proof {
            let after = entries@;
            let n = before.len() as int;
            assert forall|a: int, b: int| 0 <= a < b < after.len() implies (#[trigger] after[a]).0@
                != (#[trigger] after[b]).0@ by {
                if b == n {
                    assert(!entry_at(before, a, key@));
                } else {
                    assert(before[a].0@ != before[b].0@);
                }
            }
            assert(map_of(after) =~= map_of(before).insert(key@, value)) by {
                map_of_entry(after, n);
                let goal = map_of(before).insert(key@, value);
                assert forall|k: Seq<char>| #[trigger] map_of(after).dom().contains(k) implies goal.dom().contains(
                    k,
                ) && map_of(after)[k] == goal[k] by {
                    let a = choose|a: int| entry_at(after, a, k);
                    assert(entry_at(after, a, k));
                    map_of_entry(after, a);
                    if a < n {
                        assert(entry_at(before, a, k));
                        map_of_entry(before, a);
                    }
                }
                assert forall|k: Seq<char>| #[trigger] goal.dom().contains(k) implies map_of(
                    after,
                ).dom().contains(k) by {
                    if k != key@ {
                        let a = choose|a: int| entry_at(before, a, k);
                        assert(entry_at(before, a, k));
                        assert(entry_at(after, a, k));
                    }
                }
            }
            assert(before_all.remove(key@).insert(key@, value) =~= before_all.insert(key@, value));
        }
        self.entries = entries;
    }
}

} // verus!
