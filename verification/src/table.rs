//! A small map from names to values.
//!
//! Kept as a list without repeated names, which for the handful of sessions and
//! tasks there ever are is as quick as anything.

use vstd::prelude::*;
use vstd::string::*;

use crate::strings;

verus! {

pub struct Table<V> {
    entries: Vec<(String, V)>,
}

/// The place of a name in a list of entries.
spec fn place<V>(entries: Seq<(String, V)>, key: Seq<char>, i: int) -> bool {
    0 <= i < entries.len() && entries[i].0@ == key
}

spec fn named<V>(entries: Seq<(String, V)>, key: Seq<char>) -> bool {
    exists|i: int| place(entries, key, i)
}

spec fn contents<V>(entries: Seq<(String, V)>) -> Map<Seq<char>, V> {
    Map::new(
        |key: Seq<char>| named(entries, key),
        |key: Seq<char>| entries[choose|i: int| place(entries, key, i)].1,
    )
}

spec fn unrepeated<V>(entries: Seq<(String, V)>) -> bool {
    forall|i: int, j: int|
        0 <= i < j < entries.len() ==> (#[trigger] entries[i]).0@ != (#[trigger] entries[j]).0@
}

proof fn lemma_at<V>(entries: Seq<(String, V)>, i: int)
    requires
        unrepeated(entries),
        0 <= i < entries.len(),
    ensures
        contents(entries).dom().contains(entries[i].0@),
        contents(entries)[entries[i].0@] == entries[i].1,
{
    let key = entries[i].0@;
    assert(place(entries, key, i));
    let j = choose|j: int| place(entries, key, j);
    assert(place(entries, key, j));
    if i < j {
        assert(entries[i].0@ != entries[j].0@);
    } else if j < i {
        assert(entries[j].0@ != entries[i].0@);
    }
}

proof fn lemma_absent<V>(entries: Seq<(String, V)>, key: Seq<char>)
    requires
        forall|i: int| 0 <= i < entries.len() ==> (#[trigger] entries[i]).0@ != key,
    ensures
        !contents(entries).dom().contains(key),
{
}

impl<V> View for Table<V> {
    type V = Map<Seq<char>, V>;

    closed spec fn view(&self) -> Map<Seq<char>, V> {
        contents(self.entries@)
    }
}

pub open spec fn opt_ref<V>(r: Option<&V>) -> Option<V> {
    match r {
        Some(v) => Some(*v),
        None => None,
    }
}

/// What a map holds under a name.
pub open spec fn at<V>(m: Map<Seq<char>, V>, key: Seq<char>) -> Option<V> {
    if m.dom().contains(key) {
        Some(m[key])
    } else {
        None
    }
}

impl<V> Table<V> {
    #[verifier::type_invariant]
    spec fn inv(self) -> bool {
        unrepeated(self.entries@)
    }

    pub fn new() -> (r: Table<V>)
        ensures
            r@ == Map::<Seq<char>, V>::empty(),
    {
        let r = Table { entries: Vec::new() };
        assert(r@ =~= Map::<Seq<char>, V>::empty());
        r
    }

    fn find(&self, key: &str) -> (r: Option<usize>)
        ensures
            r matches Some(i) ==> place(self.entries@, key@, i as int),
            r is None ==> forall|i: int|
                0 <= i < self.entries@.len() ==> (#[trigger] self.entries@[i]).0@ != key@,
    {
        let mut i: usize = 0;
        while i < self.entries.len()
            invariant
                i <= self.entries@.len(),
                forall|j: int| 0 <= j < i ==> (#[trigger] self.entries@[j]).0@ != key@,
            decreases self.entries@.len() - i,
        {
            if strings::same(self.entries[i].0.as_str(), key) {
                return Some(i);
            }
            i = i + 1;
        }
        None
    }

    pub fn get(&self, key: &str) -> (r: Option<&V>)
        ensures
            opt_ref(r) == at(self@, key@),
    {
        proof {
            use_type_invariant(self);
        }
        match self.find(key) {
            Some(i) => {
                proof {
                    lemma_at(self.entries@, i as int);
                }
                Some(&self.entries[i].1)
            },
            None => {
                proof {
                    lemma_absent(self.entries@, key@);
                }
                None
            },
        }
    }

    pub fn contains(&self, key: &str) -> (r: bool)
        ensures
            r == self@.dom().contains(key@),
    {
        self.get(key).is_some()
    }

    pub fn remove(&mut self, key: &str) -> (r: Option<V>)
        ensures
            final(self)@ == old(self)@.remove(key@),
            r == at(old(self)@, key@),
    {
        proof {
            use_type_invariant(&*self);
        }
        let ghost before = self.entries@;
        match self.find(key) {
            Some(i) => {
                let mut entries: Vec<(String, V)> = Vec::new();
                core::mem::swap(&mut entries, &mut self.entries);
                let (_, value) = entries.remove(i);
                let ghost after = entries@;
                proof {
                    lemma_at(before, i as int);
                    lemma_removed(before, after, i as int);
                }
                self.entries = entries;
                assert(self@ =~= old(self)@.remove(key@));
                Some(value)
            },
            None => {
                proof {
                    lemma_absent(before, key@);
                }
                assert(self@ =~= old(self)@.remove(key@));
                None
            },
        }
    }

    pub fn insert(&mut self, key: &str, value: V)
        ensures
            final(self)@ == old(self)@.insert(key@, value),
    {
        let _ = self.remove(key);
        proof {
            use_type_invariant(&*self);
        }
        let ghost before = self.entries@;
        let ghost held = self@;
        let mut entries: Vec<(String, V)> = Vec::new();
        core::mem::swap(&mut entries, &mut self.entries);
        entries.push((key.to_owned(), value));
        let ghost after = entries@;
        proof {
            assert(!contents(before).dom().contains(key@));
            assert forall|i: int| 0 <= i < before.len() implies (#[trigger] before[i]).0@
                != key@ by {
                assert(place(before, before[i].0@, i));
            }
            assert(unrepeated(after));
            assert forall|k: Seq<char>| contents(after).dom().contains(k) == contents(
                before,
            ).insert(key@, value).dom().contains(k) by {
                if named(after, k) {
                    let i = choose|i: int| place(after, k, i);
                    if i < before.len() {
                        assert(place(before, k, i));
                    }
                }
                if named(before, k) {
                    let i = choose|i: int| place(before, k, i);
                    assert(place(after, k, i));
                }
                assert(place(after, key@, before.len() as int));
            }
            assert forall|k: Seq<char>| contents(after).dom().contains(k) implies contents(
                after,
            )[k] == contents(before).insert(key@, value)[k] by {
                let i = choose|i: int| place(after, k, i);
                lemma_at(after, i);
                if i < before.len() {
                    assert(place(before, k, i));
                    lemma_at(before, i);
                }
            }
            assert(contents(after) =~= contents(before).insert(key@, value));
        }
        self.entries = entries;
        assert(self@ =~= old(self)@.insert(key@, value));
    }

    /// The names, each once.
    pub fn keys(&self) -> (r: Vec<String>)
        ensures
            strings::views(r@).no_duplicates(),
            forall|k: Seq<char>| strings::views(r@).contains(k) <==> self@.dom().contains(k),
    {
        proof {
            use_type_invariant(self);
        }
        let mut out: Vec<String> = Vec::new();
        let mut i: usize = 0;
        while i < self.entries.len()
            invariant
                i <= self.entries@.len(),
                out@.len() == i,
                forall|j: int| 0 <= j < i ==> (#[trigger] out@[j])@ == self.entries@[j].0@,
            decreases self.entries@.len() - i,
        {
            out.push(self.entries[i].0.clone());
            i = i + 1;
        }
        proof {
            let names = strings::views(out@);
            assert forall|a: int, b: int|
                0 <= a < names.len() && 0 <= b < names.len() && a != b implies names[a]
                != names[b] by {
                assert(names[a] == self.entries@[a].0@);
                assert(names[b] == self.entries@[b].0@);
            }
            assert forall|k: Seq<char>| names.contains(k) implies self@.dom().contains(k) by {
                let j = choose|j: int| 0 <= j < names.len() && names[j] == k;
                assert(place(self.entries@, k, j));
            }
            assert forall|k: Seq<char>| self@.dom().contains(k) implies names.contains(k) by {
                let j = choose|j: int| place(self.entries@, k, j);
                assert(names[j] == k);
            }
        }
        out
    }

    /// Keeps only the entries whose names are in `list`.
    pub fn retain_keys(&mut self, list: &Vec<String>)
        ensures
            final(self)@ == old(self)@.restrict(
                Set::new(|k: Seq<char>| strings::views(list@).contains(k)),
            ),
    {
        let names = self.keys();
        let ghost all = strings::views(names@);
        let ghost before = self@;
        let ghost listed = strings::views(list@);
        let mut i: usize = 0;
        while i < names.len()
            invariant
                i <= names@.len(),
                all == strings::views(names@),
                listed == strings::views(list@),
                all.no_duplicates(),
                forall|k: Seq<char>|
                    #[trigger] self@.dom().contains(k) <==> before.dom().contains(k) && (
                    listed.contains(k) || !all.take(i as int).contains(k)),
                forall|k: Seq<char>| #[trigger] self@.dom().contains(k) ==> self@[k] == before[k],
            decreases names@.len() - i,
        {
            let ghost held = self@;
            let ghost name = names@[i as int]@;
            if !strings::holds(list, names[i].as_str()) {
                let _ = self.remove(names[i].as_str());
            }
            proof {
                assert(all[i as int] == name);
                assert forall|k: Seq<char>|
                    #[trigger] self@.dom().contains(k) <==> before.dom().contains(k) && (
                    listed.contains(k) || !all.take(i + 1).contains(k)) by {
                    assert(held.dom().contains(k) <==> before.dom().contains(k) && (
                    listed.contains(k) || !all.take(i as int).contains(k)));
                    let longer = all.take(i + 1);
                    assert(longer =~= all.take(i as int).push(name));
                    if all.take(i as int).contains(k) {
                        let j = choose|j: int| 0 <= j < i && all.take(i as int)[j] == k;
                        assert(longer[j] == k);
                    }
                    if longer.contains(k) && k != name {
                        let j = choose|j: int| 0 <= j < longer.len() && longer[j] == k;
                        assert(all.take(i as int)[j] == k);
                    }
                    assert(longer[i as int] == name);
                }
            }
            i = i + 1;
        }
        assert(all.take(i as int) =~= all);
        assert forall|k: Seq<char>| before.dom().contains(k) implies all.contains(k) by {
            assert(strings::views(names@).contains(k) <==> before.dom().contains(k));
        }
        assert(self@ =~= before.restrict(
            Set::new(|k: Seq<char>| strings::views(list@).contains(k)),
        ));
    }
}

proof fn lemma_removed<V>(before: Seq<(String, V)>, after: Seq<(String, V)>, i: int)
    requires
        unrepeated(before),
        0 <= i < before.len(),
        after == before.remove(i),
    ensures
        unrepeated(after),
        contents(after) == contents(before).remove(before[i].0@),
{
    let key = before[i].0@;
    assert forall|a: int, b: int| 0 <= a < b < after.len() implies (#[trigger] after[a]).0@ != (
    #[trigger] after[b]).0@ by {
        let x = if a < i {
            a
        } else {
            a + 1
        };
        let y = if b < i {
            b
        } else {
            b + 1
        };
        assert(after[a] == before[x]);
        assert(after[b] == before[y]);
    }
    assert forall|k: Seq<char>| contents(after).dom().contains(k) == contents(before).remove(
        key,
    ).dom().contains(k) by {
        if named(after, k) {
            let a = choose|a: int| place(after, k, a);
            let x = if a < i {
                a
            } else {
                a + 1
            };
            assert(after[a] == before[x]);
            assert(place(before, k, x));
            if x < i {
                assert(before[x].0@ != before[i].0@);
            } else {
                assert(before[i].0@ != before[x].0@);
            }
        }
        if named(before, k) && k != key {
            let x = choose|x: int| place(before, k, x);
            let a = if x < i {
                x
            } else {
                x - 1
            };
            assert(after[a] == before[x]);
            assert(place(after, k, a));
        }
    }
    assert forall|k: Seq<char>| contents(after).dom().contains(k) implies contents(after)[k]
        == contents(before).remove(key)[k] by {
        let a = choose|a: int| place(after, k, a);
        let x = if a < i {
            a
        } else {
            a + 1
        };
        assert(after[a] == before[x]);
        lemma_at(after, a);
        lemma_at(before, x);
    }
    assert(contents(after) =~= contents(before).remove(key));
}

} // verus!
