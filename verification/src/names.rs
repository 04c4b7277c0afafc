//! A set of names, kept in order.

use vstd::prelude::*;
use vstd::string::*;

use crate::strings;

verus! {

pub struct NameSet {
    items: Vec<String>,
}

/// Whether a list is in strict order, so that nothing is in it twice.
pub open spec fn ordered(names: Seq<Seq<char>>) -> bool {
    forall|i: int, j: int|
        0 <= i < j < names.len() ==> strings::precedes(#[trigger] names[i], #[trigger] names[j])
}

pub proof fn lemma_ordered_distinct(names: Seq<Seq<char>>)
    requires
        ordered(names),
    ensures
        names.no_duplicates(),
{
    assert forall|i: int, j: int|
        0 <= i < names.len() && 0 <= j < names.len() && i != j implies names[i] != names[j] by {
        if i < j {
            strings::lemma_order(names[i], names[j]);
        } else {
            strings::lemma_order(names[j], names[i]);
        }
    }
}

impl View for NameSet {
    type V = Set<Seq<char>>;

    closed spec fn view(&self) -> Set<Seq<char>> {
        strings::views(self.items@).to_set()
    }
}

impl NameSet {
    #[verifier::type_invariant]
    spec fn inv(self) -> bool {
        ordered(strings::views(self.items@))
    }

    pub fn new() -> (r: NameSet)
        ensures
            r@ == Set::<Seq<char>>::empty(),
    {
        let r = NameSet { items: Vec::new() };
        assert(r@ =~= Set::<Seq<char>>::empty());
        r
    }

    /// How many names come before `name`, and whether `name` itself is next.
    fn seek(&self, name: &str) -> (r: (usize, bool))
        ensures
            r.0 <= self.items@.len(),
            forall|i: int|
                0 <= i < r.0 ==> strings::precedes(
                    #[trigger] strings::views(self.items@)[i],
                    name@,
                ),
            r.1 ==> r.0 < self.items@.len() && self.items@[r.0 as int]@ == name@,
            !r.1 ==> forall|i: int|
                r.0 <= i < self.items@.len() ==> strings::precedes(
                    name@,
                    #[trigger] strings::views(self.items@)[i],
                ),
    {
        proof {
            use_type_invariant(self);
        }
        let ghost all = strings::views(self.items@);
        let mut i: usize = 0;
        while i < self.items.len() && strings::comes_before(self.items[i].as_str(), name)
            invariant
                i <= self.items@.len(),
                all == strings::views(self.items@),
                forall|j: int| 0 <= j < i ==> strings::precedes(#[trigger] all[j], name@),
            decreases self.items@.len() - i,
        {
            assert(all[i as int] == self.items@[i as int]@);
            i = i + 1;
        }
        if i < self.items.len() && strings::same(self.items[i].as_str(), name) {
            return (i, true);
        }
        proof {
            if i < all.len() {
                assert(all[i as int] == self.items@[i as int]@);
                strings::lemma_order(all[i as int], name@);
                assert forall|j: int| i <= j < all.len() implies strings::precedes(
                    name@,
                    #[trigger] all[j],
                ) by {
                    if j > i {
                        strings::lemma_order_chain(name@, all[i as int], all[j]);
                    }
                }
            }
        }
        (i, false)
    }

    pub fn contains(&self, name: &str) -> (r: bool)
        ensures
            r == self@.contains(name@),
    {
        let (at, found) = self.seek(name);
        let ghost all = strings::views(self.items@);
        if found {
            assert(all[at as int] == name@);
            assert(all.contains(name@));
        } else {
            assert forall|i: int| 0 <= i < all.len() implies all[i] != name@ by {
                strings::lemma_order(name@, all[i]);
            }
        }
        found
    }

    pub fn insert(&mut self, name: &str)
        ensures
            final(self)@ == old(self)@.insert(name@),
    {
        let (at, found) = self.seek(name);
        proof {
            use_type_invariant(&*self);
        }
        let ghost all = strings::views(self.items@);
        if found {
            proof {
                assert(all[at as int] == name@);
                assert(all.contains(name@));
            }
            assert(self@ =~= old(self)@.insert(name@));
            return ;
        }
        let mut items: Vec<String> = Vec::new();
        core::mem::swap(&mut items, &mut self.items);
        items.insert(at, name.to_owned());
        let ghost after = strings::views(items@);
        proof {
            assert(after =~= all.insert(at as int, name@));
            assert forall|i: int, j: int| 0 <= i < j < after.len() implies strings::precedes(
                #[trigger] after[i],
                #[trigger] after[j],
            ) by {
                let x = if i < at {
                    i
                } else {
                    i - 1
                };
                let y = if j < at {
                    j
                } else {
                    j - 1
                };
                if i != at && j != at {
                    assert(after[i] == all[x] && after[j] == all[y]);
                } else if i == at {
                    assert(after[j] == all[y]);
                } else {
                    assert(after[i] == all[x]);
                }
            }
            assert forall|k: Seq<char>| after.to_set().contains(k) <==> all.to_set().insert(
                name@,
            ).contains(k) by {
                if after.contains(k) {
                    let i = choose|i: int| 0 <= i < after.len() && after[i] == k;
                    if i < at {
                        assert(all[i] == k);
                    } else if i > at {
                        assert(all[i - 1] == k);
                    }
                }
                if all.contains(k) {
                    let i = choose|i: int| 0 <= i < all.len() && all[i] == k;
                    if i < at {
                        assert(after[i] == k);
                    } else {
                        assert(after[i + 1] == k);
                    }
                }
                assert(after[at as int] == name@);
            }
            assert(after.to_set() =~= all.to_set().insert(name@));
        }
        self.items = items;
    }

    pub fn remove(&mut self, name: &str)
        ensures
            final(self)@ == old(self)@.remove(name@),
    {
        let (at, found) = self.seek(name);
        proof {
            use_type_invariant(&*self);
        }
        let ghost all = strings::views(self.items@);
        if !found {
            proof {
                assert forall|i: int| 0 <= i < all.len() implies all[i] != name@ by {
                    strings::lemma_order(name@, all[i]);
                }
            }
            assert(self@ =~= old(self)@.remove(name@));
            return ;
        }
        let mut items: Vec<String> = Vec::new();
        core::mem::swap(&mut items, &mut self.items);
        let _ = items.remove(at);
        let ghost after = strings::views(items@);
        proof {
            assert(all[at as int] == name@);
            assert(after =~= all.remove(at as int));
            lemma_ordered_distinct(all);
            assert forall|i: int, j: int| 0 <= i < j < after.len() implies strings::precedes(
                #[trigger] after[i],
                #[trigger] after[j],
            ) by {
                let x = if i < at {
                    i
                } else {
                    i + 1
                };
                let y = if j < at {
                    j
                } else {
                    j + 1
                };
                assert(after[i] == all[x] && after[j] == all[y]);
            }
            assert forall|k: Seq<char>| after.to_set().contains(k) <==> all.to_set().remove(
                name@,
            ).contains(k) by {
                if after.contains(k) {
                    let i = choose|i: int| 0 <= i < after.len() && after[i] == k;
                    let x = if i < at {
                        i
                    } else {
                        i + 1
                    };
                    assert(all[x] == k);
                }
                if all.contains(k) && k != name@ {
                    let i = choose|i: int| 0 <= i < all.len() && all[i] == k;
                    let x = if i < at {
                        i
                    } else {
                        i - 1
                    };
                    assert(after[x] == k);
                }
            }
            assert(after.to_set() =~= all.to_set().remove(name@));
        }
        self.items = items;
    }

    pub fn len(&self) -> (r: usize)
        ensures
            self@.finite(),
            r == self@.len(),
    {
        proof {
            use_type_invariant(self);
            lemma_ordered_distinct(strings::views(self.items@));
            strings::views(self.items@).unique_seq_to_set();
        }
        self.items.len()
    }

    /// The names, in order.
    pub fn to_list(&self) -> (r: Vec<String>)
        ensures
            ordered(strings::views(r@)),
            strings::views(r@).to_set() == self@,
    {
        proof {
            use_type_invariant(self);
        }
        strings::copy_all(&self.items)
    }

    /// The names in a list.
    pub fn of(list: &Vec<String>) -> (r: NameSet)
        ensures
            r@ == strings::views(list@).to_set(),
    {
        let ghost all = strings::views(list@);
        let mut out = NameSet::new();
        let mut i: usize = 0;
        assert(all.take(0).to_set() =~= Set::<Seq<char>>::empty());
        while i < list.len()
            invariant
                i <= list@.len(),
                all == strings::views(list@),
                out@ == all.take(i as int).to_set(),
            decreases list@.len() - i,
        {
            out.insert(list[i].as_str());
            proof {
                let name = list@[i as int]@;
                let before = all.take(i as int);
                let after = all.take(i + 1);
                assert(after =~= before.push(name));
                assert forall|k: Seq<char>| after.to_set().contains(k) <==> before.to_set().insert(
                    name,
                ).contains(k) by {
                    if after.contains(k) {
                        let j = choose|j: int| 0 <= j < after.len() && after[j] == k;
                        if j < before.len() {
                            assert(before[j] == k);
                        }
                    }
                    if before.contains(k) {
                        let j = choose|j: int| 0 <= j < before.len() && before[j] == k;
                        assert(after[j] == k);
                    }
                    assert(after[before.len() as int] == name);
                }
                assert(after.to_set() =~= before.to_set().insert(name));
            }
            i = i + 1;
        }
        assert(all.take(i as int) =~= all);
        out
    }
}

} // verus!
