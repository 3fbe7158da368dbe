//! A map from names to values.

use rustc_hash::FxHashMap;
use vstd::prelude::*;

use crate::fx::{self, index_get, index_insert, index_new};
use crate::text;

verus! {

struct Table<V> {
    names: Vec<String>,
    slots: Vec<Option<V>>,
    index: FxHashMap<String, usize>,
}

impl<V> Table<V> {
    spec fn wf(self) -> bool {
        &&& self.slots@.len() == self.names@.len()
        &&& forall|i: int|
            0 <= i < self.names@.len() ==> fx::indexed(self.index).contains_key(
                (#[trigger] self.names@[i])@,
            ) && fx::indexed(self.index)[self.names@[i]@] == i
        &&& forall|name: Seq<char>| #[trigger]
            fx::indexed(self.index).contains_key(name) ==> {
                let at = fx::indexed(self.index)[name] as int;
                0 <= at < self.names@.len() && self.names@[at]@ == name
            }
    }

    spec fn holds(self, name: Seq<char>) -> bool {
        fx::indexed(self.index).contains_key(name)
            && self.slots@[fx::indexed(self.index)[name] as int] is Some
    }

    spec fn entries(self) -> Map<Seq<char>, V> {
        Map::new(
            |name: Seq<char>| self.holds(name),
            |name: Seq<char>| self.slots@[fx::indexed(self.index)[name] as int]->0,
        )
    }

    fn new() -> (r: Self)
        ensures
            r.wf(),
            r.entries() == Map::<Seq<char>, V>::empty(),
    {
        let r = Table { names: Vec::new(), slots: Vec::new(), index: index_new() };
        proof {
            assert(r.entries() =~= Map::<Seq<char>, V>::empty());
        }
        r
    }

    fn put(&mut self, name: &str, slot: Option<V>) -> (r: Option<V>)
        requires
            old(self).wf(),
        ensures
            final(self).wf(),
            slot matches Some(value) ==> final(self).entries() == old(self).entries().insert(
                name@,
                value,
            ),
            slot is None ==> final(self).entries() == old(self).entries().remove(name@),
            r == (if old(self).entries().contains_key(name@) {
                Some(old(self).entries()[name@])
            } else {
                None::<V>
            }),
    {
        let ghost before = *self;
        match index_get(&self.index, name) {
            Some(at) => {
                let mut taken: Option<V> = slot;
                let ghost given = slot;
                std::mem::swap(&mut taken, &mut self.slots[at]);
                proof {
                    assert(self.slots@ == before.slots@.update(at as int, given));
                    assert(self.names@ == before.names@ && self.index == before.index);
                    assert forall|n: Seq<char>| n != name@ implies self.holds(n) == before.holds(n)
                        by {
                        if fx::indexed(before.index).contains_key(n) {
                            assert(fx::indexed(before.index)[n] != at) by {
                                assert(before.names@[at as int]@ == name@);
                            }
                        }
                    }
                    match given {
                        Some(value) => {
                            assert(self.entries() =~= before.entries().insert(name@, value));
                        },
                        None => {
                            assert(self.entries() =~= before.entries().remove(name@));
                        },
                    }
                }
                taken
            },
            None => {
                let at: usize = self.names.len();
                let ghost given = slot;
                self.names.push(name.to_owned());
                self.slots.push(slot);
                index_insert(&mut self.index, name.to_owned(), at);
                proof {
                    assert forall|i: int| 0 <= i < self.names@.len() implies fx::indexed(
                        self.index,
                    ).contains_key((#[trigger] self.names@[i])@) && fx::indexed(
                        self.index,
                    )[self.names@[i]@] == i by {
                        if i < before.names@.len() {
                            assert(self.names@[i] == before.names@[i]);
                            assert(fx::indexed(before.index).contains_key(before.names@[i]@));
                        }
                    }
                    assert forall|n: Seq<char>| n != name@ implies self.holds(n) == before.holds(n)
                        by {
                        if fx::indexed(before.index).contains_key(n) {
                            assert(fx::indexed(self.index).contains_key(n));
                        }
                    }
                    match given {
                        Some(value) => {
                            assert(self.entries() =~= before.entries().insert(name@, value));
                        },
                        None => {
                            assert(self.entries() =~= before.entries().remove(name@));
                        },
                    }
                }
                None
            },
        }
    }
}

/// A map from names to values.
pub struct NameMap<V> {
    table: Table<V>,
}

impl<V> View for NameMap<V> {
    type V = Map<Seq<char>, V>;

    closed spec fn view(&self) -> Map<Seq<char>, V> {
        self.table.entries()
    }
}

impl<V> NameMap<V> {
    #[verifier::type_invariant]
    spec fn consistent(self) -> bool {
        self.table.wf()
    }

    /// A map without entries.
    pub fn new() -> (r: Self)
        ensures
            r@ == Map::<Seq<char>, V>::empty(),
    {
        NameMap { table: Table::new() }
    }

    /// The value under `name`, if there is one.
    pub fn get(&self, name: &str) -> (r: Option<&V>)
        ensures
            r == (if self@.contains_key(name@) {
                Some(&self@[name@])
            } else {
                None::<&V>
            }),
    {
        proof {
            use_type_invariant(self);
        }
        match index_get(&self.table.index, name) {
            Some(at) => match &self.table.slots[at] {
                Some(value) => Some(value),
                None => None,
            },
            None => None,
        }
    }

    /// Sets the value under `name`, replacing an earlier one.
    pub fn insert(&mut self, name: &str, value: V)
        ensures
            final(self)@ == old(self)@.insert(name@, value),
    {
        proof {
            use_type_invariant(&*self);
        }
        let mut table: Table<V> = Table::new();
        std::mem::swap(&mut table, &mut self.table);
        let _ = table.put(name, Some(value));
        self.table = table;
    }

    /// Takes the entry under `name` out and gives its value.
    pub fn remove(&mut self, name: &str) -> (r: Option<V>)
        ensures
            final(self)@ == old(self)@.remove(name@),
            r == (if old(self)@.contains_key(name@) {
                Some(old(self)@[name@])
            } else {
                None::<V>
            }),
    {
        proof {
            use_type_invariant(&*self);
        }
        let mut table: Table<V> = Table::new();
        std::mem::swap(&mut table, &mut self.table);
        let taken: Option<V> = table.put(name, None);
        self.table = table;
        taken
    }

    /// Every name that has a value, once.
    pub fn names(&self) -> (r: Vec<String>)
        ensures
            text::views(r@).no_duplicates(),
            forall|name: Seq<char>|
                #![trigger self@.contains_key(name)]
                text::views(r@).contains(name) <==> self@.contains_key(name),
    {
        proof {
            use_type_invariant(self);
        }
        let ghost table = self.table;
        let mut out: Vec<String> = Vec::new();
        let ghost mut from: Seq<int> = Seq::empty();
        let mut i: usize = 0;
        while i < self.table.names.len()
            invariant
                table == self.table,
                table.wf(),
                i <= table.names@.len(),
                from.len() == out@.len(),
                forall|k: int|
                    0 <= k < from.len() ==> 0 <= #[trigger] from[k] < i && out@[k]
                        == table.names@[from[k]] && table.slots@[from[k]] is Some,
                forall|k: int, l: int| 0 <= k < l < from.len() ==> from[k] < from[l],
                forall|j: int| 0 <= j < i && table.slots@[j] is Some ==> from.contains(j),
            decreases self.table.names.len() - i,
        {
            let ghost earlier = from;
            match &self.table.slots[i] {
                Some(_) => {
                    out.push(self.table.names[i].clone());
                    proof {
                        from = from.push(i as int);
                        assert(from[from.len() - 1] == i);
                        assert forall|j: int| 0 <= j < i + 1 && table.slots@[j] is Some implies
                            from.contains(j) by {
                            if j == i {
                                assert(from[from.len() - 1] == j);
                            } else {
                                assert(earlier.contains(j));
                                let k = choose|k: int| 0 <= k < earlier.len() && earlier[k] == j;
                                assert(from[k] == j);
                            }
                        }
                    }
                },
                None => {},
            }
            i += 1;
        }
        proof {
            let v = text::views(out@);
            assert forall|k: int, l: int| 0 <= k < v.len() && 0 <= l < v.len() && k != l implies v[k]
                != v[l] by {
                assert(from[k] != from[l]) by {
                    if k < l {
                        assert(from[k] < from[l]);
                    } else {
                        assert(from[l] < from[k]);
                    }
                }
                assert(v[k] == table.names@[from[k]]@);
                assert(v[l] == table.names@[from[l]]@);
                assert(fx::indexed(table.index)[v[k]] == from[k]);
                assert(fx::indexed(table.index)[v[l]] == from[l]);
            }
            assert forall|name: Seq<char>|
                #![trigger self@.contains_key(name)]
                v.contains(name) <==> self@.contains_key(name) by {
                if v.contains(name) {
                    let k = choose|k: int| 0 <= k < v.len() && v[k] == name;
                    assert(out@[k] == table.names@[from[k]]);
                    assert(fx::indexed(table.index)[table.names@[from[k]]@] == from[k]);
                }
                if self@.contains_key(name) {
                    let at = fx::indexed(table.index)[name] as int;
                    assert(from.contains(at));
                    let k = choose|k: int| 0 <= k < from.len() && from[k] == at;
                    assert(v[k] == name);
                }
            }
        }
        out
    }

    /// Whether there are no entries.
    pub fn is_empty(&self) -> (r: bool)
        ensures
            r <==> self@ == Map::<Seq<char>, V>::empty(),
    {
        let names: Vec<String> = self.names();
        proof {
            if names@.len() == 0 {
                assert forall|name: Seq<char>| !self@.contains_key(name) by {
                    assert(text::views(names@).contains(name) <==> self@.contains_key(name));
                }
                assert(self@ =~= Map::<Seq<char>, V>::empty());
            } else {
                let name = text::views(names@)[0];
                assert(text::views(names@).contains(name));
                assert(self@.contains_key(name));
            }
        }
        names.len() == 0
    }
}

} // verus!
