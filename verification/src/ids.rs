//! Typed identifiers and the test-name interner for the scheduler's hot tables.
//!
//! The hot selection loop keys on cheap integer columns, never on protocol
//! strings. These newtypes make "a target index" and "an action index" distinct
//! types, so retries and batching cannot silently swap one for the other.

use rustc_hash::FxHashMap;
use vstd::prelude::*;

use crate::fx::{self, index_get, index_insert, index_new};
use crate::text;

verus! {

/// Dense index into the cold per-target store.
#[derive(Debug, Clone, Copy, PartialEq, Eq, Hash, PartialOrd, Ord, Structural)]
pub struct TargetId(pub u32);

/// Interned test-name index.
#[derive(Debug, Clone, Copy, PartialEq, Eq, Hash, PartialOrd, Ord, Structural)]
pub struct TestNameId(pub u32);

/// Dense index into the flattened action table.
#[derive(Debug, Clone, Copy, PartialEq, Eq, Hash, PartialOrd, Ord, Structural)]
pub struct ActionId(pub u32);

/// The wire id of a configured target. Echoed back on every report/execute;
/// never used as a hot map key.
#[derive(Debug, Clone, Copy, PartialEq, Eq, Hash, Structural)]
pub struct TargetHandle(pub i64);

/// Interns test names so the action table carries a [`TestNameId`] rather than a
/// copy of the name per action.
#[derive(Debug)]
pub struct TestNameInterner {
    names: Vec<String>,
    index: FxHashMap<String, usize>,
}

impl View for TestNameInterner {
    type V = Seq<Seq<char>>;

    closed spec fn view(&self) -> Seq<Seq<char>> {
        text::views(self.names@)
    }
}

/// The names after `name` has been interned.
pub open spec fn interned(names: Seq<Seq<char>>, name: Seq<char>) -> Seq<Seq<char>> {
    if names.contains(name) {
        names
    } else {
        names.push(name)
    }
}

/// Ids are stable: whatever is interned later, an id stands for its name, and
/// interning the name again adds nothing.
pub proof fn law_ids_are_stable(names: Seq<Seq<char>>, first: Seq<char>, later: Seq<char>, id: int)
    requires
        0 <= id < interned(names, first).len(),
        interned(names, first)[id] == first,
    ensures
        id < interned(interned(names, first), later).len(),
        interned(interned(names, first), later)[id] == first,
        interned(interned(names, first), first) == interned(names, first),
{
}

impl TestNameInterner {
    /// Whether the index and the names agree: each name is there once, under its
    /// position.
    pub closed spec fn wf(self) -> bool {
        &&& forall|i: int|
            0 <= i < self.names@.len() ==> fx::indexed(self.index).contains_key(
                (#[trigger] self.names@[i])@,
            ) && fx::indexed(self.index)[self.names@[i]@] == i
        &&& forall|name: Seq<char>| #[trigger]
            fx::indexed(self.index).contains_key(name) ==> {
                let id = fx::indexed(self.index)[name] as int;
                0 <= id < self.names@.len() && self.names@[id]@ == name
            }
    }

    /// An interner without names.
    pub fn new() -> (r: Self)
        ensures
            r.wf(),
            r@ == Seq::<Seq<char>>::empty(),
    {
        let r = TestNameInterner { names: Vec::new(), index: index_new() };
        proof {
            assert(r@ =~= Seq::<Seq<char>>::empty());
        }
        r
    }

    /// Interns `name`, returning its stable id (creating one on first sight).
    pub fn intern(&mut self, name: &str) -> (r: TestNameId)
        requires
            old(self).wf(),
            old(self)@.len() <= u32::MAX,
        ensures
            final(self).wf(),
            final(self)@ == interned(old(self)@, name@),
            r.0 < final(self)@.len(),
            final(self)@[r.0 as int] == name@,
            forall|i: int| 0 <= i < final(self)@.len() && final(self)@[i] == name@ ==> i == r.0,
    {
        if let Some(at) = index_get(&self.index, name) {
            proof {
                assert(self@[at as int] == name@);
                assert(self@.contains(name@));
                assert forall|i: int| 0 <= i < self@.len() && self@[i] == name@ implies i == at by {
                    assert(self.names@[i]@ == name@);
                }
            }
            return TestNameId(at as u32);
        }
        let at: usize = self.names.len();
        let id = TestNameId(at as u32);
        self.names.push(name.to_owned());
        index_insert(&mut self.index, name.to_owned(), at);
        proof {
            assert(self@ =~= old(self)@.push(name@));
            assert(!old(self)@.contains(name@)) by {
                if old(self)@.contains(name@) {
                    let i = choose|i: int| 0 <= i < old(self)@.len() && old(self)@[i] == name@;
                    assert(old(self).names@[i]@ == name@);
                }
            }
            assert forall|i: int| 0 <= i < self.names@.len() implies fx::indexed(
                self.index,
            ).contains_key((#[trigger] self.names@[i])@) && fx::indexed(self.index)[self.names@[i]@]
                == i by {
                if i < old(self).names@.len() {
                    assert(self.names@[i] == old(self).names@[i]);
                    assert(old(self)@[i] == old(self).names@[i]@);
                    assert(old(self)@.contains(old(self)@[i]));
                }
            }
            assert forall|n: Seq<char>| #[trigger] fx::indexed(self.index).contains_key(n) implies {
                let k = fx::indexed(self.index)[n] as int;
                0 <= k < self.names@.len() && self.names@[k]@ == n
            } by {
                if n != name@ {
                    assert(fx::indexed(old(self).index).contains_key(n));
                }
            }
            assert forall|i: int| 0 <= i < self@.len() && self@[i] == name@ implies i == id.0 by {
                if i < old(self)@.len() {
                    assert(old(self)@[i] == name@);
                    assert(old(self)@.contains(name@));
                }
            }
        }
        id
    }

    /// The name behind an id that this interner issued.
    pub fn resolve(&self, id: TestNameId) -> (r: &str)
        requires
            id.0 < self@.len(),
        ensures
            r@ == self@[id.0 as int],
    {
        self.names[id.0 as usize].as_str()
    }

    /// The number of names.
    pub fn len(&self) -> (r: usize)
        ensures
            r == self@.len(),
    {
        self.names.len()
    }

    /// Whether there are no names.
    pub fn is_empty(&self) -> (r: bool)
        ensures
            r == (self@.len() == 0),
    {
        self.names.len() == 0
    }
}

impl Default for TestNameInterner {
    fn default() -> (r: Self)
        ensures
            r.wf(),
            r@ == Seq::<Seq<char>>::empty(),
    {
        TestNameInterner::new()
    }
}

} // verus!
