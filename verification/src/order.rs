//! Sorting by a total order.

use vstd::prelude::*;
use vstd::relations::*;

verus! {

/// Values with a total order of their own.
pub trait Ranked: Sized {
    /// Whether `self` comes before `other` or equals it.
    spec fn ranks(self, other: Self) -> bool;

    proof fn lemma_ranks_totally()
        ensures
            total_ordering(|a: Self, b: Self| a.ranks(b)),
    ;

    fn comes_first(&self, other: &Self) -> (r: bool)
        ensures
            r == self.ranks(*other),
    ;
}

/// `s` in the order of its element type.
pub open spec fn ranked<T: Ranked>(s: Seq<T>) -> Seq<T> {
    s.sort_by(|a: T, b: T| a.ranks(b))
}

/// A sorted sequence with the elements of `s` is `ranked(s)`.
pub proof fn lemma_ranked_is<T: Ranked>(s: Seq<T>, r: Seq<T>)
    requires
        s.to_multiset() == r.to_multiset(),
        sorted_by(r, |a: T, b: T| a.ranks(b)),
    ensures
        r == ranked(s),
{
    T::lemma_ranks_totally();
    let leq = |a: T, b: T| a.ranks(b);
    s.lemma_sort_by_ensures(leq);
    vstd::seq_lib::lemma_sorted_unique(r, s.sort_by(leq), leq);
}

/// What `ranked` keeps: the elements with their multiplicities, in order.
pub proof fn lemma_ranked<T: Ranked>(s: Seq<T>)
    ensures
        ranked(s).to_multiset() == s.to_multiset(),
        sorted_by(ranked(s), |a: T, b: T| a.ranks(b)),
        ranked(s).len() == s.len(),
{
    T::lemma_ranks_totally();
    let leq = |a: T, b: T| a.ranks(b);
    s.lemma_sort_by_ensures(leq);
    s.to_multiset_ensures();
    ranked(s).to_multiset_ensures();
}

/// Sorts `items`.
pub fn sort<T: Ranked>(items: Vec<T>) -> (r: Vec<T>)
    ensures
        r@ == ranked(items@),
{
    let ghost leq = |a: T, b: T| a.ranks(b);
    proof {
        T::lemma_ranks_totally();
        items@.to_multiset_ensures();
    }
    let mut rest: Vec<T> = items;
    let mut out: Vec<T> = Vec::new();
    proof {
        assert(out@.to_multiset().add(rest@.to_multiset()) =~= items@.to_multiset()) by {
            out@.to_multiset_ensures();
        }
    }
    loop
        invariant
            leq == (|a: T, b: T| a.ranks(b)),
            total_ordering(leq),
            sorted_by(out@, leq),
            out@.to_multiset().add(rest@.to_multiset()) == items@.to_multiset(),
        ensures
            rest@.len() == 0,
            sorted_by(out@, leq),
            out@.to_multiset().add(rest@.to_multiset()) == items@.to_multiset(),
        decreases rest@.len(),
    {
        let ghost before_rest = rest@;
        match rest.pop() {
            None => {
                break;
            },
            Some(item) => {
                let mut at: usize = out.len();
                while at > 0 && !out[at - 1].comes_first(&item)
                    invariant
                        at <= out@.len(),
                        leq == (|a: T, b: T| a.ranks(b)),
                        total_ordering(leq),
                        sorted_by(out@, leq),
                        forall|k: int| at <= k < out@.len() ==> leq(item, #[trigger] out@[k]),
                    decreases at,
                {
                    proof {
                        let prev = out@[at - 1];
                        assert(!leq(prev, item));
                        assert(leq(item, prev));
                    }
                    at = at - 1;
                }
                let ghost before_out = out@;
                proof {
                    vstd::seq_lib::to_multiset_insert(before_out, at as int, item);
                    assert(before_rest == rest@.push(item));
                    vstd::seq_lib::to_multiset_build(rest@, item);
                    assert forall|i: int, j: int|
                        0 <= i < j < before_out.insert(at as int, item).len() implies #[trigger] leq(
                        before_out.insert(at as int, item)[i],
                        before_out.insert(at as int, item)[j],
                    ) by {
                        let n = before_out.insert(at as int, item);
                        if i < at && j == at {
                            assert(leq(before_out[at - 1], item));
                            if i < at - 1 {
                                assert(leq(before_out[i], before_out[at - 1]));
                            }
                        } else if i == at {
                            assert(leq(item, before_out[j - 1]));
                        } else if i < at && j < at {
                            assert(leq(before_out[i], before_out[j]));
                        } else if i < at && j > at {
                            assert(leq(before_out[i], before_out[j - 1]));
                        } else {
                            assert(leq(before_out[i - 1], before_out[j - 1]));
                        }
                    }
                }
                out.insert(at, item);
                proof {
                    assert(out@.to_multiset().add(rest@.to_multiset()) =~= before_out.to_multiset().add(
                        before_rest.to_multiset(),
                    ));
                }
            },
        }
    }
    proof {
        rest@.to_multiset_ensures();
        assert(rest@ =~= Seq::<T>::empty());
        assert(out@.to_multiset() =~= items@.to_multiset());
        lemma_ranked_is(items@, out@);
    }
    out
}

impl Ranked for u64 {
    open spec fn ranks(self, other: Self) -> bool {
        self <= other
    }

    proof fn lemma_ranks_totally() {
    }

    fn comes_first(&self, other: &Self) -> (r: bool) {
        *self <= *other
    }
}

} // verus!
