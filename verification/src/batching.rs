//! Adaptive batching: collapsing many tiny per-test actions into fewer execute
//! calls to amortize remote-action overhead.
//!
//! A single test per action pays the full per-action synchronization cost once
//! per test. [`BatchMode::FixedChunk`] amortizes that across a configurable
//! number of tests per action: the tests in a chunk run sequentially in one
//! process, and parallelism comes from running many chunks concurrently.
//!
//! Batching is applied to a target's test list after listing and duration lookup
//! and before the actions enter the scheduler's ready set. Its contracts speak of
//! *groups*: sequences of positions in the test list.

use vstd::prelude::*;

use crate::num::NonZeroUsize;
use crate::order::{self, sort, Ranked};

verus! {

/// How tests within a target are grouped into actions.
#[derive(Debug, Clone, Copy, PartialEq, Eq)]
pub enum BatchMode {
    /// One action per test (finest cache granularity, highest per-action
    /// overhead). The groups of chunks of one test, in the order of the tests.
    PerTest,
    /// Group tests whose historical p50 is below `p50_lt_ms` into shared
    /// actions; longer tests stay singleton.
    DurationBucketed { p50_lt_ms: u64 },
    /// Group tests into balanced chunks of at most `size` tests per action.
    FixedChunk { size: NonZeroUsize },
    /// One action for the whole target.
    Target,
}

/// What to do when a non-singleton batch action fails to attribute a result to
/// every member (e.g. the process crashed mid-batch).
#[derive(Debug, Clone, Copy, PartialEq, Eq, Structural)]
pub enum BatchFailurePolicy {
    /// Report the missing members as fatal.
    FailAll,
    /// Re-run the batch's members individually to isolate the failure.
    RerunPerTestToIsolate,
}

/// Largest number of tests collapsed into one batched action.
pub const MAX_BATCH: usize = 64;

/// The subset of a target's tests to execute in a single action.
#[derive(Debug, Clone, PartialEq, Eq)]
pub enum TestSelection<T> {
    /// Execute the target natively without enumerating explicit test filters.
    All,
    /// Execute exactly the specified subset of tests.
    Explicit(Vec<T>),
}

/// A generic input item for batching that carries a weight and a typical duration.
pub trait Batchable: Clone {
    spec fn spec_weight_ms(&self) -> u64;

    spec fn spec_p50_ms(&self) -> u64;

    fn weight_ms(&self) -> (r: u64)
        ensures
            r == self.spec_weight_ms(),
    ;

    fn p50_ms(&self) -> (r: u64)
        ensures
            r == self.spec_p50_ms(),
    ;
}

/// A policy for partitioning a set of tests into batched actions.
pub trait Batcher<T> {
    /// Whether `r` is the partition of `tests`.
    spec fn partitions(&self, tests: Seq<T>, r: Seq<TestSelection<T>>) -> bool;

    fn partition(&self, tests: &[T]) -> (r: Vec<TestSelection<T>>)
        ensures
            self.partitions(tests@, r@),
    ;
}

// ---------------------------------------------------------------------------
// Groups.

/// One group per test.
pub open spec fn singletons(n: nat) -> Seq<Seq<int>> {
    Seq::new(n, |i: int| seq![i])
}

/// The groups that are complete and the one being filled after the first `i`
/// tests: a small test joins the group being filled, which is complete at `max`;
/// any other test stands alone and completes the group before it.
pub open spec fn buckets_upto(small: Seq<bool>, max: nat, i: nat) -> (Seq<Seq<int>>, Seq<int>)
    decreases i,
{
    if i == 0 {
        (Seq::empty(), Seq::empty())
    } else {
        let at = i - 1;
        let (done, current) = buckets_upto(small, max, at as nat);
        if small[at] {
            let grown = current.push(at);
            if grown.len() >= max {
                (done.push(grown), Seq::empty())
            } else {
                (done, grown)
            }
        } else if current.len() > 0 {
            (done.push(current).push(seq![at]), Seq::empty())
        } else {
            (done.push(seq![at]), Seq::empty())
        }
    }
}

/// The groups of a bucketed batch.
pub open spec fn buckets(small: Seq<bool>, max: nat) -> Seq<Seq<int>> {
    let (done, current) = buckets_upto(small, max, small.len());
    if current.len() > 0 {
        done.push(current)
    } else {
        done
    }
}

/// A test's position and weight.
#[derive(Debug, Clone, Copy, PartialEq, Eq)]
pub struct Slot {
    pub weight: u64,
    pub index: usize,
}

/// Heaviest first; of equally heavy tests, the earlier one first.
impl Ranked for Slot {
    open spec fn ranks(self, other: Self) -> bool {
        self.weight > other.weight || (self.weight == other.weight && self.index <= other.index)
    }

    proof fn lemma_ranks_totally() {
    }

    fn comes_first(&self, other: &Self) -> (r: bool) {
        self.weight > other.weight || (self.weight == other.weight && self.index <= other.index)
    }
}

/// The tests with their positions.
pub open spec fn slots(weights: Seq<u64>) -> Seq<Slot> {
    Seq::new(weights.len(), |i: int| Slot { weight: weights[i], index: i as usize })
}

/// The total weight of a group.
pub open spec fn group_weight(group: Seq<int>, weights: Seq<u64>) -> nat
    decreases group.len(),
{
    if group.len() == 0 {
        0
    } else {
        group_weight(group.drop_last(), weights) + weights[group.last()] as nat
    }
}

/// Whether group `k` takes the next test: it has room, and no group with room is
/// lighter, nor as light and earlier.
pub open spec fn takes_next(
    groups: Seq<Seq<int>>,
    weights: Seq<u64>,
    size: nat,
    k: int,
) -> bool {
    &&& 0 <= k < groups.len()
    &&& groups[k].len() < size
    &&& forall|j: int|
        0 <= j < groups.len() && (#[trigger] groups[j]).len() < size ==> {
            let wk = group_weight(groups[k], weights);
            let wj = group_weight(groups[j], weights);
            wk < wj || (wk == wj && k <= j)
        }
}

/// The groups after the tests of `order` have been handed out one by one over
/// `n` groups.
pub open spec fn dealt(order: Seq<Slot>, weights: Seq<u64>, size: nat, n: nat) -> Seq<Seq<int>>
    decreases order.len(),
{
    if order.len() == 0 {
        Seq::new(n, |i: int| Seq::empty())
    } else {
        let before = dealt(order.drop_last(), weights, size, n);
        let k = choose|k: int| takes_next(before, weights, size, k);
        before.update(k, before[k].push(order.last().index as int))
    }
}

/// The number of groups of at most `size` that hold `n` tests.
pub open spec fn group_count(n: nat, size: nat) -> nat
    recommends
        size > 0,
{
    ((n + size - 1) / size as int) as nat
}

/// The groups of a fixed-chunk batch: heaviest tests first, each to the lightest
/// group with room.
pub open spec fn chunks(weights: Seq<u64>, size: nat) -> Seq<Seq<int>> {
    dealt(order::ranked(slots(weights)), weights, size, group_count(weights.len(), size))
}

/// The weights of tests.
pub open spec fn weights_of<T: Batchable>(tests: Seq<T>) -> Seq<u64> {
    Seq::new(tests.len(), |i: int| tests[i].spec_weight_ms())
}

/// Which tests are small.
pub open spec fn small_of<T: Batchable>(tests: Seq<T>, p50_lt_ms: u64) -> Seq<bool> {
    Seq::new(tests.len(), |i: int| tests[i].spec_p50_ms() < p50_lt_ms)
}

impl BatchMode {
    /// The groups of tests that become one action each; `None` when the target
    /// runs as a whole.
    pub open spec fn groups<T: Batchable>(self, tests: Seq<T>) -> Option<Seq<Seq<int>>> {
        match self {
            BatchMode::PerTest => Some(singletons(tests.len())),
            BatchMode::Target => None,
            BatchMode::DurationBucketed { p50_lt_ms } => Some(
                buckets(small_of(tests, p50_lt_ms), MAX_BATCH as nat),
            ),
            BatchMode::FixedChunk { size } => Some(
                chunks(weights_of(tests), size.spec_get() as nat),
            ),
        }
    }
}

/// Whether `selection` holds copies of the tests of `group`, in order.
pub open spec fn selects_group<T: Clone>(
    tests: Seq<T>,
    group: Seq<int>,
    selection: TestSelection<T>,
) -> bool {
    selection matches TestSelection::Explicit(members) && members@.len() == group.len()
        && forall|j: int|
        0 <= j < members@.len() ==> cloned::<T>(tests[group[j]], #[trigger] members@[j])
}

/// Whether `r` selects the tests of each group, in order.
pub open spec fn selects<T: Clone>(
    tests: Seq<T>,
    groups: Seq<Seq<int>>,
    r: Seq<TestSelection<T>>,
) -> bool {
    &&& r.len() == groups.len()
    &&& forall|k: int| 0 <= k < r.len() ==> selects_group(tests, groups[k], #[trigger] r[k])
}

/// The positions in a vector of position vectors.
pub open spec fn positions(v: Seq<Vec<usize>>) -> Seq<Seq<int>> {
    Seq::new(v.len(), |k: int| Seq::new(v[k]@.len(), |j: int| v[k]@[j] as int))
}

/// Whether every position is below `n`.
pub open spec fn in_range(groups: Seq<Seq<int>>, n: nat) -> bool {
    forall|k: int, j: int|
        0 <= k < groups.len() && 0 <= j < groups[k].len() ==> 0 <= #[trigger] groups[k][j] < n
}

fn select<T: Clone>(tests: &[T], groups: &Vec<Vec<usize>>) -> (r: Vec<TestSelection<T>>)
    requires
        in_range(positions(groups@), tests@.len()),
    ensures
        selects(tests@, positions(groups@), r@),
{
    let mut out: Vec<TestSelection<T>> = Vec::new();
    let mut k: usize = 0;
    while k < groups.len()
        invariant
            k <= groups@.len(),
            out@.len() == k,
            in_range(positions(groups@), tests@.len()),
            forall|q: int|
                0 <= q < k ==> selects_group(tests@, positions(groups@)[q], #[trigger] out@[q]),
        decreases groups@.len() - k,
    {
        let group: &Vec<usize> = &groups[k];
        let mut members: Vec<T> = Vec::new();
        let mut j: usize = 0;
        while j < group.len()
            invariant
                k < groups@.len(),
                *group == groups@[k as int],
                in_range(positions(groups@), tests@.len()),
                j <= group@.len(),
                members@.len() == j,
                forall|i: int|
                    0 <= i < j ==> cloned::<T>(
                        tests@[positions(groups@)[k as int][i]],
                        #[trigger] members@[i],
                    ),
            decreases group@.len() - j,
        {
            proof {
                assert(positions(groups@)[k as int][j as int] == group@[j as int]);
            }
            members.push(tests[group[j]].clone());
            j = j + 1;
        }
        out.push(TestSelection::Explicit(members));
        k = k + 1;
    }
    out
}

/// Groups items into batches, keeping "large" items isolated and grouping "small"
/// items up to `max_batch` size.
fn bucket_generic(small: &Vec<bool>, max_batch: usize) -> (r: Vec<Vec<usize>>)
    ensures
        positions(r@) == buckets(small@, max_batch as nat),
        in_range(positions(r@), small@.len()),
{
    let mut batches: Vec<Vec<usize>> = Vec::new();
    let mut current: Vec<usize> = Vec::new();
    let mut i: usize = 0;
    proof {
        assert(positions(batches@) =~= Seq::empty());
    }
    while i < small.len()
        invariant
            i <= small@.len(),
            (positions(batches@), Seq::new(current@.len(), |j: int| current@[j] as int))
                == buckets_upto(small@, max_batch as nat, i as nat),
            in_range(positions(batches@), i as nat),
            forall|j: int| 0 <= j < current@.len() ==> current@[j] < i,
        decreases small@.len() - i,
    {
        let ghost b0 = batches@;
        let ghost c0 = Seq::new(current@.len(), |j: int| current@[j] as int);
        if small[i] {
            current.push(i);
            proof {
                assert(Seq::new(current@.len(), |j: int| current@[j] as int) =~= c0.push(i as int));
            }
            if current.len() >= max_batch {
                let ghost grown = current@;
                batches.push(current);
                current = Vec::new();
                proof {
                    assert(positions(batches@) =~= positions(b0).push(c0.push(i as int)));
                    assert(Seq::new(current@.len(), |j: int| current@[j] as int) =~= Seq::empty());
                }
            }
        } else {
            if current.len() > 0 {
                batches.push(current);
                current = Vec::new();
                proof {
                    assert(positions(batches@) =~= positions(b0).push(c0));
                }
            }
            let ghost b1 = batches@;
            let mut alone: Vec<usize> = Vec::new();
            alone.push(i);
            batches.push(alone);
            proof {
                assert(positions(batches@) =~~= positions(b1).push(seq![i as int]));
                assert(Seq::new(current@.len(), |j: int| current@[j] as int) =~= Seq::empty());
            }
        }
        i = i + 1;
    }
    if current.len() > 0 {
        let ghost b0 = batches@;
        let ghost c0 = Seq::new(current@.len(), |j: int| current@[j] as int);
        batches.push(current);
        proof {
            assert(positions(batches@) =~= positions(b0).push(c0));
        }
    }
    batches
}

/// Sum of the sizes of groups.
spec fn total_len(groups: Seq<Seq<int>>) -> nat
    decreases groups.len(),
{
    if groups.len() == 0 {
        0
    } else {
        total_len(groups.drop_last()) + groups.last().len()
    }
}

proof fn lemma_total_len_update(groups: Seq<Seq<int>>, k: int, x: int)
    requires
        0 <= k < groups.len(),
    ensures
        total_len(groups.update(k, groups[k].push(x))) == total_len(groups) + 1,
    decreases groups.len(),
{
    let g = groups.update(k, groups[k].push(x));
    if k == groups.len() - 1 {
        assert(g.drop_last() =~= groups.drop_last());
    } else {
        assert(g.drop_last() =~= groups.drop_last().update(k, groups.drop_last()[k].push(x)));
        lemma_total_len_update(groups.drop_last(), k, x);
    }
}

proof fn lemma_total_len_full(groups: Seq<Seq<int>>, size: nat)
    requires
        forall|k: int| 0 <= k < groups.len() ==> (#[trigger] groups[k]).len() >= size,
    ensures
        total_len(groups) >= groups.len() * size,
    decreases groups.len(),
{
    if groups.len() > 0 {
        let front = groups.drop_last();
        assert forall|k: int| 0 <= k < front.len() implies (#[trigger] front[k]).len() >= size by {
            assert(front[k] == groups[k]);
        }
        lemma_total_len_full(front, size);
        assert(groups[groups.len() - 1].len() >= size);
        assert(groups.len() * size == front.len() * size + size) by (nonlinear_arith)
            requires
                groups.len() == front.len() + 1,
        ;
    }
}

proof fn lemma_total_len_empty(n: nat)
    ensures
        total_len(Seq::new(n, |i: int| Seq::<int>::empty())) == 0,
    decreases n,
{
    let g = Seq::new(n, |i: int| Seq::<int>::empty());
    if n > 0 {
        assert(g.drop_last() =~= Seq::new((n - 1) as nat, |i: int| Seq::<int>::empty()));
        lemma_total_len_empty((n - 1) as nat);
    }
}

/// Enough groups have room for every test.
proof fn lemma_group_count(n: nat, size: nat)
    requires
        size > 0,
    ensures
        group_count(n, size) * size >= n,
        n > 0 ==> group_count(n, size) > 0,
        group_count(n, size) <= n,
{
    let c = group_count(n, size);
    let m = n + size - 1;
    vstd::arithmetic::div_mod::lemma_fundamental_div_mod(m, size as int);
    vstd::arithmetic::div_mod::lemma_mod_bound(m, size as int);
    assert(c as int == m / size as int) by {
        vstd::arithmetic::div_mod::lemma_div_pos_is_pos(m, size as int);
    }
    assert(c * size == size * c) by (nonlinear_arith);
    if c > n {
        assert(c * size >= (n + 1) * size) by (nonlinear_arith)
            requires
                c >= n + 1,
        ;
        assert((n + 1) * size >= n + size) by (nonlinear_arith)
            requires
                size >= 1,
        ;
    }
    if n > 0 && c == 0 {
        assert(c * size == 0) by (nonlinear_arith)
            requires
                c == 0,
        ;
    }
}

/// What `dealt` keeps: the number of groups, the cap, and how many tests have
/// been handed out; and someone takes the next test while there is room.
proof fn lemma_dealt(order: Seq<Slot>, weights: Seq<u64>, size: nat, n: nat)
    requires
        size > 0,
        order.len() <= n * size,
    ensures
        dealt(order, weights, size, n).len() == n,
        total_len(dealt(order, weights, size, n)) == order.len(),
        forall|k: int|
            0 <= k < n ==> (#[trigger] dealt(order, weights, size, n)[k]).len() <= size,
    decreases order.len(),
{
    if order.len() == 0 {
        lemma_total_len_empty(n);
    } else {
        let front = order.drop_last();
        lemma_dealt(front, weights, size, n);
        let before = dealt(front, weights, size, n);
        lemma_someone_takes(before, weights, size);
        let k = choose|k: int| takes_next(before, weights, size, k);
        lemma_total_len_update(before, k, order.last().index as int);
    }
}

/// While a group has room, one of them takes the next test.
proof fn lemma_someone_takes(groups: Seq<Seq<int>>, weights: Seq<u64>, size: nat)
    requires
        total_len(groups) < groups.len() * size,
    ensures
        exists|k: int| takes_next(groups, weights, size, k),
{
    if forall|k: int| 0 <= k < groups.len() ==> (#[trigger] groups[k]).len() >= size {
        lemma_total_len_full(groups, size);
        assert(false);
    }
    lemma_lightest(groups, weights, size, groups.len());
    let k = lightest_upto(groups, weights, size, groups.len());
    assert(takes_next(groups, weights, size, k));
}

/// The group among the first `n` that would take the next test, -1 when none has
/// room.
spec fn lightest_upto(groups: Seq<Seq<int>>, weights: Seq<u64>, size: nat, n: nat) -> int
    decreases n,
{
    if n == 0 {
        -1
    } else {
        let best = lightest_upto(groups, weights, size, (n - 1) as nat);
        let k = n - 1;
        if groups[k].len() >= size {
            best
        } else if best < 0 || group_weight(groups[k], weights) < group_weight(
            groups[best],
            weights,
        ) {
            k
        } else {
            best
        }
    }
}

proof fn lemma_lightest(groups: Seq<Seq<int>>, weights: Seq<u64>, size: nat, n: nat)
    requires
        n <= groups.len(),
    ensures
        ({
            let best = lightest_upto(groups, weights, size, n);
            &&& -1 <= best < n
            &&& best >= 0 ==> groups[best].len() < size
            &&& forall|j: int|
                0 <= j < n && (#[trigger] groups[j]).len() < size ==> best >= 0 && {
                    let wk = group_weight(groups[best], weights);
                    let wj = group_weight(groups[j], weights);
                    wk < wj || (wk == wj && best <= j)
                }
        }),
    decreases n,
{
    if n > 0 {
        lemma_lightest(groups, weights, size, (n - 1) as nat);
    }
}

/// Only one group takes the next test.
proof fn lemma_taker_is_unique(
    groups: Seq<Seq<int>>,
    weights: Seq<u64>,
    size: nat,
    a: int,
    b: int,
)
    requires
        takes_next(groups, weights, size, a),
        takes_next(groups, weights, size, b),
    ensures
        a == b,
{
    assert(groups[a].len() < size && groups[b].len() < size);
}

proof fn lemma_group_weight_bound(group: Seq<int>, weights: Seq<u64>)
    ensures
        group_weight(group, weights) <= group.len() * u64::MAX,
    decreases group.len(),
{
    if group.len() > 0 {
        lemma_group_weight_bound(group.drop_last(), weights);
        assert(group.len() * u64::MAX == (group.len() - 1) * u64::MAX + u64::MAX)
            by (nonlinear_arith);
    }
}

/// Groups items into balanced chunks of at most `size` members: the heaviest item
/// that is left goes to the lightest chunk with room.
fn chunk_fixed_generic(weights: &Vec<u64>, size: NonZeroUsize) -> (r: Vec<Vec<usize>>)
    ensures
        positions(r@) == chunks(weights@, size.spec_get() as nat),
        in_range(positions(r@), weights@.len()),
{
    let cap: usize = size.get();
    let total: usize = weights.len();
    proof {
        lemma_group_count(total as nat, cap as nat);
    }
    let mut items: Vec<Slot> = Vec::new();
    let mut i: usize = 0;
    while i < total
        invariant
            i <= total,
            total == weights@.len(),
            items@ == slots(weights@).take(i as int),
        decreases total - i,
    {
        proof {
            let s = slots(weights@);
            assert(s.take(i + 1) =~= s.take(i as int).push(s[i as int]));
        }
        items.push(Slot { weight: weights[i], index: i });
        i = i + 1;
    }
    proof {
        assert(slots(weights@).take(total as int) =~= slots(weights@));
        order::lemma_ranked(slots(weights@));
    }
    let order: Vec<Slot> = sort(items);
    proof {
        assert forall|t: int| 0 <= t < order@.len() implies (#[trigger] order@[t]).index < total
            && order@[t].weight == weights@[order@[t].index as int] by {
            lemma_slot_of_order(weights@, order@, t);
        }
    }
    let full: u128 = total as u128 + cap as u128 - 1;
    let wide: u128 = full / (cap as u128);
    let n: usize = wide as usize;
    proof {
        assert(n as nat == group_count(total as nat, cap as nat));
    }
    let mut out: Vec<Vec<usize>> = Vec::new();
    let mut loads: Vec<u128> = Vec::new();
    let mut m: usize = 0;
    while m < n
        invariant
            m <= n,
            out@.len() == m,
            loads@.len() == m,
            forall|k: int| 0 <= k < m ==> (#[trigger] out@[k])@.len() == 0,
            forall|k: int| 0 <= k < m ==> #[trigger] loads@[k] == 0,
        decreases n - m,
    {
        out.push(Vec::new());
        loads.push(0);
        m = m + 1;
    }
    let mut t: usize = 0;
    proof {
        assert(positions(out@) =~= dealt(order@.take(0), weights@, cap as nat, n as nat)) by {
            let p = positions(out@);
            let d = dealt(order@.take(0), weights@, cap as nat, n as nat);
            assert forall|k: int| 0 <= k < n implies p[k] == d[k] by {
                assert(out@[k]@.len() == 0);
                assert(p[k] =~= d[k]);
            }
        }
    }
    while t < order.len()
        invariant
            t <= order@.len(),
            order@.len() == total,
            total == weights@.len(),
            cap == size.spec_get(),
            cap > 0,
            n == group_count(total as nat, cap as nat),
            total <= n * cap,
            out@.len() == n,
            loads@.len() == n,
            forall|q: int|
                0 <= q < order@.len() ==> (#[trigger] order@[q]).index < total && order@[q].weight
                    == weights@[order@[q].index as int],
            positions(out@) == dealt(order@.take(t as int), weights@, cap as nat, n as nat),
            in_range(positions(out@), total as nat),
            forall|k: int|
                0 <= k < n ==> #[trigger] loads@[k] == group_weight(positions(out@)[k], weights@),
        decreases order@.len() - t,
    {
        let ghost groups = positions(out@);
        proof {
            lemma_dealt(order@.take(t as int), weights@, cap as nat, n as nat);
            lemma_someone_takes(groups, weights@, cap as nat);
        }
        let mut best: usize = n;
        let mut k: usize = 0;
        while k < n
            invariant
                k <= n,
                best <= n,
                out@.len() == n,
                loads@.len() == n,
                groups == positions(out@),
                forall|q: int|
                    0 <= q < n ==> #[trigger] loads@[q] == group_weight(groups[q], weights@),
                best < n ==> best < k && groups[best as int].len() < cap,
                forall|j: int|
                    0 <= j < k && (#[trigger] groups[j]).len() < cap ==> best < n && {
                        let wk = group_weight(groups[best as int], weights@);
                        let wj = group_weight(groups[j], weights@);
                        wk < wj || (wk == wj && best <= j)
                    },
            decreases n - k,
        {
            proof {
                assert(groups[k as int].len() == out@[k as int]@.len());
            }
            if out[k].len() < cap && (best == n || loads[k] < loads[best]) {
                best = k;
            }
            k = k + 1;
        }
        proof {
            let taker = choose|q: int| takes_next(groups, weights@, cap as nat, q);
            assert(groups[taker].len() < cap);
            assert(takes_next(groups, weights@, cap as nat, best as int));
            lemma_taker_is_unique(groups, weights@, cap as nat, taker, best as int);
        }
        let item: Slot = order[t];
        let ghost old_out = out@;
        let mut group: Vec<usize> = Vec::new();
        core::mem::swap(&mut out[best], &mut group);
        let ghost old_group = group@;
        group.push(item.index);
        core::mem::swap(&mut out[best], &mut group);
        proof {
            lemma_group_weight_bound(groups[best as int], weights@);
            assert(groups[best as int].len() * u64::MAX + u64::MAX <= u128::MAX)
                by (nonlinear_arith)
                requires
                    groups[best as int].len() < cap,
                    cap <= usize::MAX,
                    usize::MAX <= u64::MAX,
            ;
        }
        let load: u128 = loads[best] + item.weight as u128;
        loads[best] = load;
        proof {
            let x = item.index as int;
            let after = groups.update(best as int, groups[best as int].push(x));
            assert(out@ =~= old_out.update(best as int, out@[best as int]));
            assert(out@[best as int]@ == old_group.push(item.index));
            assert forall|q: int| 0 <= q < n implies positions(out@)[q] == after[q] by {
                assert(positions(out@)[q] =~= after[q]);
            }
            assert(positions(out@) =~= after);
            assert(order@.take(t + 1).drop_last() =~= order@.take(t as int));
            assert(order@.take(t + 1).last() == item);
            let grown = after[best as int];
            assert(grown.drop_last() =~= groups[best as int]);
            assert forall|q: int, j: int|
                0 <= q < positions(out@).len() && 0 <= j < positions(out@)[q].len() implies 0
                <= #[trigger] positions(out@)[q][j] < total by {
                if q == best && j == groups[q].len() {
                } else {
                    assert(positions(out@)[q][j] == groups[q][j]);
                }
            }
        }
        t = t + 1;
    }
    proof {
        assert(order@.take(order@.len() as int) =~= order@);
    }
    out
}

/// Every entry of the sorted slots is one of the slots.
proof fn lemma_slot_of_order(weights: Seq<u64>, order: Seq<Slot>, t: int)
    requires
        order == order::ranked(slots(weights)),
        weights.len() <= usize::MAX,
        0 <= t < order.len(),
    ensures
        order[t].index < weights.len(),
        order[t].weight == weights[order[t].index as int],
{
    let s = slots(weights);
    order::lemma_ranked(s);
    s.to_multiset_ensures();
    order.to_multiset_ensures();
    assert(order.contains(order[t]));
    assert(order.to_multiset().count(order[t]) > 0);
    assert(s.contains(order[t]));
    let i = choose|i: int| 0 <= i < s.len() && s[i] == order[t];
    assert(s[i].index == i);
}

impl<T: Batchable> Batcher<T> for BatchMode {
    open spec fn partitions(&self, tests: Seq<T>, r: Seq<TestSelection<T>>) -> bool {
        match self.groups(tests) {
            Some(groups) => selects(tests, groups, r),
            None => r.len() == 1 && r[0] is All,
        }
    }

    fn partition(&self, tests: &[T]) -> (r: Vec<TestSelection<T>>) {
        match self {
            BatchMode::PerTest => {
                let mut groups: Vec<Vec<usize>> = Vec::new();
                let mut i: usize = 0;
                proof {
                    assert(positions(groups@) =~= singletons(0));
                }
                while i < tests.len()
                    invariant
                        i <= tests@.len(),
                        positions(groups@) == singletons(i as nat),
                    decreases tests@.len() - i,
                {
                    let ghost before = groups@;
                    let mut alone: Vec<usize> = Vec::new();
                    alone.push(i);
                    groups.push(alone);
                    proof {
                        assert(positions(groups@) =~~= positions(before).push(seq![i as int]));
                        assert(positions(groups@) =~= singletons((i + 1) as nat));
                    }
                    i = i + 1;
                }
                select(tests, &groups)
            },
            BatchMode::Target => {
                let mut out: Vec<TestSelection<T>> = Vec::new();
                out.push(TestSelection::All);
                out
            },
            BatchMode::DurationBucketed { p50_lt_ms } => {
                let mut small: Vec<bool> = Vec::new();
                let mut i: usize = 0;
                while i < tests.len()
                    invariant
                        i <= tests@.len(),
                        small@ == small_of(tests@, *p50_lt_ms).take(i as int),
                    decreases tests@.len() - i,
                {
                    proof {
                        let s = small_of(tests@, *p50_lt_ms);
                        assert(s.take(i + 1) =~= s.take(i as int).push(s[i as int]));
                    }
                    small.push(tests[i].p50_ms() < *p50_lt_ms);
                    i = i + 1;
                }
                proof {
                    let s = small_of(tests@, *p50_lt_ms);
                    assert(s.take(tests@.len() as int) =~= s);
                }
                let groups: Vec<Vec<usize>> = bucket_generic(&small, MAX_BATCH);
                select(tests, &groups)
            },
            BatchMode::FixedChunk { size } => {
                let mut weights: Vec<u64> = Vec::new();
                let mut i: usize = 0;
                while i < tests.len()
                    invariant
                        i <= tests@.len(),
                        weights@ == weights_of(tests@).take(i as int),
                    decreases tests@.len() - i,
                {
                    proof {
                        let w = weights_of(tests@);
                        assert(w.take(i + 1) =~= w.take(i as int).push(w[i as int]));
                    }
                    weights.push(tests[i].weight_ms());
                    i = i + 1;
                }
                proof {
                    let w = weights_of(tests@);
                    assert(w.take(tests@.len() as int) =~= w);
                }
                let groups: Vec<Vec<usize>> = chunk_fixed_generic(&weights, *size);
                select(tests, &groups)
            },
        }
    }
}

// ---------------------------------------------------------------------------
// Every test runs exactly once.

/// Whether `x` stands in some group.
pub open spec fn in_groups(groups: Seq<Seq<int>>, x: int) -> bool {
    exists|k: int, j: int|
        0 <= k < groups.len() && 0 <= j < groups[k].len() && #[trigger] groups[k][j] == x
}

/// Whether the groups hold each element of `s`, once, and nothing else.
pub open spec fn hold_once(groups: Seq<Seq<int>>, s: Seq<int>) -> bool {
    &&& forall|x: int| #[trigger] in_groups(groups, x) <==> s.contains(x)
    &&& forall|k: int, j: int, q: int, i: int|
        #![trigger groups[k][j], groups[q][i]]
        0 <= k < groups.len() && 0 <= j < groups[k].len() && 0 <= q < groups.len() && 0 <= i
            < groups[q].len() && groups[k][j] == groups[q][i] ==> k == q && j == i
}

/// The positions of `n` tests.
pub open spec fn all_positions(n: nat) -> Seq<int> {
    Seq::new(n, |i: int| i)
}

proof fn lemma_hold_more(groups: Seq<Seq<int>>, s: Seq<int>, k: int, x: int)
    requires
        hold_once(groups, s),
        !s.contains(x),
        0 <= k < groups.len(),
    ensures
        hold_once(groups.update(k, groups[k].push(x)), s.push(x)),
{
    let g = groups.update(k, groups[k].push(x));
    let t = s.push(x);
    let last = groups[k].len() as int;
    assert(g[k][last] == x);
    assert forall|y: int| #[trigger] in_groups(g, y) <==> t.contains(y) by {
        if in_groups(g, y) {
            let (a, b) = choose|a: int, b: int|
                0 <= a < g.len() && 0 <= b < g[a].len() && #[trigger] g[a][b] == y;
            if a == k && b == last {
                assert(t[s.len() as int] == x);
            } else {
                assert(groups[a][b] == y);
                assert(in_groups(groups, y));
                let n = choose|n: int| 0 <= n < s.len() && s[n] == y;
                assert(t[n] == y);
            }
        }
        if t.contains(y) {
            if y == x {
                assert(g[k][last] == y);
            } else {
                let n = choose|n: int| 0 <= n < t.len() && t[n] == y;
                assert(s[n] == y);
                assert(in_groups(groups, y));
                let (a, b) = choose|a: int, b: int|
                    0 <= a < groups.len() && 0 <= b < groups[a].len() && #[trigger] groups[a][b] == y;
                assert(g[a][b] == y);
            }
        }
    }
    assert forall|a: int, b: int, q: int, i: int|
        #![trigger g[a][b], g[q][i]]
        0 <= a < g.len() && 0 <= b < g[a].len() && 0 <= q < g.len() && 0 <= i < g[q].len()
            && g[a][b] == g[q][i] implies a == q && b == i by {
        let first_new = a == k && b == last;
        let second_new = q == k && i == last;
        if !first_new {
            assert(g[a][b] == groups[a][b]);
            assert(in_groups(groups, groups[a][b]));
        }
        if !second_new {
            assert(g[q][i] == groups[q][i]);
            assert(in_groups(groups, groups[q][i]));
        }
    }
}

proof fn lemma_hold_with_empty(groups: Seq<Seq<int>>, s: Seq<int>)
    ensures
        hold_once(groups, s) <==> hold_once(groups.push(Seq::empty()), s),
{
    let g = groups.push(Seq::empty());
    assert forall|x: int| #[trigger] in_groups(groups, x) <==> in_groups(g, x) by {
        if in_groups(groups, x) {
            let (a, b) = choose|a: int, b: int|
                0 <= a < groups.len() && 0 <= b < groups[a].len() && #[trigger] groups[a][b] == x;
            assert(g[a][b] == x);
        }
        if in_groups(g, x) {
            let (a, b) = choose|a: int, b: int|
                0 <= a < g.len() && 0 <= b < g[a].len() && #[trigger] g[a][b] == x;
            assert(groups[a][b] == x);
        }
    }
    if hold_once(groups, s) {
        assert forall|k: int, j: int, q: int, i: int|
            #![trigger g[k][j], g[q][i]]
            0 <= k < g.len() && 0 <= j < g[k].len() && 0 <= q < g.len() && 0 <= i < g[q].len()
                && g[k][j] == g[q][i] implies k == q && j == i by {
            assert(g[k][j] == groups[k][j]);
            assert(g[q][i] == groups[q][i]);
        }
        assert forall|x: int| #[trigger] in_groups(g, x) <==> s.contains(x) by {
            assert(in_groups(groups, x) <==> s.contains(x));
        }
    }
    if hold_once(g, s) {
        assert forall|k: int, j: int, q: int, i: int|
            #![trigger groups[k][j], groups[q][i]]
            0 <= k < groups.len() && 0 <= j < groups[k].len() && 0 <= q < groups.len() && 0 <= i
                < groups[q].len() && groups[k][j] == groups[q][i] implies k == q && j == i by {
            assert(g[k][j] == groups[k][j]);
            assert(g[q][i] == groups[q][i]);
        }
        assert forall|x: int| #[trigger] in_groups(groups, x) <==> s.contains(x) by {
            assert(in_groups(g, x) <==> s.contains(x));
        }
    }
}

proof fn lemma_hold_new_group(groups: Seq<Seq<int>>, s: Seq<int>, x: int)
    requires
        hold_once(groups, s),
        !s.contains(x),
    ensures
        hold_once(groups.push(seq![x]), s.push(x)),
{
    lemma_hold_with_empty(groups, s);
    let g = groups.push(Seq::empty());
    lemma_hold_more(g, s, groups.len() as int, x);
    assert(g[groups.len() as int].push(x) =~= seq![x]);
    assert(g.update(groups.len() as int, seq![x]) =~= groups.push(seq![x]));
}

proof fn lemma_next_position(i: nat)
    ensures
        all_positions(i).push(i as int) == all_positions(i + 1),
        !all_positions(i).contains(i as int),
{
    assert(all_positions(i).push(i as int) =~= all_positions(i + 1));
}

proof fn lemma_singletons_hold(n: nat)
    ensures
        hold_once(singletons(n), all_positions(n)),
    decreases n,
{
    if n == 0 {
        assert(all_positions(0) =~= Seq::empty());
        assert forall|x: int| #[trigger] in_groups(singletons(0), x) <==> all_positions(
            0,
        ).contains(x) by {}
    } else {
        let m = (n - 1) as nat;
        lemma_singletons_hold(m);
        lemma_next_position(m);
        lemma_hold_new_group(singletons(m), all_positions(m), m as int);
        assert(singletons(m).push(seq![m as int]) =~= singletons(n));
    }
}

proof fn lemma_buckets_hold(small: Seq<bool>, max: nat, i: nat)
    requires
        i <= small.len(),
    ensures
        ({
            let (done, current) = buckets_upto(small, max, i);
            hold_once(done.push(current), all_positions(i))
        }),
    decreases i,
{
    let (done, current) = buckets_upto(small, max, i);
    if i == 0 {
        assert(all_positions(0) =~= Seq::empty());
        assert forall|x: int| #[trigger] in_groups(done.push(current), x) <==> all_positions(
            0,
        ).contains(x) by {}
    } else {
        let m = (i - 1) as nat;
        let at = m as int;
        lemma_buckets_hold(small, max, m);
        let (d0, c0) = buckets_upto(small, max, m);
        lemma_next_position(m);
        let g0 = d0.push(c0);
        let s0 = all_positions(m);
        let last = d0.len() as int;
        if small[at] || c0.len() == 0 {
            lemma_hold_more(g0, s0, last, at);
            let grown = c0.push(at);
            assert(g0.update(last, grown) =~= d0.push(grown));
            if !small[at] {
                assert(grown =~= seq![at]);
            }
            lemma_hold_with_empty(d0.push(grown), s0.push(at));
        } else {
            lemma_hold_new_group(g0, s0, at);
            lemma_hold_with_empty(g0.push(seq![at]), s0.push(at));
        }
    }
}

/// The positions of slots.
spec fn indices(order: Seq<Slot>) -> Seq<int> {
    Seq::new(order.len(), |i: int| order[i].index as int)
}

proof fn lemma_dealt_hold(order: Seq<Slot>, weights: Seq<u64>, size: nat, n: nat)
    requires
        size > 0,
        order.len() <= n * size,
        indices(order).no_duplicates(),
    ensures
        hold_once(dealt(order, weights, size, n), indices(order)),
    decreases order.len(),
{
    let g = dealt(order, weights, size, n);
    if order.len() == 0 {
        assert forall|x: int| #[trigger] in_groups(g, x) <==> indices(order).contains(x) by {}
    } else {
        let front = order.drop_last();
        assert(indices(front) =~= indices(order).drop_last());
        let x = order.last().index as int;
        assert(indices(order) =~= indices(front).push(x));
        assert(!indices(front).contains(x)) by {
            if indices(front).contains(x) {
                let i = choose|i: int| 0 <= i < front.len() && indices(front)[i] == x;
                assert(indices(order)[i] == indices(order)[order.len() - 1]);
            }
        }
        lemma_dealt_hold(front, weights, size, n);
        lemma_dealt(front, weights, size, n);
        let before = dealt(front, weights, size, n);
        lemma_someone_takes(before, weights, size);
        let k = choose|k: int| takes_next(before, weights, size, k);
        lemma_hold_more(before, indices(front), k, x);
    }
}

proof fn lemma_order_is_permutation(weights: Seq<u64>)
    requires
        weights.len() <= usize::MAX,
    ensures
        indices(order::ranked(slots(weights))).no_duplicates(),
        forall|x: int|
            #[trigger] indices(order::ranked(slots(weights))).contains(x) <==> all_positions(
                weights.len(),
            ).contains(x),
{
    let s = slots(weights);
    let r = order::ranked(s);
    order::lemma_ranked(s);
    s.to_multiset_ensures();
    r.to_multiset_ensures();
    assert(s.no_duplicates()) by {
        assert forall|i: int, j: int| 0 <= i < s.len() && 0 <= j < s.len() && i != j implies s[i]
            != s[j] by {
            assert(s[i].index == i && s[j].index == j);
        }
    }
    s.lemma_multiset_has_no_duplicates();
    assert forall|a: int, b: int|
        0 <= a < r.len() && 0 <= b < r.len() && a != b implies indices(r)[a] != indices(r)[b] by {
        lemma_slot_of_order(weights, r, a);
        lemma_slot_of_order(weights, r, b);
        if r[a].index == r[b].index {
            assert(r[a] == r[b]);
            lemma_twice_counts_twice(r, a, b);
            assert(s.to_multiset().contains(r[a]));
        }
    }
    assert forall|x: int| #[trigger] indices(r).contains(x) <==> all_positions(
        weights.len(),
    ).contains(x) by {
        if indices(r).contains(x) {
            let i = choose|i: int| 0 <= i < r.len() && indices(r)[i] == x;
            lemma_slot_of_order(weights, r, i);
            assert(all_positions(weights.len())[x] == x);
        }
        if all_positions(weights.len()).contains(x) {
            assert(s[x].index == x);
            assert(s.contains(s[x]));
            assert(s.to_multiset().count(s[x]) > 0);
            assert(r.contains(s[x]));
            let i = choose|i: int| 0 <= i < r.len() && r[i] == s[x];
            assert(indices(r)[i] == x);
        }
    }
}

proof fn lemma_twice_counts_twice(r: Seq<Slot>, a: int, b: int)
    requires
        0 <= a < r.len(),
        0 <= b < r.len(),
        a != b,
        r[a] == r[b],
    ensures
        r.to_multiset().count(r[a]) >= 2,
{
    let x = r[a];
    let hi = if a < b {
        b
    } else {
        a
    };
    let lo = if a < b {
        a
    } else {
        b
    };
    let rest = r.remove(hi);
    r.to_multiset_ensures();
    rest.to_multiset_ensures();
    assert(rest[lo] == x);
    assert(rest.contains(x));
    assert(rest.to_multiset().count(x) > 0);
    assert(rest.to_multiset() == r.to_multiset().remove(x));
}

/// Whatever the mode, unless the target runs as a whole, every test is in exactly
/// one group, at one place.
pub proof fn law_every_test_runs_once<T: Batchable>(mode: BatchMode, tests: Seq<T>)
    requires
        tests.len() <= usize::MAX,
        mode matches BatchMode::FixedChunk { size } ==> size.spec_get() > 0,
    ensures
        mode.groups(tests) is None <==> mode is Target,
        mode.groups(tests) matches Some(groups) ==> hold_once(groups, all_positions(tests.len())),
{
    match mode {
        BatchMode::PerTest => {
            lemma_singletons_hold(tests.len());
        },
        BatchMode::Target => {},
        BatchMode::DurationBucketed { p50_lt_ms } => {
            let small = small_of(tests, p50_lt_ms);
            lemma_buckets_hold(small, MAX_BATCH as nat, small.len());
            let (done, current) = buckets_upto(small, MAX_BATCH as nat, small.len());
            if current.len() == 0 {
                assert(current =~= Seq::empty());
                lemma_hold_with_empty(done, all_positions(tests.len()));
            }
        },
        BatchMode::FixedChunk { size } => {
            let w = weights_of(tests);
            let n = group_count(w.len(), size.spec_get() as nat);
            lemma_group_count(w.len(), size.spec_get() as nat);
            lemma_order_is_permutation(w);
            order::lemma_ranked(slots(w));
            let r = order::ranked(slots(w));
            lemma_dealt_hold(r, w, size.spec_get() as nat, n);
            let groups = mode.groups(tests)->0;
            assert forall|x: int| #[trigger] in_groups(groups, x) <==> all_positions(
                tests.len(),
            ).contains(x) by {
                assert(in_groups(groups, x) <==> indices(r).contains(x));
            }
        },
    }
}

/// A fixed-chunk batch has as few groups as the cap allows, and none is larger
/// than the cap.
pub proof fn law_chunks_respect_the_cap<T: Batchable>(size: NonZeroUsize, tests: Seq<T>)
    requires
        size.spec_get() > 0,
    ensures
        ({
            let groups = chunks(weights_of(tests), size.spec_get() as nat);
            &&& groups.len() == group_count(tests.len(), size.spec_get() as nat)
            &&& forall|k: int|
                0 <= k < groups.len() ==> (#[trigger] groups[k]).len() <= size.spec_get()
        }),
{
    let w = weights_of(tests);
    let cap = size.spec_get() as nat;
    lemma_group_count(w.len(), cap);
    order::lemma_ranked(slots(w));
    lemma_dealt(order::ranked(slots(w)), w, cap, group_count(w.len(), cap));
}

proof fn lemma_buckets_capped(small: Seq<bool>, max: nat, i: nat)
    requires
        max > 0,
    ensures
        ({
            let (done, current) = buckets_upto(small, max, i);
            &&& current.len() < max
            &&& forall|k: int| 0 <= k < done.len() ==> 1 <= (#[trigger] done[k]).len() <= max
        }),
    decreases i,
{
    if i > 0 {
        lemma_buckets_capped(small, max, (i - 1) as nat);
    }
}

/// A bucketed batch has no empty group and none above the cap.
pub proof fn law_buckets_respect_the_cap(small: Seq<bool>, max: nat)
    requires
        max > 0,
    ensures
        forall|k: int|
            0 <= k < buckets(small, max).len() ==> 1 <= (#[trigger] buckets(small, max)[k]).len()
                <= max,
{
    lemma_buckets_capped(small, max, small.len());
}

// ---------------------------------------------------------------------------
// Chunks of one.

proof fn lemma_dealt_is_full(groups: Seq<Seq<int>>)
    requires
        total_len(groups) >= groups.len(),
        forall|k: int| 0 <= k < groups.len() ==> (#[trigger] groups[k]).len() <= 1,
    ensures
        total_len(groups) == groups.len(),
        forall|k: int| 0 <= k < groups.len() ==> (#[trigger] groups[k]).len() == 1,
    decreases groups.len(),
{
    if groups.len() > 0 {
        let front = groups.drop_last();
        assert(groups[groups.len() - 1].len() <= 1);
        assert forall|k: int| 0 <= k < front.len() implies (#[trigger] front[k]).len() <= 1 by {
            assert(front[k] == groups[k]);
        }
        lemma_dealt_is_full(front);
        assert forall|k: int| 0 <= k < groups.len() implies (#[trigger] groups[k]).len() == 1 by {
            if k < front.len() {
                assert(front[k] == groups[k]);
            }
        }
    }
}

/// Groups of one that hold the same positions, each once, are the same groups.
proof fn lemma_ones_are_singletons(groups: Seq<Seq<int>>, n: nat)
    requires
        hold_once(groups, all_positions(n)),
        groups.len() == n,
        forall|k: int| 0 <= k < groups.len() ==> (#[trigger] groups[k]).len() == 1,
    ensures
        groups.to_multiset() == singletons(n).to_multiset(),
{
    let ones = singletons(n);
    groups.to_multiset_ensures();
    ones.to_multiset_ensures();
    assert(groups.no_duplicates()) by {
        assert forall|a: int, b: int|
            0 <= a < groups.len() && 0 <= b < groups.len() && a != b implies groups[a]
            != groups[b] by {
            assert(groups[a].len() == 1 && groups[b].len() == 1);
            if groups[a] == groups[b] {
                assert(groups[a][0] == groups[b][0]);
            }
        }
    }
    assert(ones.no_duplicates()) by {
        assert forall|a: int, b: int|
            0 <= a < ones.len() && 0 <= b < ones.len() && a != b implies ones[a] != ones[b] by {
            assert(ones[a][0] == a && ones[b][0] == b);
        }
    }
    groups.lemma_multiset_has_no_duplicates();
    ones.lemma_multiset_has_no_duplicates();
    assert forall|g: Seq<int>| groups.contains(g) <==> ones.contains(g) by {
        if groups.contains(g) {
            let k = choose|k: int| 0 <= k < groups.len() && groups[k] == g;
            assert(groups[k].len() == 1);
            assert(groups[k][0] == g[0]);
            assert(in_groups(groups, g[0]));
            assert(all_positions(n).contains(g[0]));
            assert(ones[g[0]] =~= g);
        }
        if ones.contains(g) {
            let x = choose|x: int| 0 <= x < ones.len() && ones[x] == g;
            assert(all_positions(n)[x] == x);
            assert(in_groups(groups, x));
            let (k, j) = choose|k: int, j: int|
                0 <= k < groups.len() && 0 <= j < groups[k].len() && #[trigger] groups[k][j] == x;
            assert(groups[k].len() == 1);
            assert(groups[k] =~= g);
        }
    }
    assert forall|g: Seq<int>| groups.to_multiset().count(g) == ones.to_multiset().count(g) by {
        assert(groups.contains(g) <==> groups.to_multiset().count(g) > 0);
        assert(ones.contains(g) <==> ones.to_multiset().count(g) > 0);
        if groups.contains(g) {
            assert(groups.to_multiset().contains(g));
            assert(ones.to_multiset().contains(g));
        }
    }
    assert(groups.to_multiset() =~= ones.to_multiset());
}

/// One action per test is a rearrangement of chunks of one: the same groups, in the
/// order of the tests. A target that runs as a whole has no groups.
pub proof fn law_single_tests_are_chunks_of_one<T: Batchable>(size: NonZeroUsize, tests: Seq<T>)
    requires
        size.spec_get() == 1,
        tests.len() <= usize::MAX,
    ensures
        BatchMode::PerTest.groups(tests) == Some(singletons(tests.len())),
        (BatchMode::FixedChunk { size }).groups(tests) matches Some(groups)
            && groups.to_multiset() == singletons(tests.len()).to_multiset(),
        BatchMode::Target.groups(tests) is None,
{
    let w = weights_of(tests);
    let n = group_count(w.len(), 1);
    assert(n == w.len());
    order::lemma_ranked(slots(w));
    let r = order::ranked(slots(w));
    lemma_dealt(r, w, 1, n);
    let groups = chunks(w, 1);
    law_every_test_runs_once(BatchMode::FixedChunk { size }, tests);
    lemma_dealt_is_full(groups);
    lemma_ones_are_singletons(groups, tests.len());
}

// ---------------------------------------------------------------------------
// Balance.

/// Whether groups are balanced: within each, weights do not grow, and none but for its
/// last test is heavier than a group with room.
pub open spec fn balanced(groups: Seq<Seq<int>>, weights: Seq<u64>, size: nat) -> bool {
    &&& forall|k: int, a: int, b: int|
        #![trigger groups[k][a], groups[k][b]]
        0 <= k < groups.len() && 0 <= a < b < groups[k].len() ==> weights[groups[k][a]]
            >= weights[groups[k][b]]
    &&& forall|i: int, j: int|
        #![trigger groups[i], groups[j]]
        0 <= i < groups.len() && 0 <= j < groups.len() && groups[i].len() > 0 && groups[j].len()
            < size ==> group_weight(groups[i].drop_last(), weights) <= group_weight(
            groups[j],
            weights,
        )
}

/// Whether every test in the groups is at least so heavy.
spec fn at_least(groups: Seq<Seq<int>>, weights: Seq<u64>, weight: u64) -> bool {
    forall|k: int, a: int|
        0 <= k < groups.len() && 0 <= a < groups[k].len() ==> weights[#[trigger] groups[k][a]]
            >= weight
}

proof fn lemma_dealt_balanced(order: Seq<Slot>, weights: Seq<u64>, size: nat, n: nat)
    requires
        size > 0,
        order.len() <= n * size,
        forall|t: int|
            0 <= t < order.len() ==> (#[trigger] order[t]).weight == weights[order[t].index as int],
        forall|s: int, t: int|
            0 <= s < t < order.len() ==> (#[trigger] order[s]).weight >= (#[trigger] order[t]).weight,
    ensures
        balanced(dealt(order, weights, size, n), weights, size),
        forall|weight: u64|
            (forall|t: int| 0 <= t < order.len() ==> (#[trigger] order[t]).weight >= weight)
                ==> #[trigger] at_least(dealt(order, weights, size, n), weights, weight),
    decreases order.len(),
{
    let g = dealt(order, weights, size, n);
    if order.len() > 0 {
        let front = order.drop_last();
        assert forall|t: int| 0 <= t < front.len() implies (#[trigger] front[t]).weight
            == weights[front[t].index as int] by {
            assert(front[t] == order[t]);
        }
        assert forall|s: int, t: int| 0 <= s < t < front.len() implies (#[trigger] front[s]).weight
            >= (#[trigger] front[t]).weight by {
            assert(front[s] == order[s] && front[t] == order[t]);
        }
        lemma_dealt_balanced(front, weights, size, n);
        lemma_dealt(front, weights, size, n);
        let before = dealt(front, weights, size, n);
        lemma_someone_takes(before, weights, size);
        let k = choose|k: int| takes_next(before, weights, size, k);
        let last = order[order.len() - 1];
        let x = last.index as int;
        assert(g == before.update(k, before[k].push(x)));
        assert(g[k].drop_last() =~= before[k]);
        assert(g[k].last() == x);
        assert(group_weight(g[k], weights) >= group_weight(before[k], weights));
        assert(at_least(before, weights, last.weight)) by {
            assert forall|t: int| 0 <= t < front.len() implies (#[trigger] front[t]).weight
                >= last.weight by {
                assert(front[t] == order[t]);
            }
        }
        assert forall|q: int, a: int, b: int|
            #![trigger g[q][a], g[q][b]]
            0 <= q < g.len() && 0 <= a < b < g[q].len() implies weights[g[q][a]]
            >= weights[g[q][b]] by {
            assert(before[q][a] == g[q][a]);
            if q == k && b == before[k].len() {
                assert(weights[before[q][a]] >= last.weight);
            } else {
                assert(before[q][b] == g[q][b]);
            }
        }
        assert forall|i: int, j: int|
            #![trigger g[i], g[j]]
            0 <= i < g.len() && 0 <= j < g.len() && g[i].len() > 0 && g[j].len()
                < size implies group_weight(g[i].drop_last(), weights) <= group_weight(
            g[j],
            weights,
        ) by {
            assert(before[j].len() < size);
            if i == k {
                assert(group_weight(before[k], weights) <= group_weight(before[j], weights));
            } else {
                assert(g[i] == before[i]);
                assert(group_weight(before[i].drop_last(), weights) <= group_weight(
                    before[j],
                    weights,
                ));
            }
            if j != k {
                assert(g[j] == before[j]);
            }
        }
        assert forall|weight: u64|
            (forall|t: int| 0 <= t < order.len() ==> (#[trigger] order[t]).weight
                >= weight) implies #[trigger] at_least(g, weights, weight) by {
            assert forall|t: int| 0 <= t < front.len() implies (#[trigger] front[t]).weight
                >= weight by {
                assert(front[t] == order[t]);
            }
            assert(at_least(before, weights, weight));
            assert(last.weight >= weight);
            assert forall|q: int, a: int| 0 <= q < g.len() && 0 <= a < g[q].len() implies weights[
            #[trigger] g[q][a]] >= weight by {
                if q == k && a == before[k].len() {
                } else {
                    assert(before[q][a] == g[q][a]);
                }
            }
        }
    }
}

/// Chunks are balanced: within each, weights do not grow, and a chunk without its last
/// test is at most as heavy as any chunk with room.
pub proof fn law_chunks_are_balanced<T: Batchable>(size: NonZeroUsize, tests: Seq<T>)
    requires
        size.spec_get() > 0,
        tests.len() <= usize::MAX,
    ensures
        (BatchMode::FixedChunk { size }).groups(tests) matches Some(groups) && balanced(
            groups,
            weights_of(tests),
            size.spec_get() as nat,
        ),
{
    let w = weights_of(tests);
    let cap = size.spec_get() as nat;
    let n = group_count(w.len(), cap);
    lemma_group_count(w.len(), cap);
    order::lemma_ranked(slots(w));
    let r = order::ranked(slots(w));
    assert forall|t: int| 0 <= t < r.len() implies (#[trigger] r[t]).weight
        == w[r[t].index as int] by {
        lemma_slot_of_order(w, r, t);
    }
    let leq = |a: Slot, b: Slot| a.ranks(b);
    assert forall|s: int, t: int| 0 <= s < t < r.len() implies (#[trigger] r[s]).weight >= (
    #[trigger] r[t]).weight by {
        assert(leq(r[s], r[t]));
    }
    lemma_dealt_balanced(r, w, cap, n);
}

/// The total weight of the first `n` members of a group.
pub open spec fn load(group: Seq<int>, weights: Seq<u64>, n: nat) -> nat
    decreases n,
{
    if n == 0 {
        0
    } else {
        load(group, weights, (n - 1) as nat) + weights[group[n - 1]] as nat
    }
}

/// Whether test `x` is handed out before test `y`: it is heavier, or as heavy and
/// earlier in the list.
pub open spec fn ahead(weights: Seq<u64>, x: int, y: int) -> bool {
    weights[x] > weights[y] || (weights[x] == weights[y] && x < y)
}

/// Whether exactly the first `b` members of a group are handed out before test `x`.
pub open spec fn stand_ahead(group: Seq<int>, weights: Seq<u64>, x: int, b: int) -> bool {
    0 <= b <= group.len() && forall|i: int|
        0 <= i < group.len() ==> (i < b <==> ahead(weights, #[trigger] group[i], x))
}

/// Whether every test went to the lightest group with room when its turn came, the
/// earlier one of equally light groups: the weights are those of the members that
/// were handed out before it.
pub open spec fn dealt_to_the_lightest(
    groups: Seq<Seq<int>>,
    weights: Seq<u64>,
    size: nat,
) -> bool {
    &&& forall|k: int, a: int, b: int|
        #![trigger groups[k][a], groups[k][b]]
        0 <= k < groups.len() && 0 <= a < b < groups[k].len() ==> ahead(
            weights,
            groups[k][a],
            groups[k][b],
        )
    &&& forall|k: int, a: int, j: int, b: int|
        #![trigger groups[k][a], stand_ahead(groups[j], weights, groups[k][a], b)]
        0 <= k < groups.len() && 0 <= a < groups[k].len() && 0 <= j < groups.len() && stand_ahead(
            groups[j],
            weights,
            groups[k][a],
            b,
        ) && b < size ==> {
            let mine = load(groups[k], weights, a as nat);
            let theirs = load(groups[j], weights, b as nat);
            mine < theirs || (mine == theirs && k <= j)
        }
}

proof fn lemma_load_is_weight(group: Seq<int>, weights: Seq<u64>, n: nat)
    requires
        n <= group.len(),
    ensures
        load(group, weights, n) == group_weight(group.take(n as int), weights),
    decreases n,
{
    if n > 0 {
        lemma_load_is_weight(group, weights, (n - 1) as nat);
        assert(group.take(n as int).drop_last() =~= group.take(n - 1));
    }
}

proof fn lemma_load_of_more(group: Seq<int>, x: int, weights: Seq<u64>, n: nat)
    requires
        n <= group.len(),
    ensures
        load(group.push(x), weights, n) == load(group, weights, n),
    decreases n,
{
    if n > 0 {
        lemma_load_of_more(group, x, weights, (n - 1) as nat);
    }
}

proof fn lemma_dealt_to_the_lightest(order: Seq<Slot>, weights: Seq<u64>, size: nat, n: nat)
    requires
        size > 0,
        order.len() <= n * size,
        forall|s: int, t: int|
            0 <= s < t < order.len() ==> ahead(
                weights,
                (#[trigger] order[s]).index as int,
                (#[trigger] order[t]).index as int,
            ),
    ensures
        dealt_to_the_lightest(dealt(order, weights, size, n), weights, size),
        forall|k: int, a: int|
            #![trigger dealt(order, weights, size, n)[k][a]]
            0 <= k < n && 0 <= a < dealt(order, weights, size, n)[k].len() ==> exists|t: int|
                0 <= t < order.len() && (#[trigger] order[t]).index == dealt(
                    order,
                    weights,
                    size,
                    n,
                )[k][a],
    decreases order.len(),
{
    let g = dealt(order, weights, size, n);
    if order.len() > 0 {
        let front = order.drop_last();
        assert forall|s: int, t: int| 0 <= s < t < front.len() implies ahead(
            weights,
            (#[trigger] front[s]).index as int,
            (#[trigger] front[t]).index as int,
        ) by {
            assert(front[s] == order[s] && front[t] == order[t]);
        }
        lemma_dealt_to_the_lightest(front, weights, size, n);
        lemma_dealt(front, weights, size, n);
        let before = dealt(front, weights, size, n);
        lemma_someone_takes(before, weights, size);
        let q = choose|k: int| takes_next(before, weights, size, k);
        let last = order[order.len() - 1];
        let x = last.index as int;
        assert(g == before.update(q, before[q].push(x)));
        assert forall|k: int, a: int| 0 <= k < n && 0 <= a < before[k].len() implies ahead(
            weights,
            #[trigger] before[k][a],
            x,
        ) by {
            let t = choose|t: int|
                0 <= t < front.len() && (#[trigger] front[t]).index == before[k][a];
            assert(order[t] == front[t]);
        }
        assert forall|k: int, a: int|
            #![trigger g[k][a]]
            0 <= k < n && 0 <= a < g[k].len() implies exists|t: int|
            0 <= t < order.len() && (#[trigger] order[t]).index == g[k][a] by {
            if k == q && a == before[q].len() {
                assert(order[order.len() - 1].index == g[k][a]);
            } else {
                assert(before[k][a] == g[k][a]);
                let t = choose|t: int|
                    0 <= t < front.len() && (#[trigger] front[t]).index == before[k][a];
                assert(order[t] == front[t]);
            }
        }
        assert forall|k: int, a: int, b: int|
            #![trigger g[k][a], g[k][b]]
            0 <= k < g.len() && 0 <= a < b < g[k].len() implies ahead(
            weights,
            g[k][a],
            g[k][b],
        ) by {
            assert(before[k][a] == g[k][a]);
            if k == q && b == before[q].len() {
            } else {
                assert(before[k][b] == g[k][b]);
            }
        }
        assert forall|k: int, a: int, j: int, b: int|
            #![trigger g[k][a], stand_ahead(g[j], weights, g[k][a], b)]
            0 <= k < g.len() && 0 <= a < g[k].len() && 0 <= j < g.len() && stand_ahead(
                g[j],
                weights,
                g[k][a],
                b,
            ) && b < size implies ({
            let mine = load(g[k], weights, a as nat);
            let theirs = load(g[j], weights, b as nat);
            mine < theirs || (mine == theirs && k <= j)
        }) by {
            if k == q && a == before[q].len() {
                // The test handed out last: all others stand ahead of it.
                assert(b == before[j].len()) by {
                    if b < before[j].len() {
                        assert(g[j][b] == before[j][b]);
                        assert(ahead(weights, before[j][b], x));
                    }
                    if b > before[j].len() {
                        assert(j == q && g[j][before[j].len() as int] == x);
                    }
                }
                lemma_load_of_more(before[q], x, weights, before[q].len());
                if j == q {
                    assert(load(g[j], weights, b as nat) == load(before[j], weights, b as nat));
                } else {
                    assert(g[j] == before[j]);
                }
                lemma_load_is_weight(before[q], weights, before[q].len());
                lemma_load_is_weight(before[j], weights, before[j].len());
                assert(before[q].take(before[q].len() as int) =~= before[q]);
                assert(before[j].take(before[j].len() as int) =~= before[j]);
                assert(before[j].len() < size);
            } else {
                let y = g[k][a];
                assert(before[k][a] == y);
                assert(ahead(weights, y, x));
                if j == q {
                    assert(b <= before[q].len()) by {
                        if b > before[q].len() {
                            assert(ahead(weights, g[j][before[q].len() as int], y));
                            assert(g[j][before[q].len() as int] == x);
                        }
                    }
                    assert(stand_ahead(before[j], weights, y, b)) by {
                        assert forall|i: int| 0 <= i < before[j].len() implies (i < b <==> ahead(
                            weights,
                            #[trigger] before[j][i],
                            y,
                        )) by {
                            assert(g[j][i] == before[j][i]);
                        }
                    }
                    lemma_load_of_more(before[q], x, weights, b as nat);
                } else {
                    assert(g[j] == before[j]);
                    assert(stand_ahead(before[j], weights, y, b));
                }
                if k == q {
                    lemma_load_of_more(before[q], x, weights, a as nat);
                }
                assert(stand_ahead(before[j], weights, before[k][a], b));
            }
        }
    }
}

/// Fixed chunks are dealt: heaviest test first, each to the lightest group with
/// room, over as few groups as the cap allows.
pub proof fn law_chunks_are_dealt_heaviest_first<T: Batchable>(size: NonZeroUsize, tests: Seq<T>)
    requires
        size.spec_get() > 0,
        tests.len() <= usize::MAX,
    ensures
        (BatchMode::FixedChunk { size }).groups(tests) matches Some(groups) && {
            &&& hold_once(groups, Seq::new(tests.len(), |i: int| i))
            &&& dealt_to_the_lightest(
                groups,
                Seq::new(tests.len(), |i: int| tests[i].spec_weight_ms()),
                size.spec_get() as nat,
            )
            &&& forall|k: int|
                0 <= k < groups.len() ==> (#[trigger] groups[k]).len() <= size.spec_get()
            &&& groups.len() * size.spec_get() >= tests.len()
            &&& tests.len() > 0 ==> (groups.len() - 1) * size.spec_get() < tests.len()
            &&& tests.len() == 0 ==> groups.len() == 0
        },
{
    let w = weights_of(tests);
    assert(w =~= Seq::new(tests.len(), |i: int| tests[i].spec_weight_ms()));
    let cap = size.spec_get() as nat;
    let n = group_count(w.len(), cap);
    lemma_group_count(w.len(), cap);
    law_every_test_runs_once(BatchMode::FixedChunk { size }, tests);
    law_chunks_respect_the_cap(size, tests);
    order::lemma_ranked(slots(w));
    let r = order::ranked(slots(w));
    lemma_order_is_permutation(w);
    let leq = |a: Slot, b: Slot| a.ranks(b);
    assert forall|s: int, t: int| 0 <= s < t < r.len() implies ahead(
        w,
        (#[trigger] r[s]).index as int,
        (#[trigger] r[t]).index as int,
    ) by {
        lemma_slot_of_order(w, r, s);
        lemma_slot_of_order(w, r, t);
        assert(leq(r[s], r[t]));
        assert(indices(r)[s] != indices(r)[t]);
    }
    lemma_dealt_to_the_lightest(r, w, cap, n);
    let m = tests.len() + cap - 1;
    vstd::arithmetic::div_mod::lemma_fundamental_div_mod(m, cap as int);
    vstd::arithmetic::div_mod::lemma_mod_bound(m, cap as int);
    vstd::arithmetic::div_mod::lemma_div_pos_is_pos(m, cap as int);
    assert(cap * n == n * cap) by (nonlinear_arith);
    assert((n - 1) * cap == n * cap - cap) by (nonlinear_arith);
}

proof fn lemma_buckets_join(small: Seq<bool>, max: nat, i: nat)
    requires
        max > 0,
        i <= small.len(),
    ensures
        ({
            let (done, current) = buckets_upto(small, max, i);
            &&& done.flatten_alt() + current == Seq::new(i, |p: int| p)
            &&& forall|k: int, a: int|
                0 <= k < done.len() && 0 <= a < done[k].len() && done[k].len() > 1
                    ==> small[#[trigger] done[k][a]]
            &&& forall|a: int| 0 <= a < current.len() ==> small[#[trigger] current[a]]
            &&& forall|k: int|
                0 < k < done.len() ==> parted(small, max, done[k - 1], #[trigger] done[k])
            &&& done.len() > 0 && current.len() > 0 ==> parted(small, max, done.last(), current)
            &&& done.len() > 0 && current.len() == 0 ==> done.last().len() == max
                || !small[done.last().last()]
        }),
    decreases i,
{
    if i == 0 {
        let (done, current) = buckets_upto(small, max, i);
        assert(done.flatten_alt() + current =~= Seq::new(i, |p: int| p));
    } else {
        let m = (i - 1) as nat;
        let at = m as int;
        lemma_buckets_join(small, max, m);
        lemma_buckets_capped(small, max, m);
        let (d0, c0) = buckets_upto(small, max, m);
        let (done, current) = buckets_upto(small, max, i);
        let before = Seq::new(m, |p: int| p);
        let all = Seq::new(i, |p: int| p);
        assert(all =~= before.push(at));
        let grown = c0.push(at);
        assert(d0.flatten_alt() + grown =~= all) by {
            assert(d0.flatten_alt() + grown =~= (d0.flatten_alt() + c0).push(at));
        }
        assert(d0.push(grown).drop_last() =~= d0);
        assert(d0.push(grown).flatten_alt() == d0.flatten_alt() + grown);
        assert(d0.push(c0).drop_last() =~= d0);
        assert(d0.push(c0).flatten_alt() == d0.flatten_alt() + c0);
        assert(d0.push(c0).push(seq![at]).drop_last() =~= d0.push(c0));
        assert(d0.push(c0).push(seq![at]).flatten_alt() == d0.push(c0).flatten_alt() + seq![at]);
        if small[at] {
            assert(parted(small, max, d0.last(), grown) || d0.len() == 0) by {
                if d0.len() > 0 && c0.len() > 0 {
                    assert(grown[0] == c0[0]);
                }
            }
            if grown.len() >= max {
                assert(done.flatten_alt() + current =~= all);
                assert forall|k: int| 0 < k < done.len() implies parted(
                    small,
                    max,
                    done[k - 1],
                    #[trigger] done[k],
                ) by {
                    if k < d0.len() {
                        assert(done[k] == d0[k] && done[k - 1] == d0[k - 1]);
                    }
                }
            }
        } else if c0.len() > 0 {
            assert(done.flatten_alt() + current =~= all);
            assert forall|k: int| 0 < k < done.len() implies parted(
                small,
                max,
                done[k - 1],
                #[trigger] done[k],
            ) by {
                if k < d0.len() {
                    assert(done[k] == d0[k] && done[k - 1] == d0[k - 1]);
                } else if k == d0.len() {
                    assert(done[k] == c0 && done[k - 1] == d0[k - 1]);
                }
            }
        } else {
            assert(grown =~= seq![at]);
            assert(done.flatten_alt() + current =~= all);
            assert forall|k: int| 0 < k < done.len() implies parted(
                small,
                max,
                done[k - 1],
                #[trigger] done[k],
            ) by {
                if k < d0.len() {
                    assert(done[k] == d0[k] && done[k - 1] == d0[k - 1]);
                }
            }
        }
    }
}

spec fn parted(small: Seq<bool>, max: nat, a: Seq<int>, b: Seq<int>) -> bool {
    a.len() < max ==> !(small[a.last()] && small[b[0]])
}

/// Whether `groups` are the tests in buckets by typical duration: the groups, one
/// after the other, are the tests in their order; none is empty or holds more than
/// 64 tests; a test that typically takes `p50_lt_ms` or more stands alone; and a
/// quicker test right behind another one shares its group, unless that group is
/// full.
pub open spec fn bucketed_by_p50<T: Batchable>(
    groups: Seq<Seq<int>>,
    tests: Seq<T>,
    p50_lt_ms: u64,
) -> bool {
    &&& groups.flatten() == Seq::new(tests.len(), |i: int| i)
    &&& forall|k: int| 0 <= k < groups.len() ==> 1 <= (#[trigger] groups[k]).len() <= 64
    &&& forall|k: int, a: int|
        0 <= k < groups.len() && 0 <= a < groups[k].len() && tests[#[trigger] groups[k][a]].spec_p50_ms()
            >= p50_lt_ms ==> groups[k].len() == 1
    &&& forall|k: int|
        0 < k < groups.len() && groups[k - 1].len() < 64 ==> tests[groups[k
            - 1].last()].spec_p50_ms() >= p50_lt_ms || tests[(#[trigger] groups[k])[0]].spec_p50_ms()
            >= p50_lt_ms
}

/// Buckets go by the typical duration of the tests.
pub proof fn law_buckets_go_by_typical_duration<T: Batchable>(p50_lt_ms: u64, tests: Seq<T>)
    requires
        tests.len() <= usize::MAX,
    ensures
        (BatchMode::DurationBucketed { p50_lt_ms }).groups(tests) matches Some(groups)
            && bucketed_by_p50(groups, tests, p50_lt_ms),
{
    let small = small_of(tests, p50_lt_ms);
    let max = MAX_BATCH as nat;
    let groups = (BatchMode::DurationBucketed { p50_lt_ms }).groups(tests)->0;
    lemma_buckets_join(small, max, small.len());
    law_buckets_respect_the_cap(small, max);
    law_every_test_runs_once(BatchMode::DurationBucketed { p50_lt_ms }, tests);
    let (done, current) = buckets_upto(small, max, small.len());
    groups.lemma_flatten_and_flatten_alt_are_equivalent();
    if current.len() > 0 {
        assert(groups.drop_last() =~= done);
    } else {
        assert(done.flatten_alt() + current =~= done.flatten_alt());
    }
    assert forall|k: int, a: int|
        0 <= k < groups.len() && 0 <= a < groups[k].len() implies 0 <= #[trigger] groups[k][a]
        < tests.len() by {
        assert(in_groups(groups, groups[k][a]));
        assert(all_positions(tests.len()).contains(groups[k][a]));
    }
    assert forall|k: int, a: int|
        0 <= k < groups.len() && 0 <= a < groups[k].len() && tests[#[trigger] groups[k][a]].spec_p50_ms()
            >= p50_lt_ms implies groups[k].len() == 1 by {
        assert(!small[groups[k][a]]);
        if k < done.len() {
            assert(done[k] == groups[k]);
        } else {
            assert(current == groups[k]);
        }
    }
    assert forall|k: int|
        0 < k < groups.len() && groups[k - 1].len() < 64 implies tests[groups[k
        - 1].last()].spec_p50_ms() >= p50_lt_ms || tests[(#[trigger] groups[k])[0]].spec_p50_ms()
        >= p50_lt_ms by {
        assert(parted(small, max, groups[k - 1], groups[k])) by {
            if k < done.len() {
                assert(done[k] == groups[k] && done[k - 1] == groups[k - 1]);
            }
        }
        let a = groups[k - 1][groups[k - 1].len() - 1];
        let b = groups[k][0];
        assert(small[a] == (tests[a].spec_p50_ms() < p50_lt_ms));
        assert(small[b] == (tests[b].spec_p50_ms() < p50_lt_ms));
    }
}

/// The slots in order: each weight of its position, each position once.
pub proof fn lemma_ranked_slots(weights: Seq<u64>)
    requires
        weights.len() <= usize::MAX,
    ensures
        order::ranked(slots(weights)).len() == weights.len(),
        forall|t: int|
            0 <= t < weights.len() ==> (#[trigger] order::ranked(slots(weights))[t]).index
                < weights.len() && order::ranked(slots(weights))[t].weight
                == weights[order::ranked(slots(weights))[t].index as int],
        forall|s: int, t: int|
            0 <= s < t < weights.len() ==> (#[trigger] order::ranked(slots(weights))[s]).index != (
            #[trigger] order::ranked(slots(weights))[t]).index,
{
    let r = order::ranked(slots(weights));
    order::lemma_ranked(slots(weights));
    lemma_order_is_permutation(weights);
    assert forall|t: int| 0 <= t < weights.len() implies (#[trigger] r[t]).index < weights.len()
        && r[t].weight == weights[r[t].index as int] by {
        lemma_slot_of_order(weights, r, t);
    }
    assert forall|s: int, t: int| 0 <= s < t < weights.len() implies (#[trigger] r[s]).index != (
    #[trigger] r[t]).index by {
        assert(indices(r)[s] != indices(r)[t]);
    }
}

} // verus!
