//! Which tests stand together, in which order, and on which shard.

use vstd::prelude::*;
use vstd::utf8::*;

use crate::batching::{self, BatchMode, Batchable, Batcher, TestSelection};
use crate::cli::RunnerConfig;
use crate::duration_db::{self, DurationDb, DurationEstimate};
use crate::execution::fnv1a;
use crate::laws::history::{estimates_test, is_estimate, lemma_estimate, recorded};
use crate::listing::TestCase;
use crate::order;
use crate::scheduler::batches::{
    self, batches_from, build_batches, effective_batch_mode, shard_filter, BatchInput,
};
use crate::translator::DemuxCapability;

verus! {

/// Whether groups of tests are those of a batch mode.
pub open spec fn are_groups<T: Batchable>(
    mode: BatchMode,
    tests: Seq<T>,
    groups: Seq<Seq<int>>,
) -> bool {
    match mode {
        BatchMode::PerTest => groups == Seq::new(tests.len(), |i: int| seq![i]),
        BatchMode::DurationBucketed { p50_lt_ms } => batching::bucketed_by_p50(
            groups,
            tests,
            p50_lt_ms,
        ),
        BatchMode::FixedChunk { size } => {
            &&& batching::hold_once(groups, Seq::new(tests.len(), |i: int| i))
            &&& batching::dealt_to_the_lightest(
                groups,
                Seq::new(tests.len(), |i: int| tests[i].spec_weight_ms()),
                size.spec_get() as nat,
            )
            &&& forall|k: int|
                0 <= k < groups.len() ==> (#[trigger] groups[k]).len() <= size.spec_get()
            &&& groups.len() * size.spec_get() >= tests.len()
            &&& tests.len() > 0 ==> (groups.len() - 1) * size.spec_get() < tests.len()
            &&& tests.len() == 0 ==> groups.len() == 0
        },
        BatchMode::Target => false,
    }
}

proof fn lemma_groups<T: Batchable>(mode: BatchMode, tests: Seq<T>)
    requires
        tests.len() <= usize::MAX,
        mode matches BatchMode::FixedChunk { size } ==> size.spec_get() > 0,
    ensures
        mode is Target <==> mode.groups(tests) is None,
        mode.groups(tests) matches Some(groups) ==> are_groups(mode, tests, groups),
{
    match mode {
        BatchMode::PerTest => {
            assert(mode.groups(tests)->0 =~= Seq::new(tests.len(), |i: int| seq![i]));
        },
        BatchMode::DurationBucketed { p50_lt_ms } => {
            batching::law_buckets_go_by_typical_duration(p50_lt_ms, tests);
        },
        BatchMode::FixedChunk { size } => {
            batching::law_chunks_are_dealt_heaviest_first(size, tests);
        },
        BatchMode::Target => {},
    }
}

/// A partition hands out the groups of its mode, each as copies of its tests; a
/// target that runs as a whole is one action that names no test.
pub proof fn law_a_partition_has_the_groups_of_its_mode<T: Batchable>(
    mode: BatchMode,
    tests: &[T],
    r: Vec<TestSelection<T>>,
)
    requires
        call_ensures(<BatchMode as Batcher<T>>::partition, (&mode, tests), r),
        mode matches BatchMode::FixedChunk { size } ==> size.spec_get() > 0,
    ensures
        mode is Target ==> r@.len() == 1 && r@[0] is All,
        !(mode is Target) ==> exists|groups: Seq<Seq<int>>|
            #![trigger are_groups(mode, tests@, groups)]
            are_groups(mode, tests@, groups) && r@.len() == groups.len() && forall|k: int, j: int|
                #![trigger groups[k][j]]
                0 <= k < groups.len() ==> r@[k] is Explicit && r@[k]->Explicit_0@.len()
                    == groups[k].len() && (0 <= j < groups[k].len() ==> cloned::<T>(
                    tests@[groups[k][j]],
                    r@[k]->Explicit_0@[j],
                )),
{
    assert(tests.len() == tests@.len());
    lemma_groups(mode, tests@);
    if !(mode is Target) {
        let groups = mode.groups(tests@)->0;
        assert(are_groups(mode, tests@, groups));
        assert forall|k: int, j: int|
            #![trigger groups[k][j]]
            0 <= k < groups.len() implies r@[k] is Explicit && r@[k]->Explicit_0@.len()
            == groups[k].len() && (0 <= j < groups[k].len() ==> cloned::<T>(
            tests@[groups[k][j]],
            r@[k]->Explicit_0@[j],
        )) by {
            assert(batching::selects_group(tests@, groups[k], r@[k]));
        }
    }
}

/// What the history says of a test counts for batching as its p95, or as 50 ms where
/// it has not run; its typical duration is the p50, or nothing.
pub proof fn law_tests_weigh_their_p95(input: BatchInput)
    ensures
        input.estimate matches DurationEstimate::Measured { p50_ms, p95_ms }
            ==> input.spec_weight_ms() == p95_ms && input.spec_p50_ms() == p50_ms,
        input.estimate is Unseen ==> input.spec_weight_ms() == 50 && input.spec_p50_ms() == 0,
{
}

/// How long a test is expected to run, in milliseconds.
pub open spec fn expected_ms(estimate: DurationEstimate) -> u64 {
    match estimate {
        DurationEstimate::Measured { p50_ms, p95_ms } => p95_ms,
        DurationEstimate::Unseen => 50,
    }
}

/// Whether `longest` is the longest expected run among the tests of a group.
pub open spec fn is_longest(
    group: Seq<int>,
    estimates: Seq<DurationEstimate>,
    longest: u64,
) -> bool {
    &&& forall|a: int|
        0 <= a < group.len() ==> expected_ms(estimates[#[trigger] group[a]]) <= longest
    &&& longest > 0 ==> exists|a: int|
        0 <= a < group.len() && expected_ms(estimates[#[trigger] group[a]]) == longest
}

/// Whether group `i` is to run before group `j`: it holds the longer test, or one as
/// long and it comes first.
pub open spec fn runs_before(
    groups: Seq<Seq<int>>,
    estimates: Seq<DurationEstimate>,
    i: int,
    j: int,
) -> bool {
    exists|a: u64, b: u64|
        #![trigger is_longest(groups[i], estimates, a), is_longest(groups[j], estimates, b)]
        is_longest(groups[i], estimates, a) && is_longest(groups[j], estimates, b) && (a > b || (a
            == b && i < j))
}

/// Whether `order` names each of the first `n` numbers once.
pub open spec fn is_permutation(order: Seq<int>, n: nat) -> bool {
    &&& order.len() == n
    &&& forall|i: int| 0 <= i < n ==> 0 <= #[trigger] order[i] < n
    &&& forall|i: int, j: int| 0 <= i < j < n ==> #[trigger] order[i] != #[trigger] order[j]
}

/// Whether a batch names the tests of a group, in order.
pub open spec fn names_group(
    tests: Seq<TestCase>,
    group: Seq<int>,
    batch: TestSelection<String>,
) -> bool {
    batch matches TestSelection::Explicit(names) && names@.len() == group.len() && forall|a: int|
        0 <= a < group.len() ==> (#[trigger] names@[a])@ == tests[group[a]].name@
}

proof fn lemma_heaviest_is_longest(
    group: Seq<int>,
    estimates: Seq<DurationEstimate>,
    n: nat,
)
    requires
        n <= group.len(),
    ensures
        is_longest(group.take(n as int), estimates, batches::heaviest(group, estimates, n)),
    decreases n,
{
    if n > 0 {
        lemma_heaviest_is_longest(group, estimates, (n - 1) as nat);
        let before = group.take(n - 1);
        let now = group.take(n as int);
        let most = batches::heaviest(group, estimates, n);
        assert forall|a: int| 0 <= a < now.len() implies expected_ms(
            estimates[#[trigger] now[a]],
        ) <= most by {
            if a < n - 1 {
                assert(now[a] == before[a]);
            }
        }
        if most > 0 {
            if expected_ms(estimates[group[n - 1]]) == most {
                assert(now[n - 1] == group[n - 1]);
            } else {
                let a = choose|a: int|
                    0 <= a < before.len() && expected_ms(estimates[#[trigger] before[a]]) == most;
                assert(now[a] == before[a]);
            }
        }
    }
}

/// Whether batches are the groups of their mode, by what is known of the tests, and the
/// group with the longest test runs first. A target that runs as a whole is one batch; on a
/// shard that batch names every test.
pub open spec fn run_longest_first(
    tests: Seq<TestCase>,
    estimates: Seq<DurationEstimate>,
    mode: BatchMode,
    sharded: bool,
    r: Seq<TestSelection<String>>,
) -> bool {
    &&& mode is Target && !sharded ==> r.len() == 1 && r[0] is All
    &&& mode is Target && sharded ==> r.len() == 1 && names_group(
        tests,
        Seq::new(tests.len(), |i: int| i),
        r[0],
    )
    &&& !(mode is Target) ==> exists|
        inputs: Seq<BatchInput>,
        groups: Seq<Seq<int>>,
        order: Seq<int>,
    |
        #![trigger are_groups(mode, inputs, groups), is_permutation(order, groups.len())]
        {
            &&& inputs.len() == estimates.len()
            &&& forall|i: int|
                0 <= i < inputs.len() ==> (#[trigger] inputs[i]).estimate == estimates[i]
            &&& are_groups(mode, inputs, groups)
            &&& is_permutation(order, groups.len())
            &&& r.len() == groups.len()
            &&& forall|k: int|
                0 <= k < r.len() ==> names_group(tests, groups[order[k]], #[trigger] r[k])
            &&& forall|i: int, j: int|
                0 <= i < j < order.len() ==> runs_before(
                    groups,
                    estimates,
                    #[trigger] order[i],
                    #[trigger] order[j],
                )
        }
}

proof fn lemma_batches(
    tests: Seq<TestCase>,
    estimates: Seq<DurationEstimate>,
    mode: BatchMode,
    sharded: bool,
    r: Seq<TestSelection<String>>,
)
    requires
        batches::are_batches(mode, sharded, tests, estimates, r),
        mode matches BatchMode::FixedChunk { size } ==> size.spec_get() > 0,
        estimates.len() == tests.len(),
        tests.len() <= usize::MAX,
        r.len() <= usize::MAX,
    ensures
        run_longest_first(tests, estimates, mode, sharded, r),
{
    let inputs = batches::inputs_of(estimates);
    let s = batches::selections(mode, sharded, estimates);
    lemma_groups(mode, inputs);
    batching::law_every_test_runs_once(mode, inputs);
    if mode is Target {
        assert(s.len() == 1);
        lemma_running_order(s, estimates);
        let ranked = batches::running_order(s, estimates);
        let positions = Seq::new(s.len(), |k: int| ranked[k].index as int);
        assert(0 <= positions[0] < 1);
        assert(ranked[0].index == 0);
        assert(batches::names_selection(tests, s[ranked[0].index as int], r[0]));
        if sharded {
            let every = Seq::new(tests.len(), |i: int| i);
            assert(every =~= batching::all_positions(tests.len()));
        }
    } else {
        let groups = mode.groups(inputs)->0;
        order::lemma_ranked(batching::slots(batches::selection_weights(s, estimates)));
        assert(r.len() == s.len());
        lemma_running_order(s, estimates);
        let ranked = batches::running_order(s, estimates);
        let order = Seq::new(groups.len(), |k: int| ranked[k].index as int);
        assert(is_permutation(order, groups.len()));
        assert forall|k: int| 0 <= k < r.len() implies names_group(
            tests,
            groups[order[k]],
            #[trigger] r[k],
        ) by {
            assert(batches::names_selection(tests, s[ranked[k].index as int], r[k]));
            assert(s[order[k]] == Some(groups[order[k]]));
        }
        assert forall|i: int, j: int| 0 <= i < j < order.len() implies runs_before(
            groups,
            estimates,
            #[trigger] order[i],
            #[trigger] order[j],
        ) by {
            let (x, y) = (order[i], order[j]);
            assert(ranked[i].index == x && ranked[j].index == y);
            assert(s[x] == Some(groups[x]) && s[y] == Some(groups[y]));
            lemma_heaviest_is_longest(groups[x], estimates, groups[x].len());
            lemma_heaviest_is_longest(groups[y], estimates, groups[y].len());
            assert(groups[x].take(groups[x].len() as int) =~= groups[x]);
            assert(groups[y].take(groups[y].len() as int) =~= groups[y]);
            assert(is_longest(groups[x], estimates, ranked[i].weight));
            assert(is_longest(groups[y], estimates, ranked[j].weight));
        }
        assert(are_groups(mode, inputs, groups));
    }
}

/// Batches are the groups of their mode, by what is known of the tests, and the group
/// with the longest test runs first.
pub proof fn law_batches_run_longest_first(
    tests: &[TestCase],
    estimates: &[DurationEstimate],
    mode: BatchMode,
    sharded: bool,
    r: Vec<TestSelection<String>>,
)
    requires
        call_ensures(batches_from, (tests, estimates, mode, sharded), r),
        mode matches BatchMode::FixedChunk { size } ==> size.spec_get() > 0,
        estimates@.len() == tests@.len(),
    ensures
        run_longest_first(tests@, estimates@, mode, sharded, r@),
{
    assert(tests.len() == tests@.len());
    assert(r.len() == r@.len());
    lemma_batches(tests@, estimates@, mode, sharded, r@);
}

/// The batches of a target are those of its mode, by the histories of its own tests.
pub proof fn law_targets_are_batched_by_their_own_history(
    target: &str,
    tests: &[TestCase],
    config: &RunnerConfig,
    db: &DurationDb,
    capability: DemuxCapability,
    forced: Option<BatchMode>,
    mode: BatchMode,
    sharded: bool,
    r: Vec<TestSelection<String>>,
)
    requires
        sharded <==> config.shard.count > 1,
        call_ensures(build_batches, (target, tests, config, db, capability, forced), r),
        call_ensures(effective_batch_mode, (config, capability, forced), mode),
        mode matches BatchMode::FixedChunk { size } ==> size.spec_get() > 0,
    ensures
        exists|estimates: Seq<DurationEstimate>|
            #![trigger run_longest_first(tests@, estimates, mode, sharded, r@)]
            {
                &&& estimates.len() == tests@.len()
                &&& forall|i: int|
                    #![trigger estimates[i]]
                    0 <= i < tests@.len() ==> estimates_test(
                        *db,
                        target@,
                        tests@[i].name@,
                        config.variant,
                        estimates[i],
                    )
                &&& run_longest_first(tests@, estimates, mode, sharded, r@)
            },
{
    let (keys, estimates) = choose|keys: Seq<u64>, estimates: Seq<DurationEstimate>|
        estimates.len() == tests@.len() && #[trigger] batches::are_estimates(db@, keys, estimates)
            && (forall|i: int|
            0 <= i < tests@.len() ==> duration_db::is_key(
                db.spec_project(),
                target@,
                tests@[i].name@,
                config.variant,
                #[trigger] keys[i],
            )) && #[trigger] batches::are_target_batches(
            *config,
            capability,
            forced,
            tests@,
            estimates,
            r@,
        );
    assert(tests.len() == tests@.len());
    assert(r.len() == r@.len());
    lemma_batches(tests@, estimates, mode, sharded, r@);
    assert forall|i: int|
        #![trigger estimates[i]]
        0 <= i < tests@.len() implies estimates_test(
        *db,
        target@,
        tests@[i].name@,
        config.variant,
        estimates[i],
    ) by {
        let key = keys[i];
        lemma_estimate(recorded(*db, None, key));
        assert(recorded(*db, None, key) =~= db@.samples(None, key));
        assert(is_estimate(recorded(*db, None, key), estimates[i]));
    }
}

/// The weight of a test is its 95th percentile, its typical duration the median; of a test
/// without history both are what the caller says.
pub proof fn law_unseen_tests_weigh_what_the_caller_says(
    estimate: DurationEstimate,
    default: u64,
    weight: u64,
    typical: u64,
)
    requires
        call_ensures(DurationEstimate::weight_ms, (estimate, default), weight),
        call_ensures(DurationEstimate::p50_ms, (estimate, default), typical),
    ensures
        estimate is Unseen ==> weight == default && typical == default,
        estimate matches DurationEstimate::Measured { p50_ms, p95_ms } ==> weight == p95_ms
            && typical == p50_ms,
{
}

proof fn lemma_running_order(s: Seq<Option<Seq<int>>>, estimates: Seq<DurationEstimate>)
    requires
        s.len() <= usize::MAX,
    ensures
        ({
            let ranked = batches::running_order(s, estimates);
            &&& ranked.len() == s.len()
            &&& is_permutation(Seq::new(s.len(), |k: int| ranked[k].index as int), s.len())
            &&& forall|k: int|
                0 <= k < s.len() ==> (#[trigger] ranked[k]).weight == batches::selection_weight(
                    s[ranked[k].index as int],
                    estimates,
                )
            &&& forall|i: int, j: int|
                0 <= i < j < s.len() ==> (#[trigger] ranked[i]).weight > (
                #[trigger] ranked[j]).weight || (ranked[i].weight == ranked[j].weight
                    && ranked[i].index < ranked[j].index)
        }),
{
    let weights = batches::selection_weights(s, estimates);
    let all = batching::slots(weights);
    order::lemma_ranked(all);
    let ranked = batches::running_order(s, estimates);
    let positions = Seq::new(s.len(), |k: int| ranked[k].index as int);
    batching::lemma_ranked_slots(weights);
    let leq = |a: batching::Slot, b: batching::Slot| order::Ranked::ranks(a, b);
    assert forall|k: int| 0 <= k < s.len() implies 0 <= #[trigger] positions[k] < s.len() by {
        assert(ranked[k].index < weights.len());
    }
    assert forall|i: int, j: int| 0 <= i < j < s.len() implies (#[trigger] ranked[i]).weight > (
    #[trigger] ranked[j]).weight || (ranked[i].weight == ranked[j].weight && ranked[i].index
        < ranked[j].index) by {
        assert(leq(ranked[i], ranked[j]));
    }
}

/// How a target is batched: supervision of each test by itself, and a harness whose
/// output does not tell tests apart, need every test alone; else what the labels of
/// the target force counts, else the configuration.
pub proof fn law_supervision_and_harness_force_single_tests(
    config: &RunnerConfig,
    capability: DemuxCapability,
    forced: Option<BatchMode>,
    r: BatchMode,
)
    requires
        call_ensures(effective_batch_mode, (config, capability, forced), r),
    ensures
        config.cgroup_granularity is LogicalTest ==> r is PerTest,
        capability is SingletonOnly ==> r is PerTest,
        !(config.cgroup_granularity is LogicalTest) && capability is NameAttributable
            && forced is Some ==> r == forced->0,
        !(config.cgroup_granularity is LogicalTest) && capability is NameAttributable
            && forced is None ==> r == config.batch_mode,
{
}

/// The hash of a test by which shards are told apart: FNV-1a, from its offset basis,
/// over the bytes of the target, the character U+0001 and the name.
pub open spec fn is_shard_hash(target: Seq<char>, name: Seq<char>, hash: u64) -> bool {
    exists|bytes: &[u8]|
        bytes@ == encode_utf8(target + seq!['\u{1}'] + name) && #[trigger] call_ensures(
            fnv1a,
            (0xcbf29ce484222325u64, bytes),
            hash,
        )
}

/// FNV-1a takes one byte at a time: it is mixed into the lowest bits, and the whole is
/// multiplied by the FNV prime, modulo 2^64.
pub proof fn law_fnv_takes_bytes_one_by_one(
    seed: u64,
    bytes: &[u8],
    hash: u64,
    longer: &[u8],
    longer_hash: u64,
)
    requires
        call_ensures(fnv1a, (seed, bytes), hash),
        call_ensures(fnv1a, (seed, longer), longer_hash),
    ensures
        bytes@.len() == 0 ==> hash == seed,
        forall|byte: u8|
            longer@ == #[trigger] bytes@.push(byte) ==> longer_hash as int == ((hash
                ^ (byte as u64)) * 0x100000001b3) % 0x1_0000_0000_0000_0000,
{
    assert forall|byte: u8| longer@ == #[trigger] bytes@.push(byte) implies longer_hash as int == ((
    hash ^ (byte as u64)) * 0x100000001b3) % 0x1_0000_0000_0000_0000 by {
        assert(longer@.drop_last() =~= bytes@);
        assert(longer@.last() == byte);
    }
}

/// A shard of several runs exactly the tests whose hash leaves its index when divided
/// by the number of shards, in their order; a run without shards has every test.
pub proof fn law_a_shard_has_the_tests_of_its_residue(
    target: &str,
    tests: &[TestCase],
    config: &RunnerConfig,
    r: Vec<TestCase>,
    hash: spec_fn(TestCase) -> u64,
)
    requires
        call_ensures(shard_filter, (target, tests, config), r),
        forall|t: TestCase| is_shard_hash(target@, t.name@, #[trigger] hash(t)),
    ensures
        config.shard.count <= 1 ==> r@ == tests@,
        config.shard.count > 1 ==> r@ == tests@.filter(
            |t: TestCase| hash(t) as int % config.shard.count as int == config.shard.index as int,
        ),
{
    let count = config.shard.count as int;
    let pred = |t: TestCase| hash(t) as int % count == config.shard.index as int;
    lemma_owned_is_filter(*config, target@, tests@, tests@.len(), hash);
    assert(tests@.take(tests@.len() as int) =~= tests@);
    assert(pred =~= |t: TestCase|
        hash(t) as int % config.shard.count as int == config.shard.index as int);
}

proof fn lemma_owned_is_filter(
    config: RunnerConfig,
    target: Seq<char>,
    tests: Seq<TestCase>,
    n: nat,
    hash: spec_fn(TestCase) -> u64,
)
    requires
        n <= tests.len(),
        forall|t: TestCase| is_shard_hash(target, t.name@, #[trigger] hash(t)),
    ensures
        config.shard.count <= 1 ==> batches::owned(config.shard, target, tests, n) == tests.take(
            n as int,
        ),
        config.shard.count > 1 ==> batches::owned(config.shard, target, tests, n) == tests.take(
            n as int,
        ).filter(
            |t: TestCase| hash(t) as int % config.shard.count as int == config.shard.index as int,
        ),
    decreases n,
{
    reveal(Seq::filter);
    let first = tests.take(n as int);
    if n > 0 {
        lemma_owned_is_filter(config, target, tests, (n - 1) as nat, hash);
        assert(first.drop_last() =~= tests.take(n - 1));
        let t = tests[n - 1];
        assert(first.last() == t);
        assert(first =~= tests.take(n - 1).push(t));
        assert(is_shard_hash(target, t.name@, hash(t)));
    } else {
        assert(first =~= Seq::empty());
    }
}

/// Shards part the tests: of two shards of one count, none has a test of the other,
/// and every test is in the shard that its hash leaves as remainder.
pub proof fn law_shards_part_the_tests(
    target: &str,
    tests: &[TestCase],
    config: &RunnerConfig,
    r: Vec<TestCase>,
    t: TestCase,
    hash: u64,
)
    requires
        call_ensures(shard_filter, (target, tests, config), r),
        tests@.contains(t),
        config.shard.count > 1,
        is_shard_hash(target@, t.name@, hash),
    ensures
        r@.contains(t) <==> hash % (config.shard.count as u64) == config.shard.index,
{
    lemma_owned(config.shard, target@, tests@, tests@.len(), t);
    assert(tests@.take(tests@.len() as int) =~= tests@);
}

proof fn lemma_owned(
    shard: crate::cli::ShardSpec,
    target: Seq<char>,
    tests: Seq<TestCase>,
    n: nat,
    t: TestCase,
)
    requires
        n <= tests.len(),
    ensures
        batches::owned(shard, target, tests, n).contains(t) <==> tests.take(n as int).contains(t)
            && batches::owns(shard, target, t.name@),
    decreases n,
{
    let first = tests.take(n as int);
    if n > 0 {
        lemma_owned(shard, target, tests, (n - 1) as nat, t);
        let before = batches::owned(shard, target, tests, (n - 1) as nat);
        let now = batches::owned(shard, target, tests, n);
        let last = tests[n - 1];
        assert(first =~= tests.take(n - 1).push(last));
        if before.contains(t) {
            let i = choose|i: int| 0 <= i < before.len() && before[i] == t;
            assert(now[i] == t);
        }
        if tests.take(n - 1).contains(t) {
            let shorter = tests.take(n - 1);
            let i = choose|i: int| 0 <= i < shorter.len() && shorter[i] == t;
            assert(first[i] == t);
        }
        if t == last {
            assert(first[n - 1] == t);
            if batches::owns(shard, target, t.name@) {
                assert(now[now.len() - 1] == t);
            }
        }
        if now.contains(t) && t != last {
            let i = choose|i: int| 0 <= i < now.len() && now[i] == t;
            assert(before[i] == t);
        }
        if first.contains(t) && t != last {
            let i = choose|i: int| 0 <= i < first.len() && first[i] == t;
            assert(tests.take(n - 1)[i] == t);
        }
    }
}

} // verus!
