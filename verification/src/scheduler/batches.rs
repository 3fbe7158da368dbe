//! Which tests of a target a shard runs, and how they are batched into actions.

use vstd::prelude::*;
use vstd::relations::*;
use vstd::utf8::*;

use crate::batching::{
    self, BatchMode, Batchable, Batcher, Slot, TestSelection,
};
use crate::cli::{RunnerConfig, ShardSpec};
use crate::duration_db::{self, DurationDb, DurationEstimate};
use crate::execution::{self, fnv1a, CgroupGranularity, FNV_SEED};
use crate::listing::TestCase;
use crate::order::{self, sort, Ranked};
use crate::result::{identities_of, TestIdentity};
use crate::text;
use crate::translator::DemuxCapability;
use crate::variant::Variant;

verus! {

/// Neutral duration (ms) of tests with no history, so that a cold cache neither
/// starves nor over-prioritizes them.
pub const UNSEEN_WEIGHT_MS: u64 = 50;

// ---------------------------------------------------------------------------
// Shards.

/// The shard of a test, of `count`: a hash of the target and the name.
pub open spec fn shard_of(target: Seq<char>, name: Seq<char>, count: int) -> int {
    (execution::fnv(FNV_SEED, encode_utf8(target + seq!['\u{1}'] + name)) as int) % count
}

/// Whether a shard runs a test. Membership is a function of the test's identity and
/// the shard count alone: neither the history nor the order of the listing plays
/// a part, so that separate invocations agree.
pub open spec fn owns(shard: ShardSpec, target: Seq<char>, name: Seq<char>) -> bool {
    shard.count <= 1 || shard_of(target, name, shard.count as int) == shard.index
}

/// The tests among the first `n` that a shard runs, in order.
pub open spec fn owned(shard: ShardSpec, target: Seq<char>, tests: Seq<TestCase>, n: nat) -> Seq<
    TestCase,
>
    decreases n,
{
    if n == 0 {
        Seq::empty()
    } else {
        let before = owned(shard, target, tests, (n - 1) as nat);
        if owns(shard, target, tests[n - 1].name@) {
            before.push(tests[n - 1])
        } else {
            before
        }
    }
}

/// Every test runs in exactly one of the shards.
pub proof fn law_every_test_has_one_shard(count: u16, target: Seq<char>, name: Seq<char>)
    requires
        count > 0,
    ensures
        exists|index: u16|
            index < count && #[trigger] owns(ShardSpec { index, count }, target, name),
        forall|i: u16, j: u16|
            i < count && j < count && #[trigger] owns(ShardSpec { index: i, count }, target, name)
                && #[trigger] owns(ShardSpec { index: j, count }, target, name) ==> i == j,
{
    let shard = shard_of(target, name, count as int);
    assert(0 <= shard < count) by (nonlinear_arith)
        requires
            count > 0,
            shard == (execution::fnv(
                FNV_SEED,
                encode_utf8(target + seq!['\u{1}'] + name),
            ) as int) % (count as int),
    ;
    assert(owns(ShardSpec { index: shard as u16, count }, target, name));
    if count == 1 {
        assert(shard == 0);
    }
}

fn is_owned(shard: ShardSpec, target: &str, name: &str) -> (r: bool)
    ensures
        r == owns(shard, target@, name@),
{
    if !shard.is_sharded() {
        return true;
    }
    let mut key: String = target.to_owned();
    key.push('\u{1}');
    key.push_str(name);
    proof {
        assert(key@ =~= target@ + seq!['\u{1}'] + name@);
    }
    let hash: u64 = fnv1a(FNV_SEED, key.as_str().as_bytes());
    hash % shard.count as u64 == shard.index as u64
}

/// The tests that this shard runs.
pub fn shard_filter(target: &str, tests: &[TestCase], config: &RunnerConfig) -> (r: Vec<TestCase>)
    ensures
        r@ == owned(config.shard, target@, tests@, tests@.len()),
{
    let mut out: Vec<TestCase> = Vec::new();
    let mut i: usize = 0;
    while i < tests.len()
        invariant
            i <= tests.len(),
            out@ == owned(config.shard, target@, tests@, i as nat),
        decreases tests.len() - i,
    {
        if is_owned(config.shard, target, tests[i].name.as_str()) {
            out.push(tests[i].duplicate());
        }
        i += 1;
    }
    out
}

// ---------------------------------------------------------------------------
// Batches.

/// A test to be batched: its position and what is known of its duration.
#[derive(Debug, Clone, Copy, PartialEq, Eq)]
pub struct BatchInput {
    pub index: usize,
    pub estimate: DurationEstimate,
}

impl Batchable for BatchInput {
    open spec fn spec_weight_ms(&self) -> u64 {
        self.estimate.spec_weight_ms(UNSEEN_WEIGHT_MS)
    }

    open spec fn spec_p50_ms(&self) -> u64 {
        self.estimate.spec_p50_ms(0)
    }

    fn weight_ms(&self) -> (r: u64) {
        self.estimate.weight_ms(UNSEEN_WEIGHT_MS)
    }

    fn p50_ms(&self) -> (r: u64) {
        self.estimate.p50_ms(0)
    }
}

/// The tests to be batched.
pub open spec fn inputs_of(estimates: Seq<DurationEstimate>) -> Seq<BatchInput> {
    Seq::new(
        estimates.len(),
        |i: int| BatchInput { index: i as usize, estimate: estimates[i] },
    )
}

/// How a target is batched. Supervision per test needs each test alone, and so does
/// a harness whose output does not tell tests apart; then the target's labels
/// count, then the configuration.
pub open spec fn mode_for(
    config: RunnerConfig,
    capability: DemuxCapability,
    target_mode: Option<BatchMode>,
) -> BatchMode {
    if config.cgroup_granularity == CgroupGranularity::LogicalTest || capability
        == DemuxCapability::SingletonOnly {
        BatchMode::PerTest
    } else {
        match target_mode {
            Some(mode) => mode,
            None => config.batch_mode,
        }
    }
}

/// The selections of a target before they are ordered: positions of tests, or
/// `None` for the target as a whole. A shard cannot run the target as a whole, so
/// it names its tests.
pub open spec fn selections(
    mode: BatchMode,
    sharded: bool,
    estimates: Seq<DurationEstimate>,
) -> Seq<Option<Seq<int>>> {
    if mode is Target && sharded {
        seq![Some(batching::all_positions(estimates.len()))]
    } else {
        match mode.groups(inputs_of(estimates)) {
            Some(groups) => Seq::new(groups.len(), |k: int| Some(groups[k])),
            None => seq![None],
        }
    }
}

/// The weight of the heaviest of the first `n` of some tests; nothing weighs
/// nothing.
pub open spec fn heaviest(positions: Seq<int>, estimates: Seq<DurationEstimate>, n: nat) -> u64
    decreases n,
{
    if n == 0 {
        0
    } else {
        let before = heaviest(positions, estimates, (n - 1) as nat);
        let weight = estimates[positions[n - 1]].spec_weight_ms(UNSEEN_WEIGHT_MS);
        if weight > before {
            weight
        } else {
            before
        }
    }
}

/// The positions that a selection stands for.
pub open spec fn members(selection: Option<Seq<int>>, n: nat) -> Seq<int> {
    match selection {
        Some(positions) => positions,
        None => batching::all_positions(n),
    }
}

/// The weight of a selection: that of its heaviest test.
pub open spec fn selection_weight(
    selection: Option<Seq<int>>,
    estimates: Seq<DurationEstimate>,
) -> u64 {
    heaviest(
        members(selection, estimates.len()),
        estimates,
        members(selection, estimates.len()).len(),
    )
}

/// The weights of selections.
pub open spec fn selection_weights(
    s: Seq<Option<Seq<int>>>,
    estimates: Seq<DurationEstimate>,
) -> Seq<u64> {
    Seq::new(s.len(), |k: int| selection_weight(s[k], estimates))
}

/// The order in which selections run: heaviest first, and of equally heavy ones
/// the earlier first.
pub open spec fn running_order(
    s: Seq<Option<Seq<int>>>,
    estimates: Seq<DurationEstimate>,
) -> Seq<Slot> {
    order::ranked(batching::slots(selection_weights(s, estimates)))
}

/// Whether a batch holds the names of the tests that are selected.
pub open spec fn names_selection(
    tests: Seq<TestCase>,
    selection: Option<Seq<int>>,
    batch: TestSelection<String>,
) -> bool {
    match selection {
        Some(positions) => batch matches TestSelection::Explicit(names) && names@.len()
            == positions.len() && forall|j: int|
            0 <= j < positions.len() ==> #[trigger] names@[j] == tests[positions[j]].name,
        None => batch is All,
    }
}

/// Whether the batches are those of the tests: each selection once, heaviest
/// first.
pub open spec fn are_batches(
    mode: BatchMode,
    sharded: bool,
    tests: Seq<TestCase>,
    estimates: Seq<DurationEstimate>,
    batches: Seq<TestSelection<String>>,
) -> bool {
    let s = selections(mode, sharded, estimates);
    let order = running_order(s, estimates);
    &&& batches.len() == order.len()
    &&& forall|k: int|
        0 <= k < batches.len() ==> names_selection(
            tests,
            s[(#[trigger] order[k]).index as int],
            batches[k],
        )
}

/// The batches of a target hold each of its tests exactly once, or the target runs
/// as a whole in a single one.
pub proof fn law_selections_hold_every_test_once(
    mode: BatchMode,
    sharded: bool,
    estimates: Seq<DurationEstimate>,
)
    requires
        estimates.len() <= usize::MAX,
        mode matches BatchMode::FixedChunk { size } ==> size.spec_get() > 0,
    ensures
        mode is Target && !sharded ==> selections(mode, sharded, estimates) == seq![
            None::<Seq<int>>,
        ],
        !(mode is Target && !sharded) ==> exists|groups: Seq<Seq<int>>|
            #![trigger batching::hold_once(groups, batching::all_positions(estimates.len()))]
            batching::hold_once(groups, batching::all_positions(estimates.len())) && selections(
                mode,
                sharded,
                estimates,
            ) == Seq::new(groups.len(), |k: int| Some(groups[k])),
{
    batching::law_every_test_runs_once(mode, inputs_of(estimates));
    let n = estimates.len();
    if mode is Target && sharded {
        let groups = seq![batching::all_positions(n)];
        assert forall|x: int| #[trigger] batching::in_groups(groups, x)
            <==> batching::all_positions(n).contains(x) by {
            if batching::all_positions(n).contains(x) {
                assert(groups[0][x] == x);
            }
            if batching::in_groups(groups, x) {
                let (k, j) = choose|k: int, j: int|
                    0 <= k < groups.len() && 0 <= j < groups[k].len() && #[trigger] groups[k][j]
                        == x;
                assert(batching::all_positions(n)[j] == x);
            }
        }
        assert(batching::hold_once(groups, batching::all_positions(n)));
        assert(selections(mode, sharded, estimates) =~= Seq::new(
            groups.len(),
            |k: int| Some(groups[k]),
        ));
    } else if !(mode is Target) {
        let groups = mode.groups(inputs_of(estimates))->0;
        assert(batching::hold_once(groups, batching::all_positions(n)));
    }
}

/// Batches run longest first, and none is lost or doubled by the ordering.
pub proof fn law_longest_batches_run_first(
    s: Seq<Option<Seq<int>>>,
    estimates: Seq<DurationEstimate>,
)
    requires
        s.len() <= usize::MAX,
    ensures
        running_order(s, estimates).len() == s.len(),
        running_order(s, estimates).to_multiset() == batching::slots(
            selection_weights(s, estimates),
        ).to_multiset(),
        forall|i: int, j: int|
            0 <= i < j < s.len() ==> (#[trigger] running_order(s, estimates)[i]).weight >= (
            #[trigger] running_order(s, estimates)[j]).weight,
{
    let all = batching::slots(selection_weights(s, estimates));
    order::lemma_ranked(all);
    let ranked = running_order(s, estimates);
    let leq = |a: Slot, b: Slot| a.ranks(b);
    assert forall|i: int, j: int| 0 <= i < j < s.len() implies (#[trigger] ranked[i]).weight >= (
    #[trigger] ranked[j]).weight by {
        assert(leq(ranked[i], ranked[j]));
    }
}

/// Whether the estimates are what the history says of the keys.
pub open spec fn are_estimates(
    db: duration_db::DbView,
    keys: Seq<u64>,
    estimates: Seq<DurationEstimate>,
) -> bool {
    &&& estimates.len() == keys.len()
    &&& forall|i: int|
        0 <= i < keys.len() ==> #[trigger] estimates[i] == duration_db::estimate_from(
            db.samples(None, keys[i]),
        )
}

/// Whether the keys are those of some tests of a target in a project, in their order.
pub open spec fn are_keys(
    project: Seq<char>,
    target: Seq<char>,
    names: Seq<String>,
    variant: Variant,
    keys: Seq<u64>,
) -> bool {
    keys.len() == names.len() && forall|i: int|
        0 <= i < names.len() ==> duration_db::is_key(
            project,
            target,
            names[i]@,
            variant,
            #[trigger] keys[i],
        )
}

/// What the history says of each key.
pub fn estimates_at(db: &DurationDb, keys: &[u64]) -> (r: Vec<DurationEstimate>)
    ensures
        are_estimates(db@, keys@, r@),
{
    let mut out: Vec<DurationEstimate> = Vec::new();
    let mut i: usize = 0;
    while i < keys.len()
        invariant
            i <= keys.len(),
            out@.len() == i,
            forall|k: int|
                0 <= k < i ==> #[trigger] out@[k] == duration_db::estimate_from(
                    db@.samples(None, keys@[k]),
                ),
        decreases keys.len() - i,
    {
        out.push(db.estimate_by_key(None, keys[i]));
        i += 1;
    }
    out
}

/// What the history says of each test of a target: of the keys of the identities that
/// [`identities_of`] makes of them.
pub fn estimates_of(db: &DurationDb, target: &str, names: &[String], variant: &Variant) -> (r: Vec<
    DurationEstimate,
>)
    ensures
        r@.len() == names@.len(),
        exists|keys: Seq<u64>| #[trigger]
            are_estimates(db@, keys, r@) && are_keys(
                db.spec_project(),
                target@,
                names@,
                *variant,
                keys,
            ),
{
    let ids: Vec<TestIdentity> = identities_of(target, names, variant);
    let keys: Vec<u64> = db.keys_of(ids.as_slice());
    proof {
        assert forall|i: int| 0 <= i < names@.len() implies duration_db::is_key(
            db.spec_project(),
            target@,
            names@[i]@,
            *variant,
            #[trigger] keys@[i],
        ) by {
            assert(db.keyed(ids@[i], keys@[i]));
        }
        assert(are_keys(db.spec_project(), target@, names@, *variant, keys@));
    }
    estimates_at(db, keys.as_slice())
}

/// How a target is batched.
pub fn effective_batch_mode(
    config: &RunnerConfig,
    capability: DemuxCapability,
    target_mode: Option<BatchMode>,
) -> (r: BatchMode)
    ensures
        r == mode_for(*config, capability, target_mode),
{
    if config.cgroup_granularity == CgroupGranularity::LogicalTest {
        BatchMode::PerTest
    } else {
        match capability {
            DemuxCapability::NameAttributable => match target_mode {
                Some(mode) => mode,
                None => config.batch_mode,
            },
            DemuxCapability::SingletonOnly => BatchMode::PerTest,
        }
    }
}

spec fn are_inputs(
    estimates: Seq<DurationEstimate>,
    positions: Seq<int>,
    v: Seq<BatchInput>,
) -> bool {
    v.len() == positions.len() && forall|j: int|
        0 <= j < v.len() ==> 0 <= positions[j] < estimates.len() && #[trigger] v[j] == inputs_of(
            estimates,
        )[positions[j]]
}

spec fn is_selected(
    estimates: Seq<DurationEstimate>,
    selection: Option<Seq<int>>,
    members: TestSelection<BatchInput>,
) -> bool {
    match selection {
        Some(positions) => members matches TestSelection::Explicit(v) && are_inputs(
            estimates,
            positions,
            v@,
        ),
        None => members is All,
    }
}

spec fn are_selected(
    estimates: Seq<DurationEstimate>,
    s: Seq<Option<Seq<int>>>,
    v: Seq<TestSelection<BatchInput>>,
) -> bool {
    v.len() == s.len() && forall|k: int|
        0 <= k < s.len() ==> is_selected(estimates, s[k], #[trigger] v[k])
}

fn inputs_from(estimates: &[DurationEstimate]) -> (r: Vec<BatchInput>)
    ensures
        r@ == inputs_of(estimates@),
{
    let ghost expected = inputs_of(estimates@);
    let mut inputs: Vec<BatchInput> = Vec::new();
    let mut i: usize = 0;
    while i < estimates.len()
        invariant
            i <= estimates.len(),
            expected == inputs_of(estimates@),
            inputs@ == expected.take(i as int),
        decreases estimates.len() - i,
    {
        inputs.push(BatchInput { index: i, estimate: estimates[i] });
        proof {
            assert(expected.take(i + 1) =~= expected.take(i as int).push(expected[i as int]));
        }
        i += 1;
    }
    proof {
        assert(expected.take(i as int) =~= expected);
    }
    inputs
}

fn select_inputs(mode: BatchMode, sharded: bool, estimates: &[DurationEstimate]) -> (r: Vec<
    TestSelection<BatchInput>,
>)
    ensures
        are_selected(estimates@, selections(mode, sharded, estimates@), r@),
{
    let inputs: Vec<BatchInput> = inputs_from(estimates);
    let ghost s = selections(mode, sharded, estimates@);
    let n: usize = estimates.len();
    let target: bool = matches!(mode, BatchMode::Target);
    if target && sharded {
        let mut picked: Vec<TestSelection<BatchInput>> = Vec::new();
        picked.push(TestSelection::Explicit(inputs));
        proof {
            assert(is_selected(estimates@, s[0], picked@[0]));
        }
        return picked;
    }
    if let BatchMode::FixedChunk { size } = mode {
        let _ = size.get();
    }
    let picked: Vec<TestSelection<BatchInput>> = mode.partition(inputs.as_slice());
    proof {
        batching::law_every_test_runs_once(mode, inputs@);
        match mode.groups(inputs@) {
            Some(groups) => {
                assert forall|k: int| 0 <= k < s.len() implies is_selected(
                    estimates@,
                    s[k],
                    #[trigger] picked@[k],
                ) by {
                    assert(batching::selects_group(inputs@, groups[k], picked@[k]));
                    if let TestSelection::Explicit(v) = picked@[k] {
                        assert forall|j: int|
                            #![trigger v@[j]]
                            #![trigger groups[k][j]]
                            0 <= j < v@.len() implies 0 <= groups[k][j] < estimates@.len() && v@[j]
                            == inputs_of(estimates@)[groups[k][j]] by {
                            assert(batching::in_groups(groups, groups[k][j]));
                            assert(batching::all_positions(inputs@.len()).contains(groups[k][j]));
                            assert(cloned::<BatchInput>(inputs@[groups[k][j]], v@[j]));
                        }
                        assert(are_inputs(estimates@, groups[k], v@));
                    }
                    assert(s[k] == Some(groups[k]));
                }
            },
            None => {},
        }
    }
    picked
}

fn heaviest_of(
    inputs: &[BatchInput],
    positions: Ghost<Seq<int>>,
    estimates: Ghost<Seq<DurationEstimate>>,
) -> (r: u64)
    requires
        are_inputs(estimates@, positions@, inputs@),
    ensures
        r == heaviest(positions@, estimates@, positions@.len()),
{
    let mut most: u64 = 0;
    let mut i: usize = 0;
    while i < inputs.len()
        invariant
            i <= inputs.len(),
            are_inputs(estimates@, positions@, inputs@),
            most == heaviest(positions@, estimates@, i as nat),
        decreases inputs.len() - i,
    {
        let weight: u64 = inputs[i].weight_ms();
        proof {
            assert(inputs@[i as int] == inputs_of(estimates@)[positions@[i as int]]);
        }
        if weight > most {
            most = weight;
        }
        i += 1;
    }
    most
}

fn weigh(picked: &Vec<TestSelection<BatchInput>>, estimates: &[DurationEstimate], s: Ghost<
    Seq<Option<Seq<int>>>,
>) -> (r: Vec<Slot>)
    requires
        are_selected(estimates@, s@, picked@),
    ensures
        r@ == batching::slots(selection_weights(s@, estimates@)),
{
    let all: Vec<BatchInput> = inputs_from(estimates);
    let ghost everywhere = batching::all_positions(estimates@.len());
    proof {
        assert(are_inputs(estimates@, everywhere, all@));
    }
    let whole: u64 = heaviest_of(all.as_slice(), Ghost(everywhere), Ghost(estimates@));
    let ghost expected = batching::slots(selection_weights(s@, estimates@));
    let mut out: Vec<Slot> = Vec::new();
    let mut k: usize = 0;
    while k < picked.len()
        invariant
            k <= picked.len(),
            are_selected(estimates@, s@, picked@),
            expected == batching::slots(selection_weights(s@, estimates@)),
            whole == selection_weight(None, estimates@),
            out@ == expected.take(k as int),
        decreases picked.len() - k,
    {
        proof {
            assert(is_selected(estimates@, s@[k as int], picked@[k as int]));
        }
        let weight: u64 = match &picked[k] {
            TestSelection::All => whole,
            TestSelection::Explicit(members) => {
                heaviest_of(members.as_slice(), Ghost(s@[k as int]->0), Ghost(estimates@))
            },
        };
        out.push(Slot { weight, index: k });
        proof {
            assert(expected.take(k + 1) =~= expected.take(k as int).push(expected[k as int]));
        }
        k += 1;
    }
    proof {
        assert(expected.take(k as int) =~= expected);
    }
    out
}

fn name_batch(tests: &[TestCase], picked: &TestSelection<BatchInput>, selection: Ghost<
    Option<Seq<int>>,
>, estimates: Ghost<Seq<DurationEstimate>>) -> (r: TestSelection<String>)
    requires
        is_selected(estimates@, selection@, *picked),
        estimates@.len() == tests@.len(),
    ensures
        names_selection(tests@, selection@, r),
{
    match picked {
        TestSelection::All => TestSelection::All,
        TestSelection::Explicit(members) => {
            let ghost positions = selection@->0;
            let mut names: Vec<String> = Vec::new();
            let mut j: usize = 0;
            while j < members.len()
                invariant
                    j <= members.len(),
                    names@.len() == j,
                    estimates@.len() == tests@.len(),
                    tests.len() == tests@.len(),
                    are_inputs(estimates@, positions, members@),
                    forall|q: int| 0 <= q < j ==> #[trigger] names@[q] == tests@[positions[q]].name,
                decreases members.len() - j,
            {
                let index: usize = members[j].index;
                proof {
                    assert(members@[j as int] == inputs_of(estimates@)[positions[j as int]]);
                    assert(index == positions[j as int]);
                }
                names.push(tests[index].name.clone());
                j += 1;
            }
            TestSelection::Explicit(names)
        },
    }
}

/// The batches of a target, given what is known of the durations of its tests.
pub fn batches_from(
    tests: &[TestCase],
    estimates: &[DurationEstimate],
    mode: BatchMode,
    sharded: bool,
) -> (r: Vec<TestSelection<String>>)
    requires
        estimates@.len() == tests@.len(),
    ensures
        are_batches(mode, sharded, tests@, estimates@, r@),
{
    let picked: Vec<TestSelection<BatchInput>> = select_inputs(mode, sharded, estimates);
    let ghost s = selections(mode, sharded, estimates@);
    let slots: Vec<Slot> = weigh(&picked, estimates, Ghost(s));
    let order: Vec<Slot> = sort(slots);
    proof {
        assert(order@ == running_order(s, estimates@));
        order::lemma_ranked(slots@);
        slots@.to_multiset_ensures();
        order@.to_multiset_ensures();
    }
    let mut out: Vec<TestSelection<String>> = Vec::new();
    let mut k: usize = 0;
    while k < order.len()
        invariant
            k <= order.len(),
            estimates@.len() == tests@.len(),
            order@ == running_order(s, estimates@),
            order@.to_multiset() == slots@.to_multiset(),
            slots@ == batching::slots(selection_weights(s, estimates@)),
            slots@.len() == picked@.len(),
            are_selected(estimates@, s, picked@),
            out@.len() == k,
            forall|q: int|
                0 <= q < k ==> names_selection(
                    tests@,
                    s[(#[trigger] order@[q]).index as int],
                    out@[q],
                ),
        decreases order.len() - k,
    {
        let index: usize = order[k].index;
        proof {
            slots@.to_multiset_ensures();
            order@.to_multiset_ensures();
            assert(order@.contains(order@[k as int]));
            assert(slots@.to_multiset().count(order@[k as int]) > 0);
            assert(slots@.contains(order@[k as int]));
            let i = choose|i: int| 0 <= i < slots@.len() && slots@[i] == order@[k as int];
            assert(slots@[i].index == i);
            assert(is_selected(estimates@, s[index as int], picked@[index as int]));
        }
        out.push(name_batch(tests, &picked[index], Ghost(s[index as int]), Ghost(estimates@)));
        k += 1;
    }
    out
}

/// The names of tests.
pub fn names_of(tests: &[TestCase]) -> (r: Vec<String>)
    ensures
        r@.len() == tests@.len(),
        forall|i: int| 0 <= i < r@.len() ==> #[trigger] r@[i] == tests@[i].name,
{
    let mut out: Vec<String> = Vec::new();
    let mut i: usize = 0;
    while i < tests.len()
        invariant
            i <= tests.len(),
            out@.len() == i,
            forall|k: int| 0 <= k < i ==> #[trigger] out@[k] == tests@[k].name,
        decreases tests.len() - i,
    {
        out.push(tests[i].name.clone());
        i += 1;
    }
    out
}

/// Whether the batches are those of a target under a configuration.
pub open spec fn are_target_batches(
    config: RunnerConfig,
    capability: DemuxCapability,
    target_mode: Option<BatchMode>,
    tests: Seq<TestCase>,
    estimates: Seq<DurationEstimate>,
    batches: Seq<TestSelection<String>>,
) -> bool {
    are_batches(
        mode_for(config, capability, target_mode),
        config.shard.count > 1,
        tests,
        estimates,
        batches,
    )
}

/// Collapses tests into batched actions and orders them longest-first, by what the
/// history says of them.
pub fn build_batches(
    target: &str,
    tests: &[TestCase],
    config: &RunnerConfig,
    db: &DurationDb,
    capability: DemuxCapability,
    target_batch_mode: Option<BatchMode>,
) -> (r: Vec<TestSelection<String>>)
    ensures
        exists|keys: Seq<u64>, estimates: Seq<DurationEstimate>|
            estimates.len() == tests@.len() && #[trigger] are_estimates(db@, keys, estimates)
                && (forall|i: int|
                0 <= i < tests@.len() ==> duration_db::is_key(
                    db.spec_project(),
                    target@,
                    tests@[i].name@,
                    config.variant,
                    #[trigger] keys[i],
                )) && #[trigger] are_target_batches(
                *config,
                capability,
                target_batch_mode,
                tests@,
                estimates,
                r@,
            ),
{
    let names: Vec<String> = names_of(tests);
    let estimates: Vec<DurationEstimate> = estimates_of(
        db,
        target,
        names.as_slice(),
        &config.variant,
    );
    let mode: BatchMode = effective_batch_mode(config, capability, target_batch_mode);
    let batches: Vec<TestSelection<String>> = batches_from(
        tests,
        estimates.as_slice(),
        mode,
        config.shard.is_sharded(),
    );
    proof {
        let keys = choose|keys: Seq<u64>| #[trigger]
            are_estimates(db@, keys, estimates@) && are_keys(
                db.spec_project(),
                target@,
                names@,
                config.variant,
                keys,
            );
        assert(are_estimates(db@, keys, estimates@));
        assert forall|i: int| 0 <= i < tests@.len() implies duration_db::is_key(
            db.spec_project(),
            target@,
            tests@[i].name@,
            config.variant,
            #[trigger] keys[i],
        ) by {
            assert(names@[i] == tests@[i].name);
        }
        assert(are_target_batches(
            *config,
            capability,
            target_batch_mode,
            tests@,
            estimates@,
            batches@,
        ));
    }
    batches
}

} // verus!
