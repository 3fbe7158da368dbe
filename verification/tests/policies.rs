//! Batching, caching, constraints, names and the policies that labels set.

use std::collections::BTreeSet;

use quokka::batching::{BatchMode, Batchable, Batcher, TestSelection, MAX_BATCH};
use quokka::caching::{cache_class, CacheClass, TestExecutionCaching};
use quokka::environment::{profile_from_labels, HardwareNeeds, HostExclusivity, SchedulingProfile};
use quokka::ids::{TestNameId, TestNameInterner};
use quokka::listing::{IgnoredPolicy, ListingParseError};
use quokka::names::NameMap;
use quokka::num::{NonZeroU32, NonZeroU64, NonZeroUsize};
use quokka::policy::{
    owner, quarantine_status, retry_policy, test_timeout, Owner, QuarantineStatus, RetryPolicy,
    TestTimeout,
};
use quokka::time::Duration;
use quokka::variant::{RepeatKind, Variant};

#[derive(Debug, Clone, PartialEq, Eq)]
struct TestItem {
    id: u32,
    p50: u64,
    weight: u64,
}

impl Batchable for TestItem {
    fn spec_weight_ms(&self) -> u64 {
        self.weight
    }
    fn spec_p50_ms(&self) -> u64 {
        self.p50
    }
    fn weight_ms(&self) -> u64 {
        self.weight
    }
    fn p50_ms(&self) -> u64 {
        self.p50
    }
}

fn input(id: u32, p50: u64) -> TestItem {
    TestItem { id, p50, weight: p50 }
}

fn labels(texts: &[&str]) -> Vec<String> {
    texts.iter().map(|t| t.to_string()).collect()
}

#[test]
fn per_test_is_one_each() {
    let tests = [input(0, 5), input(1, 5)];
    let batches = BatchMode::PerTest.partition(&tests);
    assert_eq!(
        batches,
        vec![
            TestSelection::Explicit(vec![input(0, 5)]),
            TestSelection::Explicit(vec![input(1, 5)])
        ]
    );
}

#[test]
fn target_is_one_group() {
    let tests = [input(0, 5), input(1, 5), input(2, 5)];
    let batches = BatchMode::Target.partition(&tests);
    assert_eq!(batches.len(), 1);
    assert_eq!(batches[0], TestSelection::All);
}

#[test]
fn empty_target_yields_no_actions() {
    let empty: &[TestItem] = &[];
    assert_eq!(BatchMode::Target.partition(empty), vec![TestSelection::All]);
    assert!(BatchMode::PerTest.partition(empty).is_empty());
    assert!(BatchMode::FixedChunk { size: NonZeroUsize::new(8).unwrap() }
        .partition(empty)
        .is_empty());
}

fn ids(chunks: &[TestSelection<TestItem>]) -> BTreeSet<u32> {
    chunks
        .iter()
        .filter_map(|c| if let TestSelection::Explicit(v) = c { Some(v) } else { None })
        .flatten()
        .map(|t| t.id)
        .collect()
}

#[test]
fn fixed_chunk_size_one_is_one_per_action() {
    let tests = [input(0, 5), input(1, 5), input(2, 5)];
    let batches = BatchMode::FixedChunk { size: NonZeroUsize::new(1).unwrap() }.partition(&tests);
    assert_eq!(batches.len(), 3);
    assert!(batches.iter().all(|c| {
        if let TestSelection::Explicit(v) = c {
            v.len() == 1
        } else {
            false
        }
    }));
}

#[test]
fn fixed_chunk_caps_size_and_covers_all_tests_exactly_once() {
    let tests: Vec<TestItem> = (0..10).map(|i| input(i, i as u64)).collect();
    let batches = BatchMode::FixedChunk { size: NonZeroUsize::new(4).unwrap() }.partition(&tests);
    assert_eq!(batches.len(), 3);
    assert!(batches.iter().all(|c| {
        if let TestSelection::Explicit(v) = c {
            v.len() <= 4
        } else {
            false
        }
    }));
    assert_eq!(
        batches
            .iter()
            .map(|c| if let TestSelection::Explicit(v) = c { v.len() } else { 0 })
            .sum::<usize>(),
        10
    );
    assert_eq!(ids(&batches), (0..10).collect());
}

#[test]
fn fixed_chunk_handles_fewer_tests_than_chunk_size() {
    let tests = [input(0, 5), input(1, 5)];
    let batches = BatchMode::FixedChunk { size: NonZeroUsize::new(4).unwrap() }.partition(&tests);
    assert_eq!(batches.len(), 1);
    let mut ids = match &batches[0] {
        TestSelection::Explicit(v) => v.iter().map(|i| i.id).collect::<Vec<_>>(),
        _ => vec![],
    };
    ids.sort();
    assert_eq!(ids, vec![0, 1]);
}

#[test]
fn fixed_chunk_balances_heaviest_tests_across_chunks() {
    let tests = [
        input(0, 100),
        input(1, 100),
        input(2, 100),
        input(3, 100),
        input(4, 1),
        input(5, 1),
        input(6, 1),
        input(7, 1),
    ];
    let batches = BatchMode::FixedChunk { size: NonZeroUsize::new(4).unwrap() }.partition(&tests);
    assert_eq!(batches.len(), 2);
    let weight = |c: &TestSelection<TestItem>| {
        if let TestSelection::Explicit(v) = c {
            v.iter().map(|t| t.weight_ms()).sum::<u64>()
        } else {
            0
        }
    };
    assert_eq!(weight(&batches[0]), 202);
    assert_eq!(weight(&batches[1]), 202);
}

#[test]
fn buckets_keep_long_tests_alone_and_close_before_them() {
    let tests = [input(0, 5), input(1, 6), input(2, 90), input(3, 7)];
    let batches = BatchMode::DurationBucketed { p50_lt_ms: 10 }.partition(&tests);
    assert_eq!(
        batches,
        vec![
            TestSelection::Explicit(vec![input(0, 5), input(1, 6)]),
            TestSelection::Explicit(vec![input(2, 90)]),
            TestSelection::Explicit(vec![input(3, 7)]),
        ]
    );
}

#[test]
fn buckets_are_full_at_the_cap() {
    let tests: Vec<TestItem> = (0..130).map(|i| input(i, 1)).collect();
    let batches = BatchMode::DurationBucketed { p50_lt_ms: 2 }.partition(&tests);
    let sizes: Vec<usize> = batches
        .iter()
        .map(|c| if let TestSelection::Explicit(v) = c { v.len() } else { 0 })
        .collect();
    assert_eq!(sizes, vec![MAX_BATCH, MAX_BATCH, 2]);
    assert_eq!(ids(&batches), (0..130).collect());
}

#[test]
fn cache_policy_separates_retries_from_nonhermetic_targets() {
    let cases = [
        (vec!["rust:flaky"], true, false, 0),
        (vec!["rust:flaky"], true, false, 1),
        (vec!["python:uses_network"], true, false, 0),
        (vec!["pkg"], false, false, 0),
        (vec!["pkg"], true, true, 0),
        (vec!["pkg"], true, false, 0),
    ];
    assert_eq!(
        cases.map(|(labels, is_default_variant, is_stress, attempt_index)| {
            let labels = labels.into_iter().map(str::to_owned).collect::<Vec<_>>();
            let base = cache_class(&labels);
            (
                base,
                TestExecutionCaching::resolve(base, is_default_variant, is_stress, attempt_index),
            )
        }),
        [
            (CacheClass::Cacheable, TestExecutionCaching::Enabled),
            (CacheClass::Cacheable, TestExecutionCaching::Disabled),
            (CacheClass::Disabled, TestExecutionCaching::Disabled),
            (CacheClass::Cacheable, TestExecutionCaching::Disabled),
            (CacheClass::Cacheable, TestExecutionCaching::Disabled),
            (CacheClass::Cacheable, TestExecutionCaching::Enabled),
        ]
    );
}

#[test]
fn disabled_caching_sets_the_flag() {
    assert!(TestExecutionCaching::Disabled.disable_flag());
    assert!(!TestExecutionCaching::Enabled.disable_flag());
}

#[test]
fn gpu_selects_gpu() {
    let req = profile_from_labels(&["rust:gpu".to_owned()]).unwrap();
    assert!(req.hardware.requires_gpu);
    assert!(!req.hardware.requires_large_mem);
    assert!(req.local_resources.is_empty());
}

#[test]
fn conflict_gpu_and_large_mem() {
    let req = profile_from_labels(&["python:large-mem".to_owned(), "rust:gpu".to_owned()]);
    assert!(req.is_err());
}

#[test]
fn local_resources_accumulate() {
    let req = profile_from_labels(&[
        "rust:local-resource=postgres".to_owned(),
        "python:local-resource=redis".to_owned(),
    ])
    .unwrap();
    let mut expected = BTreeSet::new();
    expected.insert("postgres".to_owned());
    expected.insert("redis".to_owned());
    assert_eq!(req.local_resources.names().iter().cloned().collect::<BTreeSet<_>>(), expected);
}

#[test]
fn conflicts_say_what_cannot_be_combined() {
    let gpu = HardwareNeeds { requires_gpu: true, ..HardwareNeeds::default() };
    let memory = HardwareNeeds { requires_large_mem: true, ..HardwareNeeds::default() };
    let error = gpu.combine(memory).unwrap_err();
    assert_eq!(
        error.message(),
        "Constraint conflict: Cannot satisfy both gpu and large-mem hardware needs."
    );
}

#[test]
fn constraints_add_up() {
    let a = profile_from_labels(&labels(&["rust:exclusive", "local-resource=b"])).unwrap();
    let b = profile_from_labels(&labels(&["network-private", "local-resource=a", "x"])).unwrap();
    let both: SchedulingProfile = a.combine(b).unwrap();
    assert_eq!(both.exclusivity, HostExclusivity::Exclusive);
    assert!(both.hardware.network_isolated);
    assert_eq!(both.local_resources.names(), &labels(&["a", "b"]));
    let again = profile_from_labels(&labels(&["serial_global_state"])).unwrap();
    assert_eq!(again.exclusivity, HostExclusivity::Exclusive);
}

#[test]
fn interner_roundtrips_and_dedups() {
    let mut interner = TestNameInterner::new();
    let a = interner.intern("mod::test_a");
    let b = interner.intern("mod::test_b");
    let a2 = interner.intern("mod::test_a");
    assert_eq!(a, a2);
    assert_ne!(a, b);
    assert_eq!(interner.resolve(a), "mod::test_a");
    assert_eq!(interner.resolve(b), "mod::test_b");
    assert_eq!(interner.len(), 2);
}

#[test]
fn ids_are_given_in_order() {
    let mut interner = TestNameInterner::new();
    assert!(interner.is_empty());
    assert_eq!(interner.intern("x"), TestNameId(0));
    assert_eq!(interner.intern("y"), TestNameId(1));
    assert!(!interner.is_empty());
}

#[test]
fn name_maps_hold_the_last_value_of_a_name() {
    let mut map: NameMap<u32> = NameMap::new();
    assert!(map.is_empty());
    map.insert("b", 1);
    map.insert("a", 2);
    map.insert("b", 3);
    assert_eq!(map.get("b"), Some(&3));
    assert_eq!(map.get("c"), None);
    let mut names = map.names();
    names.sort();
    assert_eq!(names, labels(&["a", "b"]));
    assert_eq!(map.remove("b"), Some(3));
    assert_eq!(map.remove("b"), None);
    assert_eq!(map.names(), labels(&["a"]));
    assert!(!map.is_empty());
}

#[test]
fn ignored_policy_selects() {
    assert!(!IgnoredPolicy::ExcludeIgnored.selects(true));
    assert!(IgnoredPolicy::ExcludeIgnored.selects(false));
    assert!(IgnoredPolicy::IncludeIgnored.selects(true));
    assert!(IgnoredPolicy::IncludeIgnored.selects(false));
    assert!(IgnoredPolicy::IgnoredOnly.selects(true));
    assert!(!IgnoredPolicy::IgnoredOnly.selects(false));
}

#[test]
fn a_listing_that_is_no_text_says_so() {
    assert_eq!(ListingParseError::NotUtf8.message(), "listing output was not valid UTF-8");
}

#[test]
fn timeout_resolution() {
    assert_eq!(
        test_timeout(&["rust:timeout=30s".to_owned()]),
        TestTimeout::Fixed(Duration::from_secs(30))
    );
    assert_eq!(
        TestTimeout::Default.resolve(Duration::from_secs(600)),
        Duration::from_secs(600)
    );
    assert_eq!(
        test_timeout(&["python:timeout=10s".to_owned(), "rust:timeout=20s".to_owned()]),
        TestTimeout::Fixed(Duration::from_secs(20))
    );
}

#[test]
fn timeouts_have_units() {
    let of = |text: &str| test_timeout(&labels(&[text]));
    assert_eq!(of("timeout=250ms"), TestTimeout::Fixed(Duration::from_millis(250)));
    assert_eq!(of("timeout=7"), TestTimeout::Fixed(Duration::from_secs(7)));
    assert_eq!(of("timeout= 5m "), TestTimeout::Fixed(Duration::from_secs(300)));
    assert_eq!(of("timeout=2h"), TestTimeout::Fixed(Duration::from_secs(7200)));
    assert_eq!(of("timeout=soon"), TestTimeout::Default);
    assert_eq!(of("timeout=18446744073709551615h"), TestTimeout::Default);
    assert_eq!(of("pkg"), TestTimeout::Default);
}

#[test]
fn retry_policy_from_labels() {
    assert!(retry_policy(&["rust:flaky".to_owned()], 3).allows_retry());
    assert_eq!(retry_policy(&["python:flaky".to_owned()], 3).max_attempts(), 3);
    assert!(!retry_policy(&[], 3).allows_retry());
    assert_eq!(retry_policy(&[], 3).max_attempts(), 1);
}

#[test]
fn there_is_always_one_attempt() {
    assert_eq!(RetryPolicy::new(0).max_attempts(), 1);
    assert_eq!(retry_policy(&labels(&["rust:retry"]), 2).max_attempts(), 2);
}

#[test]
fn quarantine_and_exclusivity_and_owner() {
    assert_eq!(quarantine_status(&["quarantined".to_owned()]), QuarantineStatus::Quarantined);
    assert_eq!(owner(&["rust:owner=team-x".into()]), Owner::Team("team-x".into()));
    assert_eq!(owner(&[]), Owner::Unowned);
}

#[test]
fn the_last_owner_counts() {
    assert_eq!(owner(&labels(&["owner=a", "rust:owner=b", "x"])), Owner::Team("b".into()));
    assert_eq!(quarantine_status(&labels(&["x"])), QuarantineStatus::Active);
}

#[test]
fn variant_identity_and_default() {
    assert!(Variant::Default.is_default());
    assert_eq!(Variant::Default.identity(), None);
    assert_eq!(Variant::Asan.identity(), Some("asan".to_owned()));
    assert_eq!(Variant::parse("miri"), Variant::Miri);
    assert_eq!(Variant::parse("custom"), Variant::Named("custom".to_owned()));
}

#[test]
fn variants_read_back_from_their_labels() {
    for variant in [
        Variant::Default,
        Variant::Asan,
        Variant::Tsan,
        Variant::Miri,
        Variant::Loom,
        Variant::Coverage,
        Variant::Named("other".to_owned()),
    ] {
        assert_eq!(Variant::parse(&variant.label()), variant);
    }
}

#[test]
fn repeat_counts() {
    assert_eq!(RepeatKind::Once.count(), 1);
    assert_eq!(RepeatKind::Stress(NonZeroU32::new(99).unwrap()).count(), 99);
    assert!(RepeatKind::Stress(NonZeroU32::new(2).unwrap()).is_stress());
}

#[test]
fn zero_is_no_nonzero_number() {
    assert!(NonZeroU32::new(0).is_none());
    assert!(NonZeroU64::new(0).is_none());
    assert!(NonZeroUsize::new(0).is_none());
    assert_eq!(NonZeroU64::new(9).unwrap().get(), 9);
}

#[test]
fn durations_keep_their_parts() {
    let d = Duration::from_millis(2_345);
    assert_eq!((d.as_secs(), d.subsec_nanos(), d.as_millis()), (2, 345_000_000, 2_345));
    assert!(Duration::new(1, 1_000_000_000).is_none());
    let sum = d.saturating_times_plus(2, &Duration::from_secs(1));
    assert_eq!(sum, Duration::from_millis(5_690));
    let most = Duration::from_secs(u64::MAX).saturating_times_plus(2, &d);
    assert_eq!(most, Duration::new(u64::MAX, 999_999_999).unwrap());
}

fn members(selection: &TestSelection<TestItem>) -> Vec<(u32, u64)> {
    match selection {
        TestSelection::Explicit(members) => members.iter().map(|t| (t.id, t.weight)).collect(),
        TestSelection::All => panic!("explicit members expected"),
    }
}

#[test]
fn single_tests_are_chunks_of_one() {
    let tests = vec![input(1, 5), input(2, 9), input(3, 5)];
    let one = NonZeroUsize::new(1).unwrap();
    let mut chunks: Vec<_> =
        BatchMode::FixedChunk { size: one }.partition(&tests).iter().map(members).collect();
    assert_eq!(chunks, vec![vec![(2, 9)], vec![(1, 5)], vec![(3, 5)]]);
    chunks.sort();
    let singles: Vec<_> = BatchMode::PerTest.partition(&tests).iter().map(members).collect();
    assert_eq!(singles, chunks);
    let whole: &[TestItem] = &[];
    assert_eq!(BatchMode::Target.partition(whole), vec![TestSelection::All]);
}

#[test]
fn chunks_are_balanced() {
    let tests: Vec<TestItem> = [7, 1, 9, 4, 4, 2, 8].iter().zip(0..).map(|(w, i)| input(i, *w)).collect();
    let size = 3;
    let chunks: Vec<Vec<u64>> = BatchMode::FixedChunk { size: NonZeroUsize::new(size).unwrap() }
        .partition(&tests)
        .iter()
        .map(|chunk| members(chunk).into_iter().map(|(_, weight)| weight).collect())
        .collect();
    assert_eq!(chunks, vec![vec![9, 2, 1], vec![8, 4], vec![7, 4]]);
    for full in &chunks {
        assert!(full.windows(2).all(|pair| pair[0] >= pair[1]));
        let without_last: u64 = full[..full.len() - 1].iter().sum();
        for roomy in chunks.iter().filter(|chunk| chunk.len() < size) {
            assert!(without_last <= roomy.iter().sum());
        }
    }
}
