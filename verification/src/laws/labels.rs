//! How the labels of a target decide how its tests run.

use vstd::prelude::*;

use crate::batching::BatchMode;
use crate::caching::{cache_class, CacheClass};
use crate::environment::{profile_from_labels, ConstraintConflictError, SchedulingProfile};
use crate::policy::{
    self, owner, quarantine_status, retry_policy, test_timeout, Owner, QuarantineStatus,
    RetryPolicy, TestTimeout,
};
use crate::scheduler::plan::target_batch_mode;
use crate::text;

verus! {

/// Whether a label is `what`, alone or behind a prefix and a colon.
pub open spec fn carried(label: Seq<char>, what: Seq<char>) -> bool {
    ||| !label.contains(':') && label == what
    ||| exists|prefix: Seq<char>|
        !prefix.contains(':') && label == #[trigger] (prefix + seq![':']) + what
}

/// Whether one of the labels is `what`, alone or behind a prefix and a colon.
pub open spec fn carry(labels: Seq<String>, what: Seq<char>) -> bool {
    exists|i: int| 0 <= i < labels.len() && carried((#[trigger] labels[i])@, what)
}

proof fn lemma_carried(label: Seq<char>, what: Seq<char>)
    ensures
        carried(label, what) <==> text::label_suffix(label) == what,
{
    let at = text::find_from(label, ':', 0);
    text::lemma_find_from(label, ':', 0);
    if at < label.len() {
        let prefix = label.take(at);
        let rest = label.skip(at + 1);
        assert(!prefix.contains(':'));
        assert(label.contains(':')) by {
            assert(label[at] == ':');
        }
        assert(label =~= (prefix + seq![':']) + rest);
        if carried(label, what) {
            let other = choose|other: Seq<char>|
                !other.contains(':') && label == #[trigger] (other + seq![':']) + what;
            assert(label[other.len() as int] == ':');
            assert forall|k: int| 0 <= k < other.len() implies label[k] != ':' by {
                assert(label[k] == other[k]);
                assert(other.contains(other[k]));
            }
            text::lemma_find_from_is(label, ':', 0, other.len() as int);
            assert(what =~= label.skip(other.len() as int + 1));
        }
    } else {
        assert(!label.contains(':'));
        if exists|prefix: Seq<char>|
            !prefix.contains(':') && label == #[trigger] (prefix + seq![':']) + what {
            let prefix = choose|prefix: Seq<char>|
                !prefix.contains(':') && label == #[trigger] (prefix + seq![':']) + what;
            assert(label[prefix.len() as int] == ':');
            assert(label.contains(':'));
        }
    }
}

pub proof fn lemma_carry(labels: Seq<String>, what: Seq<char>)
    ensures
        carry(labels, what) <==> text::says(labels, what),
{
    if carry(labels, what) {
        let i = choose|i: int| 0 <= i < labels.len() && carried((#[trigger] labels[i])@, what);
        lemma_carried(labels[i]@, what);
    }
    if text::says(labels, what) {
        let i = choose|i: int|
            0 <= i < labels.len() && text::label_suffix((#[trigger] labels[i])@) == what;
        lemma_carried(labels[i]@, what);
    }
}

/// A target is never served from the cache where a label says that its results
/// depend on more than its inputs, and may be where none of these labels stands.
pub proof fn law_targets_that_depend_on_more_than_their_inputs_are_not_cached(
    labels: &[String],
    r: CacheClass,
)
    requires
        call_ensures(cache_class, (labels,), r),
    ensures
        carry(labels@, "cache_disabled"@) ==> r is Disabled,
        carry(labels@, "uses_network"@) ==> r is Disabled,
        carry(labels@, "uses_wall_clock"@) ==> r is Disabled,
        carry(labels@, "uses_randomness_without_seed"@) ==> r is Disabled,
        carry(labels@, "requires_external_service"@) ==> r is Disabled,
        carry(labels@, "serial_global_state"@) ==> r is Disabled,
        carry(labels@, "stress"@) ==> r is Disabled,
        carry(labels@, "network-private"@) ==> r is Disabled,
        r is Disabled ==> carry(labels@, "cache_disabled"@) || carry(labels@, "uses_network"@)
            || carry(labels@, "uses_wall_clock"@) || carry(
            labels@,
            "uses_randomness_without_seed"@,
        ) || carry(labels@, "requires_external_service"@) || carry(labels@, "serial_global_state"@)
            || carry(labels@, "stress"@) || carry(labels@, "network-private"@),
{
    lemma_carry(labels@, "cache_disabled"@);
    lemma_carry(labels@, "uses_network"@);
    lemma_carry(labels@, "uses_wall_clock"@);
    lemma_carry(labels@, "uses_randomness_without_seed"@);
    lemma_carry(labels@, "requires_external_service"@);
    lemma_carry(labels@, "serial_global_state"@);
    lemma_carry(labels@, "stress"@);
    lemma_carry(labels@, "network-private"@);
}

/// Failures of a target do not count exactly where a label says `quarantined`.
pub proof fn law_quarantine_is_labelled(labels: &[String], r: QuarantineStatus)
    requires
        call_ensures(quarantine_status, (labels,), r),
    ensures
        r is Quarantined <==> carry(labels@, "quarantined"@),
{
    lemma_carry(labels@, "quarantined"@);
}

/// A failing test gets the configured attempts where a label says `flaky` or
/// `retry`, and one attempt where none does.
pub proof fn law_retries_are_labelled(labels: &[String], attempts: u32, r: RetryPolicy)
    requires
        call_ensures(retry_policy, (labels, attempts), r),
    ensures
        attempts >= 1 && (carry(labels@, "flaky"@) || carry(labels@, "retry"@))
            ==> r.spec_max_attempts() == attempts,
        attempts == 0 || !(carry(labels@, "flaky"@) || carry(labels@, "retry"@))
            ==> r.spec_max_attempts() == 1,
{
    lemma_carry(labels@, "flaky"@);
    lemma_carry(labels@, "retry"@);
}

/// The tests of a target run singly exactly where a label says `big`.
pub proof fn law_big_targets_run_singly(labels: &[String], r: Option<BatchMode>)
    requires
        call_ensures(target_batch_mode, (labels,), r),
    ensures
        carry(labels@, "big"@) ==> r == Some(BatchMode::PerTest),
        !carry(labels@, "big"@) ==> r is None,
{
    lemma_carry(labels@, "big"@);
}

/// Whether a label asks for a thing by name: `kind` and then the name.
pub open spec fn asks_for(labels: Seq<String>, kind: Seq<char>, name: Seq<char>) -> bool {
    carry(labels, kind + name)
}

/// A target gets each piece of hardware, a host of its own and each local resource
/// exactly where a label asks for it; one that asks for a GPU and a large memory at
/// once is refused, and no other.
pub proof fn law_placement_is_labelled(
    labels: &[String],
    r: Result<SchedulingProfile, ConstraintConflictError>,
)
    requires
        call_ensures(profile_from_labels, (labels,), r),
    ensures
        r is Err <==> carry(labels@, "gpu"@) && carry(labels@, "large-mem"@),
        r matches Err(e) ==> e.0@ == "Cannot satisfy both gpu and large-mem hardware needs."@,
        r matches Ok(p) ==> {
            &&& p.hardware.requires_gpu <==> carry(labels@, "gpu"@)
            &&& p.hardware.requires_large_mem <==> carry(labels@, "large-mem"@)
            &&& p.hardware.network_isolated <==> carry(labels@, "network-private"@)
            &&& !p.hardware.listing_only
            &&& !p.hardware.local_debug
            &&& p.exclusivity is Exclusive <==> carry(labels@, "exclusive"@) || carry(
                labels@,
                "serial_global_state"@,
            )
            &&& forall|name: Seq<char>| #[trigger]
                p.local_resources@.contains(name) <==> asks_for(labels@, "local-resource="@, name)
        },
{
    lemma_carry(labels@, "gpu"@);
    lemma_carry(labels@, "large-mem"@);
    lemma_carry(labels@, "network-private"@);
    lemma_carry(labels@, "exclusive"@);
    lemma_carry(labels@, "serial_global_state"@);
    if let Ok(p) = r {
        assert forall|name: Seq<char>| #[trigger]
            p.local_resources@.contains(name) <==> asks_for(
            labels@,
            "local-resource="@,
            name,
        ) by {
            let kind = "local-resource="@;
            if p.local_resources@.contains(name) {
                let i = choose|i: int|
                    0 <= i < labels@.len() && crate::environment::resource_of(
                        (#[trigger] labels@[i])@,
                    ) == Some(name);
                lemma_named(labels@[i]@, kind, name);
            }
            if asks_for(labels@, kind, name) {
                let i = choose|i: int|
                    0 <= i < labels@.len() && carried((#[trigger] labels@[i])@, kind + name);
                lemma_named(labels@[i]@, kind, name);
            }
        }
    }
}

pub proof fn lemma_named(label: Seq<char>, kind: Seq<char>, name: Seq<char>)
    ensures
        carried(label, kind + name) <==> text::strip_prefix(text::label_suffix(label), kind)
            == Some(name),
{
    lemma_carried(label, kind + name);
    let suffix = text::label_suffix(label);
    if suffix == kind + name {
        assert(kind.is_prefix_of(suffix));
        assert(suffix.skip(kind.len() as int) =~= name);
    }
    if text::strip_prefix(suffix, kind) == Some(name) {
        assert(suffix =~= kind + name);
    }
}

/// The owner of a target is the team of the last label that names one.
pub proof fn law_the_last_owner_counts(labels: &[String], r: Owner)
    requires
        call_ensures(owner, (labels,), r),
    ensures
        r is Unowned <==> forall|team: Seq<char>| !asks_for(labels@, "owner="@, team),
        r matches Owner::Team(team) ==> exists|i: int|
            {
                &&& 0 <= i < labels@.len()
                &&& carried((#[trigger] labels@[i])@, "owner="@ + team@)
                &&& forall|j: int, other: Seq<char>|
                    i < j < labels@.len() ==> !carried(
                        (#[trigger] labels@[j])@,
                        #[trigger] ("owner="@ + other),
                    )
            },
{
    lemma_last_owner(labels@, labels@.len());
    let kind = "owner="@;
    match r {
        Owner::Unowned => {
            assert forall|team: Seq<char>| !asks_for(labels@, kind, team) by {
                if asks_for(labels@, kind, team) {
                    let i = choose|i: int|
                        0 <= i < labels@.len() && carried((#[trigger] labels@[i])@, kind + team);
                    lemma_named(labels@[i]@, kind, team);
                }
            }
        },
        Owner::Team(team) => {
            let i = choose|i: int|
                {
                    &&& 0 <= i < labels@.len()
                    &&& policy::label_owner((#[trigger] labels@[i])@) == Some(team@)
                    &&& forall|j: int|
                        i < j < labels@.len() ==> policy::label_owner(
                            (#[trigger] labels@[j])@,
                        ) is None
                };
            lemma_named(labels@[i]@, kind, team@);
            assert(asks_for(labels@, kind, team@));
            assert forall|j: int, other: Seq<char>| i < j < labels@.len() implies !carried(
                (#[trigger] labels@[j])@,
                #[trigger] (kind + other),
            ) by {
                lemma_named(labels@[j]@, kind, other);
            }
        },
    }
}

proof fn lemma_last_owner(labels: Seq<String>, n: nat)
    requires
        n <= labels.len(),
    ensures
        policy::last_owner(labels, n) is None ==> forall|i: int|
            0 <= i < n ==> policy::label_owner((#[trigger] labels[i])@) is None,
        policy::last_owner(labels, n) matches Some(team) ==> exists|i: int|
            {
                &&& 0 <= i < n
                &&& policy::label_owner((#[trigger] labels[i])@) == Some(team)
                &&& forall|j: int|
                    i < j < n ==> policy::label_owner((#[trigger] labels[j])@) is None
            },
    decreases n,
{
    if n > 0 {
        match policy::label_owner(labels[n - 1]@) {
            Some(team) => {
                assert(policy::label_owner(labels[n - 1]@) == Some(team));
            },
            None => {
                lemma_last_owner(labels, (n - 1) as nat);
            },
        }
    }
}

/// The milliseconds of one unit of a timeout; a bare number counts seconds.
pub open spec fn unit_millis(unit: Seq<char>) -> Option<nat> {
    if unit == "ms"@ {
        Some(1)
    } else if unit == "s"@ || unit == ""@ {
        Some(1_000)
    } else if unit == "m"@ {
        Some(60_000)
    } else if unit == "h"@ {
        Some(3_600_000)
    } else {
        None
    }
}

/// Whether a label sets a timeout of `millis` milliseconds: `timeout=`, a decimal
/// number and its unit.
pub open spec fn sets_timeout(label: Seq<char>, millis: nat) -> bool {
    exists|n: nat, unit: Seq<char>|
        {
            &&& carried(label, "timeout="@ + #[trigger] (text::decimal(n) + unit))
            &&& unit_millis(unit) is Some
            &&& millis == n * unit_millis(unit)->0
        }
}

/// A test may run for the longest time that a label sets: no label sets a longer
/// one, and one of them sets it where they all are numbers with a unit. The runner's
/// default counts where no label sets a time.
pub proof fn law_the_longest_timeout_counts(labels: &[String], r: TestTimeout)
    requires
        call_ensures(test_timeout, (labels,), r),
    ensures
        (forall|rest: Seq<char>| !asks_for(labels@, "timeout="@, rest)) ==> r is Default,
        forall|i: int, millis: nat|
            0 <= i < labels@.len() && #[trigger] sets_timeout(labels@[i]@, millis) && millis
                <= u64::MAX ==> r is Fixed && r->0.total_millis() >= millis,
        r matches TestTimeout::Fixed(d) ==> d.spec_nanos() % 1_000_000 == 0 && ((forall|i: int|
            0 <= i < labels@.len() ==> only_plain_timeouts((#[trigger] labels@[i])@)) ==> exists|
            i: int,
        |
            0 <= i < labels@.len() && sets_timeout((#[trigger] labels@[i])@, d.total_millis())),
{
    let kind = "timeout="@;
    policy::lemma_longest_timeout(labels@, labels@.len());
    if forall|rest: Seq<char>| !asks_for(labels@, kind, rest) {
        assert forall|i: int| 0 <= i < labels@.len() implies policy::label_timeout(
            (#[trigger] labels@[i])@,
        ) is None by {
            match text::strip_prefix(text::label_suffix(labels@[i]@), kind) {
                Some(rest) => {
                    lemma_named(labels@[i]@, kind, rest);
                    assert(asks_for(labels@, kind, rest));
                },
                None => {},
            }
        }
    }
    assert forall|i: int, millis: nat|
        0 <= i < labels@.len() && #[trigger] sets_timeout(labels@[i]@, millis) && millis
            <= u64::MAX implies r is Fixed && r->0.total_millis() >= millis by {
        lemma_sets_timeout(labels@[i]@, millis);
    }
    if let TestTimeout::Fixed(d) = r {
        if forall|i: int|
            0 <= i < labels@.len() ==> only_plain_timeouts((#[trigger] labels@[i])@) {
            let i = choose|i: int|
                0 <= i < labels@.len() && policy::label_timeout((#[trigger] labels@[i])@) == Some(
                    d.total_millis(),
                );
            let rest = text::strip_prefix(text::label_suffix(labels@[i]@), kind)->0;
            lemma_named(labels@[i]@, kind, rest);
            assert(only_plain_timeouts(labels@[i]@));
            let millis = choose|millis: nat|
                millis <= u64::MAX && #[trigger] sets_timeout(labels@[i]@, millis);
            lemma_sets_timeout(labels@[i]@, millis);
        }
    }
}

/// Whether a label, if it sets a timeout at all, sets it by a number and a unit,
/// and to no more milliseconds than 64 bits count.
pub open spec fn only_plain_timeouts(label: Seq<char>) -> bool {
    forall|rest: Seq<char>|
        carried(label, #[trigger] ("timeout="@ + rest)) ==> exists|millis: nat|
            millis <= u64::MAX && #[trigger] sets_timeout(label, millis)
}

proof fn lemma_sets_timeout(label: Seq<char>, millis: nat)
    requires
        sets_timeout(label, millis),
        millis <= u64::MAX,
    ensures
        policy::label_timeout(label) == Some(millis),
{
    let (n, unit) = choose|n: nat, unit: Seq<char>|
        {
            &&& carried(label, "timeout="@ + #[trigger] (text::decimal(n) + unit))
            &&& unit_millis(unit) is Some
            &&& millis == n * unit_millis(unit)->0
        };
    let digits = text::decimal(n);
    lemma_named(label, "timeout="@, digits + unit);
    lemma_timeout_reads(n, unit);
}

proof fn lemma_timeout_reads(n: nat, unit: Seq<char>)
    requires
        unit_millis(unit) is Some,
        n * unit_millis(unit)->0 <= u64::MAX,
    ensures
        policy::timeout_millis(text::decimal(n) + unit) == Some(n * unit_millis(unit)->0),
{
    reveal_strlit("ms");
    reveal_strlit("s");
    reveal_strlit("");
    reveal_strlit("m");
    reveal_strlit("h");
    let digits = text::decimal(n);
    let all = digits + unit;
    text::lemma_decimal_reads_back(n);
    assert(text::is_digit(digits[0]));
    assert(text::is_digit(digits.last()));
    assert(all[0] == digits[0]);
    assert(text::trim_start(all) == all);
    assert(!text::is_space(all.last()));
    assert(text::trim(all) == all);
    assert(text::trim_start(digits) == digits);
    assert(text::trim(digits) == digits);
    assert(n <= u64::MAX) by (nonlinear_arith)
        requires
            n * unit_millis(unit)->0 <= u64::MAX,
            unit_millis(unit)->0 >= 1,
    ;
    assert(text::parse_unsigned(digits, u64::MAX as nat) == Some(n));
    let last = digits.last();
    if unit == "ms"@ {
        assert("ms"@.is_suffix_of(all));
        assert(all.take(all.len() - 2) =~= digits);
    } else if unit == "s"@ {
        assert(all[all.len() - 1] == 's');
        assert(all.len() >= 2 && all[all.len() - 2] == last);
        assert(!"ms"@.is_suffix_of(all)) by {
            if "ms"@.is_suffix_of(all) {
                assert("ms"@[0] == all[all.len() - 2]);
            }
        }
        assert("s"@.is_suffix_of(all));
        assert(all.take(all.len() - 1) =~= digits);
    } else if unit == "m"@ {
        assert(all.last() == 'm');
        assert(!"ms"@.is_suffix_of(all)) by {
            if "ms"@.is_suffix_of(all) {
                assert("ms"@[1] == all[all.len() - 1]);
            }
        }
        assert(!"s"@.is_suffix_of(all)) by {
            if "s"@.is_suffix_of(all) {
                assert("s"@[0] == all[all.len() - 1]);
            }
        }
        assert("m"@.is_suffix_of(all));
        assert(all.take(all.len() - 1) =~= digits);
    } else if unit == "h"@ {
        assert(all.last() == 'h');
        assert(!"ms"@.is_suffix_of(all)) by {
            if "ms"@.is_suffix_of(all) {
                assert("ms"@[1] == all[all.len() - 1]);
            }
        }
        assert(!"s"@.is_suffix_of(all)) by {
            if "s"@.is_suffix_of(all) {
                assert("s"@[0] == all[all.len() - 1]);
            }
        }
        assert(!"m"@.is_suffix_of(all)) by {
            if "m"@.is_suffix_of(all) {
                assert("m"@[0] == all[all.len() - 1]);
            }
        }
        assert("h"@.is_suffix_of(all));
        assert(all.take(all.len() - 1) =~= digits);
    } else {
        assert(all =~= digits);
        assert(!"ms"@.is_suffix_of(all)) by {
            if "ms"@.is_suffix_of(all) {
                assert("ms"@[1] == all[all.len() - 1]);
            }
        }
        assert(!"s"@.is_suffix_of(all)) by {
            if "s"@.is_suffix_of(all) {
                assert("s"@[0] == all[all.len() - 1]);
            }
        }
        assert(!"m"@.is_suffix_of(all)) by {
            if "m"@.is_suffix_of(all) {
                assert("m"@[0] == all[all.len() - 1]);
            }
        }
        assert(!"h"@.is_suffix_of(all)) by {
            if "h"@.is_suffix_of(all) {
                assert("h"@[0] == all[all.len() - 1]);
            }
        }
    }
}

} // verus!
