//! Semantic environment constraints for test execution.
//!
//! Models the hardware capabilities, host isolation requirements, and external
//! services a test needs to run, decoupled from infrastructure queue names or
//! transport details.

use vstd::prelude::*;

use crate::text::{
    self, any_label, copy_strings, label_suffix_of, string_of, strip_prefix_chars, text_less,
};

verus! {

/// The isolation level required by the test.
#[derive(Debug, Clone, Copy, PartialEq, Eq, Structural)]
pub enum HostExclusivity {
    Shared,
    Exclusive,
}

impl Default for HostExclusivity {
    fn default() -> (r: Self)
        ensures
            r is Shared,
    {
        HostExclusivity::Shared
    }
}

/// The hardware constraints for the environment.
#[derive(Debug, Clone, Copy, PartialEq, Eq, Structural)]
pub struct HardwareNeeds {
    pub requires_gpu: bool,
    pub requires_large_mem: bool,
    pub network_isolated: bool,
    pub listing_only: bool,
    pub local_debug: bool,
}

/// Hardware needs without any constraint.
pub open spec fn no_needs() -> HardwareNeeds {
    HardwareNeeds {
        requires_gpu: false,
        requires_large_mem: false,
        network_isolated: false,
        listing_only: false,
        local_debug: false,
    }
}

impl Default for HardwareNeeds {
    fn default() -> (r: Self)
        ensures
            r == no_needs(),
    {
        HardwareNeeds {
            requires_gpu: false,
            requires_large_mem: false,
            network_isolated: false,
            listing_only: false,
            local_debug: false,
        }
    }
}

/// All constraints of both.
pub open spec fn needs_of_both(a: HardwareNeeds, b: HardwareNeeds) -> HardwareNeeds {
    HardwareNeeds {
        requires_gpu: a.requires_gpu || b.requires_gpu,
        requires_large_mem: a.requires_large_mem || b.requires_large_mem,
        network_isolated: a.network_isolated || b.network_isolated,
        listing_only: a.listing_only || b.listing_only,
        local_debug: a.local_debug || b.local_debug,
    }
}

/// Whether no machine has all that is needed: no queue offers a GPU and a large
/// memory together.
pub open spec fn in_conflict(needs: HardwareNeeds) -> bool {
    needs.requires_gpu && needs.requires_large_mem
}

/// Two constraints that cannot be met together.
#[derive(Debug, Clone, Copy, PartialEq, Eq)]
pub struct ConstraintConflictError(pub &'static str);

/// Why a GPU and a large memory cannot be had together.
pub open spec fn hardware_conflict() -> Seq<char> {
    "Cannot satisfy both gpu and large-mem hardware needs."@
}

impl ConstraintConflictError {
    /// The message of the error.
    pub fn message(&self) -> (r: String)
        ensures
            r@ == "Constraint conflict: "@ + self.0@,
    {
        let mut out: String = "Constraint conflict: ".to_owned();
        out.push_str(self.0);
        out
    }
}

impl HardwareNeeds {
    /// Combines two hardware needs, or fails when they cannot be met together.
    pub fn combine(self, other: HardwareNeeds) -> (r: Result<
        HardwareNeeds,
        ConstraintConflictError,
    >)
        ensures
            r is Err <==> in_conflict(needs_of_both(self, other)),
            r matches Ok(merged) ==> merged == needs_of_both(self, other),
            r matches Err(e) ==> e.0@ == hardware_conflict(),
    {
        let merged = HardwareNeeds {
            requires_gpu: self.requires_gpu || other.requires_gpu,
            requires_large_mem: self.requires_large_mem || other.requires_large_mem,
            network_isolated: self.network_isolated || other.network_isolated,
            listing_only: self.listing_only || other.listing_only,
            local_debug: self.local_debug || other.local_debug,
        };
        if merged.requires_gpu && merged.requires_large_mem {
            return Err(
                ConstraintConflictError("Cannot satisfy both gpu and large-mem hardware needs."),
            );
        }
        Ok(merged)
    }
}

/// A set of resource names, kept in ascending order.
#[derive(Debug, PartialEq, Eq)]
pub struct ResourceSet {
    names: Vec<String>,
}

impl View for ResourceSet {
    type V = Set<Seq<char>>;

    closed spec fn view(&self) -> Set<Seq<char>> {
        text::views(self.names@).to_set()
    }
}

impl ResourceSet {
    #[verifier::type_invariant]
    spec fn inv(self) -> bool {
        text::ascending(text::views(self.names@))
    }

    /// A set without names.
    pub fn new() -> (r: ResourceSet)
        ensures
            r@ == Set::<Seq<char>>::empty(),
    {
        let r = ResourceSet { names: Vec::new() };
        proof {
            assert(r@ =~= Set::<Seq<char>>::empty());
        }
        r
    }

    /// Whether the set has no names.
    pub fn is_empty(&self) -> (r: bool)
        ensures
            r <==> self@ == Set::<Seq<char>>::empty(),
    {
        proof {
            let v = text::views(self.names@);
            if v.len() > 0 {
                assert(v.contains(v[0]));
                assert(self@.contains(v[0]));
            } else {
                assert(self@ =~= Set::<Seq<char>>::empty());
            }
        }
        self.names.len() == 0
    }

    /// The names in ascending order.
    pub fn names(&self) -> (r: &Vec<String>)
        ensures
            text::ascending(text::views(r@)),
            text::views(r@).to_set() == self@,
    {
        proof {
            use_type_invariant(self);
        }
        &self.names
    }

    /// The set with one more name.
    pub fn with(self, name: String) -> (r: ResourceSet)
        ensures
            r@ == self@.insert(name@),
    {
        proof {
            use_type_invariant(&self);
        }
        let ghost before = text::views(self.names@);
        let mut names: Vec<String> = self.names;
        let mut at: usize = 0;
        while at < names.len() && text_less(names[at].as_str(), name.as_str())
            invariant
                at <= names@.len(),
                before == text::views(names@),
                text::ascending(before),
                forall|k: int| 0 <= k < at ==> text::text_lt(#[trigger] before[k], name@),
            decreases names@.len() - at,
        {
            proof {
                assert(before[at as int] == names@[at as int]@);
            }
            at = at + 1;
        }
        if at < names.len() && names[at] == name {
            proof {
                assert(before[at as int] == name@);
                assert(before.contains(name@));
                assert(before.to_set() =~= before.to_set().insert(name@));
            }
            return ResourceSet { names };
        }
        let ghost placed = before.insert(at as int, name@);
        proof {
            assert forall|k: int| at <= k < before.len() implies text::text_lt(
                name@,
                #[trigger] before[k],
            ) by {
                text::lemma_text_lt_total(before[at as int], name@);
                assert(before[at as int] == names@[at as int]@);
                if k > at {
                    text::lemma_text_lt_transitive(name@, before[at as int], before[k]);
                }
            }
            assert forall|i: int, j: int| 0 <= i < j < placed.len() implies text::text_lt(
                #[trigger] placed[i],
                #[trigger] placed[j],
            ) by {
                let x = if i < at {
                    before[i]
                } else if i == at {
                    name@
                } else {
                    before[i - 1]
                };
                let y = if j < at {
                    before[j]
                } else if j == at {
                    name@
                } else {
                    before[j - 1]
                };
                assert(placed[i] == x && placed[j] == y);
            }
            assert(placed.to_set() =~= before.to_set().insert(name@)) by {
                assert forall|x: Seq<char>| placed.contains(x) <==> (before.contains(x) || x
                    == name@) by {
                    if before.contains(x) {
                        let n = choose|n: int| 0 <= n < before.len() && before[n] == x;
                        assert(placed[if n < at {
                            n
                        } else {
                            n + 1
                        }] == x);
                    }
                    if x == name@ {
                        assert(placed[at as int] == x);
                    }
                    if placed.contains(x) {
                        let n = choose|n: int| 0 <= n < placed.len() && placed[n] == x;
                        if n < at {
                            assert(before[n] == x);
                        } else if n > at {
                            assert(before[n - 1] == x);
                        }
                    }
                }
            }
        }
        names.insert(at, name);
        proof {
            assert(text::views(names@) =~= placed);
        }
        ResourceSet { names }
    }

    /// The names of both sets.
    pub fn union(self, other: &ResourceSet) -> (r: ResourceSet)
        ensures
            r@ == self@.union(other@),
    {
        let mut out: ResourceSet = self;
        let mut i: usize = 0;
        let ghost theirs = text::views(other.names@);
        proof {
            assert(theirs.take(0).to_set() =~= Set::empty());
            assert(self@.union(theirs.take(0).to_set()) =~= self@);
        }
        while i < other.names.len()
            invariant
                i <= other.names@.len(),
                theirs == text::views(other.names@),
                out@ == self@.union(theirs.take(i as int).to_set()),
            decreases other.names@.len() - i,
        {
            proof {
                assert(theirs.take(i + 1) =~= theirs.take(i as int).push(theirs[i as int]));
                assert(theirs.take(i + 1).to_set() =~= theirs.take(i as int).to_set().insert(
                    theirs[i as int],
                )) by {
                    broadcast use vstd::seq_lib::group_seq_properties;

                }
            }
            out = out.with(other.names[i].clone());
            proof {
                assert(out@ =~= self@.union(theirs.take(i + 1).to_set()));
            }
            i = i + 1;
        }
        proof {
            assert(theirs.take(theirs.len() as int) =~= theirs);
        }
        out
    }
}

impl Clone for ResourceSet {
    fn clone(&self) -> (r: ResourceSet)
        ensures
            r@ == self@,
    {
        proof {
            use_type_invariant(self);
        }
        ResourceSet { names: copy_strings(self.names.as_slice()) }
    }
}

/// The total execution profile constraint.
#[derive(Debug, PartialEq, Eq)]
pub struct SchedulingProfile {
    pub hardware: HardwareNeeds,
    pub exclusivity: HostExclusivity,
    pub local_resources: ResourceSet,
}

impl Clone for SchedulingProfile {
    fn clone(&self) -> (r: SchedulingProfile)
        ensures
            r.hardware == self.hardware,
            r.exclusivity == self.exclusivity,
            r.local_resources@ == self.local_resources@,
    {
        SchedulingProfile {
            hardware: self.hardware,
            exclusivity: self.exclusivity,
            local_resources: self.local_resources.clone(),
        }
    }
}

impl Default for SchedulingProfile {
    fn default() -> (r: Self)
        ensures
            r.hardware == no_needs(),
            r.exclusivity is Shared,
            r.local_resources@ == Set::<Seq<char>>::empty(),
    {
        SchedulingProfile {
            hardware: HardwareNeeds::default(),
            exclusivity: HostExclusivity::Shared,
            local_resources: ResourceSet::new(),
        }
    }
}

impl SchedulingProfile {
    /// All constraints of both profiles, or an error when their hardware needs
    /// cannot be met together.
    pub fn combine(self, other: SchedulingProfile) -> (r: Result<
        SchedulingProfile,
        ConstraintConflictError,
    >)
        ensures
            r is Err <==> in_conflict(needs_of_both(self.hardware, other.hardware)),
            r matches Ok(p) ==> p.hardware == needs_of_both(self.hardware, other.hardware)
                && p.exclusivity is Exclusive == (self.exclusivity is Exclusive
                || other.exclusivity is Exclusive) && p.local_resources@
                == self.local_resources@.union(other.local_resources@),
            r matches Err(e) ==> e.0@ == hardware_conflict(),
    {
        let hardware: HardwareNeeds = match self.hardware.combine(other.hardware) {
            Ok(h) => h,
            Err(e) => {
                return Err(e);
            },
        };
        let exclusivity: HostExclusivity = match other.exclusivity {
            HostExclusivity::Exclusive => HostExclusivity::Exclusive,
            HostExclusivity::Shared => self.exclusivity,
        };
        let local_resources: ResourceSet = self.local_resources.union(&other.local_resources);
        Ok(SchedulingProfile { hardware, exclusivity, local_resources })
    }
}

/// Combining constraints does not depend on their order, and constraints only
/// add up: a conflict cannot be combined away.
pub proof fn law_constraints_add_up(a: HardwareNeeds, b: HardwareNeeds, c: HardwareNeeds)
    ensures
        needs_of_both(a, b) == needs_of_both(b, a),
        needs_of_both(needs_of_both(a, b), c) == needs_of_both(a, needs_of_both(b, c)),
        needs_of_both(a, no_needs()) == a,
        in_conflict(a) ==> in_conflict(needs_of_both(a, b)),
{
}

/// The resource that a label asks for.
pub open spec fn resource_of(label: Seq<char>) -> Option<Seq<char>> {
    text::strip_prefix(text::label_suffix(label), "local-resource="@)
}

/// The resources that labels ask for.
pub open spec fn resources_of(labels: Seq<String>) -> Set<Seq<char>> {
    Set::new(
        |r: Seq<char>|
            exists|i: int| 0 <= i < labels.len() && resource_of((#[trigger] labels[i])@) == Some(r),
    )
}

/// The hardware that labels ask for.
pub open spec fn hardware_of(labels: Seq<String>) -> HardwareNeeds {
    HardwareNeeds {
        requires_gpu: text::says(labels, "gpu"@),
        requires_large_mem: text::says(labels, "large-mem"@),
        network_isolated: text::says(labels, "network-private"@),
        listing_only: false,
        local_debug: false,
    }
}

/// The profile of a target with these labels, or an error when no machine has
/// what they ask for.
pub fn profile_from_labels(labels: &[String]) -> (r: Result<
    SchedulingProfile,
    ConstraintConflictError,
>)
    ensures
        r is Err <==> in_conflict(hardware_of(labels@)),
        r matches Ok(p) ==> p.hardware == hardware_of(labels@) && p.exclusivity is Exclusive == (
        text::says(labels@, "exclusive"@) || text::says(labels@, "serial_global_state"@))
            && p.local_resources@ == resources_of(labels@),
        r matches Err(e) ==> e.0@ == hardware_conflict(),
{
    let wanted = HardwareNeeds {
        requires_gpu: any_label(labels, "gpu"),
        requires_large_mem: any_label(labels, "large-mem"),
        network_isolated: any_label(labels, "network-private"),
        listing_only: false,
        local_debug: false,
    };
    let hardware: HardwareNeeds = match HardwareNeeds::default().combine(wanted) {
        Ok(h) => h,
        Err(e) => {
            return Err(e);
        },
    };
    let exclusivity: HostExclusivity = if any_label(labels, "exclusive") || any_label(
        labels,
        "serial_global_state",
    ) {
        HostExclusivity::Exclusive
    } else {
        HostExclusivity::Shared
    };
    let mut local_resources: ResourceSet = ResourceSet::new();
    let mut i: usize = 0;
    proof {
        assert(resources_of(labels@.take(0)) =~= Set::empty());
    }
    while i < labels.len()
        invariant
            i <= labels@.len(),
            local_resources@ == resources_of(labels@.take(i as int)),
        decreases labels@.len() - i,
    {
        let suffix: Vec<char> = label_suffix_of(labels[i].as_str());
        let ghost seen = labels@.take(i as int);
        let ghost more = labels@.take(i + 1);
        let found: Option<Vec<char>> = strip_prefix_chars(suffix.as_slice(), "local-resource=");
        proof {
            lemma_resources_grow(seen, labels@[i as int]);
            assert(more =~= seen.push(labels@[i as int]));
        }
        if let Some(name) = found {
            local_resources = local_resources.with(string_of(name.as_slice()));
        }
        i = i + 1;
    }
    proof {
        assert(labels@.take(labels@.len() as int) =~= labels@);
    }
    Ok(SchedulingProfile { hardware, exclusivity, local_resources })
}

proof fn lemma_resources_grow(labels: Seq<String>, label: String)
    ensures
        resources_of(labels.push(label)) == (match resource_of(label@) {
            Some(r) => resources_of(labels).insert(r),
            None => resources_of(labels),
        }),
{
    let more = labels.push(label);
    let expected = match resource_of(label@) {
        Some(r) => resources_of(labels).insert(r),
        None => resources_of(labels),
    };
    assert forall|x: Seq<char>| #[trigger] resources_of(more).contains(x) <==> expected.contains(
        x,
    ) by {
        if resources_of(more).contains(x) {
            let i = choose|i: int| 0 <= i < more.len() && resource_of((#[trigger] more[i])@) == Some(x);
            if i < labels.len() {
                assert(labels[i] == more[i]);
            }
        }
        if resources_of(labels).contains(x) {
            let i = choose|i: int|
                0 <= i < labels.len() && resource_of((#[trigger] labels[i])@) == Some(x);
            assert(more[i] == labels[i]);
        }
        if resource_of(label@) == Some(x) {
            assert(more[labels.len() as int] == label);
        }
    }
    assert(resources_of(more) =~= expected);
}

} // verus!
