//! The cold, immutable per-target data read once from an [`ExternalRunnerSpec`].
//!
//! It is shared by every action of the target (across variants, stress
//! repetitions and retries) and read only when a request is built or a final
//! result is formatted.

use vstd::prelude::*;

use crate::ids::TargetHandle;
use crate::proto::{
    ConfiguredTargetHandle, ExternalRunnerSpec, ExternalRunnerSpecValue, SpecValue,
};
use crate::text::{self, text_less};

verus! {

/// An argument in a command or environment.
#[derive(Debug, Clone, PartialEq, Eq)]
pub enum CommandArg {
    Verbatim(String),
    ArgHandle(i64),
    EnvHandle(String),
}

impl CommandArg {
    /// Whether the argument is what the spec value holds.
    pub open spec fn is_value(self, v: ExternalRunnerSpecValue) -> bool {
        match v.value {
            Some(SpecValue::Verbatim(s)) => self == CommandArg::Verbatim(s),
            Some(SpecValue::ArgHandle(i)) => self == CommandArg::ArgHandle(i),
            Some(SpecValue::EnvHandle(s)) => self == CommandArg::EnvHandle(s),
            None => false,
        }
    }

    /// The argument that a spec value holds.
    pub fn from_proto(v: ExternalRunnerSpecValue) -> (r: Self)
        requires
            v.value is Some,
        ensures
            r.is_value(v),
    {
        match v.value.unwrap() {
            SpecValue::Verbatim(s) => CommandArg::Verbatim(s),
            SpecValue::ArgHandle(i) => CommandArg::ArgHandle(i),
            SpecValue::EnvHandle(s) => CommandArg::EnvHandle(s),
        }
    }
}

/// Cold per-target data.
#[derive(Debug, Clone)]
pub struct TargetSpec {
    /// Wire handle echoed back on every report/execute for this target.
    pub handle: TargetHandle,
    /// The suite identity, identical across the listing stage and every test
    /// stage.
    pub suite: String,
    /// Human-readable `cell//package:target` for result names and logs.
    pub display: String,
    /// The configuration the target was built in, when there is one.
    pub target_platform: Option<String>,
    /// The provider's type (selects the translator).
    pub test_type: String,
    /// Base command: verbatim args and opaque handles, echoed back unmodified.
    pub command: Vec<CommandArg>,
    /// Environment, sorted by key for deterministic requests.
    pub env: Vec<(String, CommandArg)>,
    pub labels: Vec<String>,
    pub contacts: Vec<String>,
    pub oncall: Option<String>,
}

/// Why a spec cannot be used.
#[derive(Debug, Clone, Copy, PartialEq, Eq, Structural)]
pub enum SpecError {
    /// The spec names no target.
    MissingTarget,
    /// The target has no handle.
    MissingHandle,
}

impl SpecError {
    /// The message of the error.
    pub open spec fn spec_message(self) -> Seq<char> {
        match self {
            SpecError::MissingTarget => "ExternalRunnerSpec missing target"@,
            SpecError::MissingHandle => "ExternalRunnerSpec target missing handle"@,
        }
    }

    /// The message of the error.
    pub fn message(&self) -> (r: String)
        ensures
            r@ == self.spec_message(),
    {
        match self {
            SpecError::MissingTarget => "ExternalRunnerSpec missing target".to_owned(),
            SpecError::MissingHandle => "ExternalRunnerSpec target missing handle".to_owned(),
        }
    }
}

/// `cell//package:target`.
pub open spec fn target_display(cell: Seq<char>, package: Seq<char>, target: Seq<char>) -> Seq<
    char,
> {
    cell + "//"@ + package + ":"@ + target
}

/// `cell//package:target`.
pub fn display_of(cell: &str, package: &str, target: &str) -> (r: String)
    ensures
        r@ == target_display(cell@, package@, target@),
{
    let mut out: String = cell.to_owned();
    out.push_str("//");
    out.push_str(package);
    out.push_str(":");
    out.push_str(target);
    out
}

/// Whether every command and environment value of a spec has a payload.
pub open spec fn values_present(spec: ExternalRunnerSpec) -> bool {
    &&& forall|i: int| 0 <= i < spec.command@.len() ==> (#[trigger] spec.command@[i]).value is Some
    &&& forall|i: int| 0 <= i < spec.env@.len() ==> (#[trigger] spec.env@[i]).1.value is Some
}

/// Whether every command and environment value of a spec has a payload, so that the
/// spec can be read.
pub fn values_are_present(spec: &ExternalRunnerSpec) -> (r: bool)
    ensures
        r == values_present(*spec),
{
    let mut i: usize = 0;
    while i < spec.command.len()
        invariant
            i <= spec.command.len(),
            forall|k: int| 0 <= k < i ==> (#[trigger] spec.command@[k]).value is Some,
        decreases spec.command.len() - i,
    {
        if spec.command[i].value.is_none() {
            return false;
        }
        i += 1;
    }
    let mut j: usize = 0;
    while j < spec.env.len()
        invariant
            j <= spec.env.len(),
            forall|k: int| 0 <= k < j ==> (#[trigger] spec.env@[k]).1.value is Some,
        decreases spec.env.len() - j,
    {
        if spec.env[j].1.value.is_none() {
            return false;
        }
        j += 1;
    }
    true
}

/// Whether the environment is sorted by key.
pub open spec fn sorted_by_key(env: Seq<(String, CommandArg)>) -> bool {
    forall|i: int, j: int|
        0 <= i < j < env.len() ==> !text::text_lt((#[trigger] env[j]).0@, (#[trigger] env[i]).0@)
}

/// Whether `order` is a permutation of the first `n` positions.
pub open spec fn is_permutation(order: Seq<int>, n: nat) -> bool {
    &&& order.len() == n
    &&& order.no_duplicates()
    &&& forall|i: int| 0 <= i < n ==> 0 <= #[trigger] order[i] < n
}

/// Whether `env` holds the variables of `wire`, each once, sorted by key.
pub open spec fn sorted_env(
    wire: Seq<(String, ExternalRunnerSpecValue)>,
    env: Seq<(String, CommandArg)>,
) -> bool {
    &&& sorted_by_key(env)
    &&& exists|order: Seq<int>| #[trigger]
        is_permutation(order, wire.len()) && env.len() == wire.len() && forall|i: int|
            0 <= i < env.len() ==> (#[trigger] env[i]).0 == wire[order[i]].0 && env[i].1.is_value(
                wire[order[i]].1,
            )
}

/// A permutation reaches every position.
pub proof fn lemma_permutation_reaches(order: Seq<int>, n: nat, at: int) -> (i: int)
    requires
        is_permutation(order, n),
        0 <= at < n,
    ensures
        0 <= i < n,
        order[i] == at,
{
    let all = vstd::set_lib::set_int_range(0, n as int);
    vstd::set_lib::lemma_int_range(0, n as int);
    order.unique_seq_to_set();
    assert(order.to_set().subset_of(all)) by {
        assert forall|x: int| order.to_set().contains(x) implies all.contains(x) by {
            let k = choose|k: int| 0 <= k < order.len() && order[k] == x;
            assert(0 <= order[k] < n);
        }
    }
    vstd::set_lib::lemma_subset_equality(order.to_set(), all);
    assert(order.to_set().contains(at));
    choose|i: int| 0 <= i < order.len() && order[i] == at
}

/// Two arrangements of distinct keys that are both sorted agree position by
/// position.
proof fn lemma_sorted_arrangements_agree(
    keys: Seq<Seq<char>>,
    a: Seq<int>,
    b: Seq<int>,
    i: int,
)
    requires
        is_permutation(a, keys.len()),
        is_permutation(b, keys.len()),
        forall|x: int, y: int|
            0 <= x < y < keys.len() ==> #[trigger] keys[x] != #[trigger] keys[y],
        forall|x: int, y: int|
            0 <= x < y < keys.len() ==> !text::text_lt(keys[#[trigger] a[y]], keys[#[trigger] a[x]]),
        forall|x: int, y: int|
            0 <= x < y < keys.len() ==> !text::text_lt(keys[#[trigger] b[y]], keys[#[trigger] b[x]]),
        0 <= i < keys.len(),
    ensures
        a[i] == b[i],
    decreases i,
{
    assert forall|j: int| 0 <= j < i implies a[j] == b[j] by {
        lemma_sorted_arrangements_agree(keys, a, b, j);
    }
    let m = lemma_permutation_reaches(b, keys.len(), a[i]);
    let k = lemma_permutation_reaches(a, keys.len(), b[i]);
    assert(m >= i) by {
        if m < i {
            assert(a[m] == b[m]);
        }
    }
    assert(k >= i) by {
        if k < i {
            assert(a[k] == b[k]);
        }
    }
    if m > i {
        assert(!text::text_lt(keys[b[m]], keys[b[i]]));
    }
    if k > i {
        assert(!text::text_lt(keys[a[k]], keys[a[i]]));
    }
    text::lemma_text_lt_total(keys[a[i]], keys[b[i]]);
    if a[i] < b[i] {
        assert(keys[a[i]] != keys[b[i]]);
    } else if b[i] < a[i] {
        assert(keys[b[i]] != keys[a[i]]);
    }
}

/// Requests are deterministic: in whatever order the variables of an environment
/// arrive, it reads the same.
pub proof fn law_environment_order_does_not_matter(
    wire: Seq<(String, ExternalRunnerSpecValue)>,
    again: Seq<(String, ExternalRunnerSpecValue)>,
    moved: Seq<int>,
    env: Seq<(String, CommandArg)>,
    other: Seq<(String, CommandArg)>,
)
    requires
        forall|i: int, j: int|
            0 <= i < j < wire.len() ==> (#[trigger] wire[i]).0@ != (#[trigger] wire[j]).0@,
        is_permutation(moved, wire.len()),
        again.len() == wire.len(),
        forall|i: int| 0 <= i < wire.len() ==> #[trigger] again[i] == wire[moved[i]],
        sorted_env(wire, env),
        sorted_env(again, other),
    ensures
        env == other,
{
    let n = wire.len();
    let a = choose|order: Seq<int>| #[trigger]
        is_permutation(order, n) && env.len() == n && forall|i: int|
            0 <= i < env.len() ==> (#[trigger] env[i]).0 == wire[order[i]].0 && env[i].1.is_value(
                wire[order[i]].1,
            );
    let o = choose|order: Seq<int>| #[trigger]
        is_permutation(order, n) && other.len() == n && forall|i: int|
            0 <= i < other.len() ==> (#[trigger] other[i]).0 == again[order[i]].0
                && other[i].1.is_value(again[order[i]].1);
    let b = Seq::new(n, |i: int| moved[o[i]]);
    assert(is_permutation(b, n)) by {
        assert forall|i: int, j: int| 0 <= i < n && 0 <= j < n && i != j implies b[i] != b[j] by {
            assert(o[i] != o[j]);
            assert(moved[o[i]] != moved[o[j]]);
        }
        assert forall|i: int| 0 <= i < n implies 0 <= #[trigger] b[i] < n by {
            assert(0 <= o[i] < n);
        }
    }
    let keys = Seq::new(n, |i: int| wire[i].0@);
    assert forall|i: int| 0 <= i < n implies (#[trigger] other[i]).0 == wire[b[i]].0
        && other[i].1.is_value(wire[b[i]].1) by {
        assert(0 <= o[i] < n);
        assert(again[o[i]] == wire[moved[o[i]]]);
    }
    assert forall|x: int, y: int| 0 <= x < y < n implies !text::text_lt(
        keys[#[trigger] a[y]],
        keys[#[trigger] a[x]],
    ) by {
        assert(!text::text_lt(env[y].0@, env[x].0@));
        assert(0 <= a[x] < n && 0 <= a[y] < n);
    }
    assert forall|x: int, y: int| 0 <= x < y < n implies !text::text_lt(
        keys[#[trigger] b[y]],
        keys[#[trigger] b[x]],
    ) by {
        assert(!text::text_lt(other[y].0@, other[x].0@));
        assert(0 <= b[x] < n && 0 <= b[y] < n);
    }
    assert forall|i: int| 0 <= i < n implies env[i] == other[i] by {
        lemma_sorted_arrangements_agree(keys, a, b, i);
        assert(env[i].0 == wire[a[i]].0);
        assert(other[i].0 == wire[b[i]].0);
    }
    assert(env =~= other);
}

/// Whether `parsed` is what a spec with target and handle says.
pub open spec fn parsed_from(spec: ExternalRunnerSpec, parsed: TargetSpec) -> bool {
    let target = spec.target->0;
    &&& parsed.handle.0 == (target.handle->0).id
    &&& parsed.display@ == target_display(target.cell@, target.package@, target.target@)
    &&& parsed.suite@ == parsed.display@
    &&& parsed.target_platform == (if target.configuration@.len() == 0 {
        None
    } else {
        Some(target.configuration)
    })
    &&& parsed.test_type == spec.test_type
    &&& parsed.command@.len() == spec.command@.len()
    &&& forall|i: int|
        0 <= i < parsed.command@.len() ==> (#[trigger] parsed.command@[i]).is_value(spec.command@[i])
    &&& sorted_env(spec.env@, parsed.env@)
    &&& parsed.labels == spec.labels
    &&& parsed.contacts == spec.contacts
    &&& parsed.oncall == spec.oncall
}

fn sort_env(wire: Vec<(String, ExternalRunnerSpecValue)>) -> (r: Vec<(String, CommandArg)>)
    requires
        forall|i: int| 0 <= i < wire@.len() ==> (#[trigger] wire@[i]).1.value is Some,
    ensures
        sorted_env(wire@, r@),
{
    let ghost all = wire@;
    let mut rest: Vec<(String, ExternalRunnerSpecValue)> = wire;
    let mut out: Vec<(String, CommandArg)> = Vec::new();
    let ghost mut order: Seq<int> = Seq::empty();
    while rest.len() > 0
        invariant
            all == wire@,
            rest@ == all.take(rest@.len() as int),
            out@.len() == all.len() - rest@.len(),
            forall|i: int| 0 <= i < all.len() ==> (#[trigger] all[i]).1.value is Some,
            sorted_by_key(out@),
            order.len() == out@.len(),
            order.no_duplicates(),
            forall|i: int|
                0 <= i < out@.len() ==> rest@.len() <= #[trigger] order[i] < all.len(),
            forall|i: int|
                0 <= i < out@.len() ==> (#[trigger] out@[i]).0 == all[order[i]].0
                    && out@[i].1.is_value(all[order[i]].1),
        decreases rest@.len(),
    {
        let ghost n = rest@.len();
        if let Some(item) = rest.pop() {
            proof {
                assert(item == all[n - 1]);
                assert(rest@ =~= all.take(n - 1));
            }
            let key: String = item.0;
            let arg: CommandArg = CommandArg::from_proto(item.1);
            let mut at: usize = 0;
            while at < out.len() && text_less(out[at].0.as_str(), key.as_str())
                invariant
                    at <= out@.len(),
                    forall|k: int| 0 <= k < at ==> text::text_lt((#[trigger] out@[k]).0@, key@),
                decreases out@.len() - at,
            {
                at = at + 1;
            }
            let ghost before = out@;
            let ghost before_order = order;
            out.insert(at, (key, arg));
            proof {
                order = order.insert(at as int, n - 1);
                assert forall|i: int, j: int| 0 <= i < j < out@.len() implies !text::text_lt(
                    (#[trigger] out@[j]).0@,
                    (#[trigger] out@[i]).0@,
                ) by {
                    let a = out@[i].0@;
                    let b = out@[j].0@;
                    text::lemma_text_lt_total(a, b);
                    if i < at && j < at {
                        assert(out@[i] == before[i] && out@[j] == before[j]);
                    } else if i < at && j == at {
                        assert(out@[i] == before[i]);
                    } else if i < at && j > at {
                        assert(out@[i] == before[i] && out@[j] == before[j - 1]);
                    } else if i == at && j > at {
                        let first = before[at as int].0@;
                        text::lemma_text_lt_total(first, key@);
                        if text::text_lt(b, a) {
                            assert(out@[j] == before[j - 1]);
                            if j - 1 > at {
                                text::lemma_text_lt_total(first, b);
                                if first != key@ {
                                    text::lemma_text_lt_transitive(b, key@, first);
                                }
                                assert(!text::text_lt(before[j - 1].0@, before[at as int].0@));
                            }
                        }
                    } else {
                        assert(out@[i] == before[i - 1] && out@[j] == before[j - 1]);
                    }
                }
                assert forall|i: int| 0 <= i < out@.len() implies rest@.len()
                    <= #[trigger] order[i] < all.len() by {
                    if i < at {
                        assert(order[i] == before_order[i]);
                    } else if i > at {
                        assert(order[i] == before_order[i - 1]);
                    }
                }
                assert forall|i: int| 0 <= i < out@.len() implies (#[trigger] out@[i]).0
                    == all[order[i]].0 && out@[i].1.is_value(all[order[i]].1) by {
                    if i < at {
                        assert(out@[i] == before[i] && order[i] == before_order[i]);
                    } else if i > at {
                        assert(out@[i] == before[i - 1] && order[i] == before_order[i - 1]);
                    }
                }
                assert(order.no_duplicates()) by {
                    assert forall|i: int, j: int|
                        0 <= i < order.len() && 0 <= j < order.len() && i != j implies order[i]
                        != order[j] by {
                        let x = if i < at {
                            before_order[i]
                        } else if i == at {
                            n - 1
                        } else {
                            before_order[i - 1]
                        };
                        let y = if j < at {
                            before_order[j]
                        } else if j == at {
                            n - 1
                        } else {
                            before_order[j - 1]
                        };
                        assert(order[i] == x && order[j] == y);
                    }
                }
            }
        }
    }
    proof {
        assert(is_permutation(order, all.len()));
    }
    out
}

/// Whether a spec can be read: where it names a target with a handle, every value has
/// a payload.
pub open spec fn is_readable(spec: ExternalRunnerSpec) -> bool {
    spec.target is Some && (spec.target->0).handle is Some ==> values_present(spec)
}

/// Whether a spec can be read.
pub fn can_be_read(spec: &ExternalRunnerSpec) -> (r: bool)
    ensures
        r == is_readable(*spec),
{
    match &spec.target {
        Some(target) => target.handle.is_none() || values_are_present(spec),
        None => true,
    }
}

impl TargetSpec {
    /// Reads a spec into cold target data. A value without a payload cannot be
    /// read, where it comes to that.
    pub fn from_proto(spec: ExternalRunnerSpec) -> (r: Result<TargetSpec, SpecError>)
        requires
            is_readable(spec),
        ensures
            r == Err::<TargetSpec, SpecError>(SpecError::MissingTarget) <==> spec.target is None,
            r == Err::<TargetSpec, SpecError>(SpecError::MissingHandle) <==> spec.target is Some && (
            spec.target->0).handle is None,
            r matches Ok(parsed) ==> parsed_from(spec, parsed),
    {
        let target = match spec.target {
            Some(t) => t,
            None => {
                return Err(SpecError::MissingTarget);
            },
        };
        let handle: ConfiguredTargetHandle = match target.handle {
            Some(h) => h,
            None => {
                return Err(SpecError::MissingHandle);
            },
        };
        let display: String = display_of(
            target.cell.as_str(),
            target.package.as_str(),
            target.target.as_str(),
        );
        let env: Vec<(String, CommandArg)> = sort_env(spec.env);
        let ghost wire = spec.command@;
        let mut pending: Vec<ExternalRunnerSpecValue> = spec.command;
        let mut reversed: Vec<CommandArg> = Vec::new();
        while pending.len() > 0
            invariant
                pending@ == wire.take(pending@.len() as int),
                pending@.len() <= wire.len(),
                reversed@.len() == wire.len() - pending@.len(),
                forall|i: int| 0 <= i < wire.len() ==> (#[trigger] wire[i]).value is Some,
                forall|i: int|
                    0 <= i < reversed@.len() ==> (#[trigger] reversed@[i]).is_value(
                        wire[wire.len() - 1 - i],
                    ),
            decreases pending@.len(),
        {
            let ghost n = pending@.len();
            if let Some(v) = pending.pop() {
                proof {
                    assert(v == wire[n - 1]);
                    assert(pending@ =~= wire.take(n - 1));
                }
                reversed.push(CommandArg::from_proto(v));
            }
        }
        let mut command: Vec<CommandArg> = Vec::new();
        while reversed.len() > 0
            invariant
                command@.len() + reversed@.len() == wire.len(),
                forall|i: int|
                    0 <= i < reversed@.len() ==> (#[trigger] reversed@[i]).is_value(
                        wire[wire.len() - 1 - i],
                    ),
                forall|i: int|
                    0 <= i < command@.len() ==> (#[trigger] command@[i]).is_value(wire[i]),
            decreases reversed@.len(),
        {
            let ghost n = reversed@.len();
            let ghost before = reversed@;
            if let Some(arg) = reversed.pop() {
                proof {
                    assert(arg == before[n - 1]);
                    assert(arg.is_value(wire[wire.len() - 1 - (n - 1)]));
                }
                command.push(arg);
            }
        }
        let target_platform: Option<String> = if target.configuration.as_str().is_empty() {
            None
        } else {
            Some(target.configuration)
        };
        Ok(
            TargetSpec {
                handle: TargetHandle(handle.id),
                suite: display.clone(),
                display,
                target_platform,
                test_type: spec.test_type,
                command,
                env,
                labels: spec.labels,
                contacts: spec.contacts,
                oncall: spec.oncall,
            },
        )
    }

    /// The wire handle for reports/executes.
    pub fn handle_proto(&self) -> (r: ConfiguredTargetHandle)
        ensures
            r.id == self.handle.0,
    {
        ConfiguredTargetHandle { id: self.handle.0 }
    }
}

} // verus!
