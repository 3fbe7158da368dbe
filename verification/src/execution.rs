//! Building execute requests for listing and test actions.
//!
//! The target's base command and env are *handles* (and verbatim values) that the
//! build tool expands at execute time. Every handle is therefore echoed back
//! unmodified, and only verbatim flags are appended, with no format. Touching a
//! handle would strip the test of its artifact dependencies.

use vstd::prelude::*;

use crate::caching::TestExecutionCaching;
use crate::environment::{HardwareNeeds, HostExclusivity, ResourceSet, SchedulingProfile};
use crate::num::NonZeroU64;
use crate::proto::{
    ArgContent, ArgValue, ArgValueContent, ConfiguredTargetHandle, EnvironmentVariable,
    ExecuteRequest2, ExecutorConfigOverride, ExternalRunnerSpec, ExternalRunnerSpecValue, HostSharing,
    HostSharingRequirements, Listing, LocalResourceType, OutputName, SpecValue, StageItem,
    TestExecutable, TestStage, Testing,
};
use crate::result::{self, duration_to_proto};
use crate::spec::{self, CommandArg, TargetSpec};
use crate::text::{
    self, chars_of, copy_strings, decimal_text, find_char, lines_of, lossy_text,
    parse_unsigned_chars, push_all, push_decimal, push_hex, split_once_chars, starts_with, str_eq,
    string_of, strip_prefix_chars, words_of,
};
use crate::time::Duration;

verus! {

/// What a memory-limited group of processes covers.
#[derive(Debug, Clone, Copy, PartialEq, Eq, Structural)]
pub enum CgroupGranularity {
    LogicalTest,
    Action,
}

impl CgroupGranularity {
    /// The name the supervisor script knows.
    pub open spec fn spec_shell_value(self) -> Seq<char> {
        match self {
            CgroupGranularity::LogicalTest => "logical-test"@,
            CgroupGranularity::Action => "action"@,
        }
    }

    fn shell_value(self) -> (r: &'static str)
        ensures
            r@ == self.spec_shell_value(),
    {
        match self {
            CgroupGranularity::LogicalTest => "logical-test",
            CgroupGranularity::Action => "action",
        }
    }
}

/// Memory limit of a test when nothing else is said.
pub const DEFAULT_CGROUP_MEMORY_MAX_BYTES: u64 = 1_572_864_000;

/// A memory limit.
#[derive(Debug, Clone, Copy, PartialEq, Eq)]
pub enum CgroupMemoryMax {
    Bytes(NonZeroU64),
    Unlimited,
}

impl CgroupMemoryMax {
    /// The limit in bytes, `None` when there is none.
    pub open spec fn limit(self) -> Option<nat> {
        match self {
            CgroupMemoryMax::Bytes(n) => Some(n.spec_get() as nat),
            CgroupMemoryMax::Unlimited => None,
        }
    }

    /// Reads `max` or a positive number of bytes.
    pub fn parse(value: &str) -> (r: Option<Self>)
        ensures
            r is Some <==> value@ == "max"@ || (text::parse_unsigned(value@, u64::MAX as nat) is Some
                && text::parse_unsigned(value@, u64::MAX as nat) != Some(0nat)),
            value@ == "max"@ ==> r == Some(CgroupMemoryMax::Unlimited),
            value@ != "max"@ && r is Some ==> (r->0) is Bytes && (r->0).limit()
                == text::parse_unsigned(value@, u64::MAX as nat),
    {
        if str_eq(value, "max") {
            return Some(CgroupMemoryMax::Unlimited);
        }
        let cs: Vec<char> = chars_of(value);
        match parse_unsigned_chars(cs.as_slice(), u64::MAX) {
            Some(n) => match NonZeroU64::new(n) {
                Some(bytes) => Some(CgroupMemoryMax::Bytes(bytes)),
                None => None,
            },
            None => None,
        }
    }

    /// The limit as the supervisor script reads it.
    pub open spec fn spec_shell_value(self) -> Seq<char> {
        match self.limit() {
            Some(n) => text::decimal(n),
            None => "max"@,
        }
    }

    fn shell_value(self) -> (r: String)
        ensures
            r@ == self.spec_shell_value(),
    {
        match self {
            CgroupMemoryMax::Bytes(bytes) => decimal_text(bytes.get()),
            CgroupMemoryMax::Unlimited => "max".to_owned(),
        }
    }
}

impl Default for CgroupMemoryMax {
    fn default() -> (r: Self)
        ensures
            r.limit() == Some(DEFAULT_CGROUP_MEMORY_MAX_BYTES as nat),
    {
        CgroupMemoryMax::Bytes(NonZeroU64::new(DEFAULT_CGROUP_MEMORY_MAX_BYTES).unwrap())
    }
}

/// A memory limit for one test of one target.
#[derive(Debug, Clone, PartialEq, Eq)]
pub struct CgroupMemoryMaxOverride {
    pub target: String,
    pub test: String,
    pub memory_max: CgroupMemoryMax,
}

/// The target, the test and the limit of an override `target|test|limit`.
pub open spec fn override_parts(value: Seq<char>) -> Option<(Seq<char>, Seq<char>, Seq<char>)> {
    match text::split_once(value, '|') {
        Some(first) => match text::split_once(first.1, '|') {
            Some(second) => if first.0.len() > 0 && second.0.len() > 0 && !second.1.contains('|') {
                Some((first.0, second.0, second.1))
            } else {
                None
            },
            None => None,
        },
        None => None,
    }
}

/// Whether `limit` reads as a memory limit.
pub open spec fn is_limit(limit: Seq<char>) -> bool {
    limit == "max"@ || (text::parse_unsigned(limit, u64::MAX as nat) is Some
        && text::parse_unsigned(limit, u64::MAX as nat) != Some(0nat))
}

impl CgroupMemoryMaxOverride {
    /// Reads an override `target|test|limit`.
    pub fn parse(value: &str) -> (r: Option<Self>)
        ensures
            r is Some <==> (override_parts(value@) matches Some(p) && is_limit(p.2)),
            r matches Some(o) ==> {
                let p = override_parts(value@)->0;
                &&& o.target@ == p.0
                &&& o.test@ == p.1
                &&& o.memory_max.limit() == (if p.2 == "max"@ {
                    None
                } else {
                    text::parse_unsigned(p.2, u64::MAX as nat)
                })
            },
    {
        let cs: Vec<char> = chars_of(value);
        let first: (Vec<char>, Vec<char>) = match split_once_chars(cs.as_slice(), '|') {
            Some(p) => p,
            None => {
                return None;
            },
        };
        let second: (Vec<char>, Vec<char>) = match split_once_chars(first.1.as_slice(), '|') {
            Some(p) => p,
            None => {
                return None;
            },
        };
        let bar: usize = find_char(second.1.as_slice(), '|', 0);
        proof {
            text::lemma_find_from(second.1@, '|', 0);
            if bar < second.1@.len() {
                assert(second.1@[bar as int] == '|');
                assert(second.1@.contains('|'));
            } else {
                assert(!second.1@.contains('|'));
            }
        }
        if first.0.len() == 0 || second.0.len() == 0 || bar < second.1.len() {
            return None;
        }
        let limit: String = string_of(second.1.as_slice());
        match CgroupMemoryMax::parse(limit.as_str()) {
            Some(memory_max) => Some(
                CgroupMemoryMaxOverride {
                    target: string_of(first.0.as_slice()),
                    test: string_of(second.0.as_slice()),
                    memory_max,
                },
            ),
            None => None,
        }
    }
}

/// Whether an override is for this target and one of these tests.
pub open spec fn override_matches(
    o: CgroupMemoryMaxOverride,
    target: Seq<char>,
    tests: Seq<String>,
) -> bool {
    o.target@ == target && exists|i: int| 0 <= i < tests.len() && (#[trigger] tests[i])@ == o.test@
}

/// The positions of the first `n` overrides that match.
pub open spec fn matching_overrides(
    overrides: Seq<CgroupMemoryMaxOverride>,
    target: Seq<char>,
    tests: Seq<String>,
    n: nat,
) -> Seq<int>
    decreases n,
{
    if n == 0 {
        Seq::empty()
    } else {
        let before = matching_overrides(overrides, target, tests, (n - 1) as nat);
        if override_matches(overrides[n - 1], target, tests) {
            before.push(n - 1)
        } else {
            before
        }
    }
}

/// The memory limit of one action: the default without a matching override, the
/// override's for a singleton action with exactly one, an error otherwise.
pub fn cgroup_memory_max_for_action(
    default: CgroupMemoryMax,
    overrides: &[CgroupMemoryMaxOverride],
    target: &str,
    tests: &[String],
) -> (r: Result<CgroupMemoryMax, String>)
    ensures
        ({
            let found = matching_overrides(overrides@, target@, tests@, overrides@.len());
            &&& found.len() == 0 ==> r == Ok::<CgroupMemoryMax, String>(default)
            &&& found.len() == 1 && tests@.len() == 1 ==> r == Ok::<CgroupMemoryMax, String>(
                overrides@[found[0]].memory_max,
            )
            &&& found.len() == 1 && tests@.len() != 1 ==> (r matches Err(e) && e@
                == "a cgroup memory override requires a singleton test action"@)
            &&& found.len() > 1 ==> (r matches Err(e) && e@
                == "multiple cgroup memory overrides match one action"@)
        }),
{
    let mut found: Vec<usize> = Vec::new();
    let mut i: usize = 0;
    while i < overrides.len()
        invariant
            i <= overrides@.len(),
            found@.len() == matching_overrides(overrides@, target@, tests@, i as nat).len(),
            forall|k: int|
                0 <= k < found@.len() ==> #[trigger] found@[k] == matching_overrides(
                    overrides@,
                    target@,
                    tests@,
                    i as nat,
                )[k] && found@[k] < i,
        decreases overrides@.len() - i,
    {
        let o: &CgroupMemoryMaxOverride = &overrides[i];
        let mut named: bool = false;
        let mut j: usize = 0;
        while j < tests.len()
            invariant
                j <= tests@.len(),
                named == exists|k: int| 0 <= k < j && (#[trigger] tests@[k])@ == o.test@,
            decreases tests@.len() - j,
        {
            if str_eq(tests[j].as_str(), o.test.as_str()) {
                named = true;
            }
            j = j + 1;
        }
        if str_eq(o.target.as_str(), target) && named {
            found.push(i);
        }
        i = i + 1;
    }
    if found.len() == 0 {
        Ok(default)
    } else if found.len() == 1 {
        if tests.len() == 1 {
            Ok(overrides[found[0]].memory_max)
        } else {
            Err("a cgroup memory override requires a singleton test action".to_owned())
        }
    } else {
        Err("multiple cgroup memory overrides match one action".to_owned())
    }
}

// ---------------------------------------------------------------------------
// Marker tokens.

/// One step of the FNV-1a hash.
pub open spec fn fnv_step(hash: u64, byte: u8) -> u64 {
    (hash ^ (byte as u64)).wrapping_mul(0x100000001b3)
}

/// The FNV-1a hash of `bytes` from `hash` on.
pub open spec fn fnv(hash: u64, bytes: Seq<u8>) -> u64
    decreases bytes.len(),
{
    if bytes.len() == 0 {
        hash
    } else {
        fnv_step(fnv(hash, bytes.drop_last()), bytes.last())
    }
}

/// The seed of the FNV-1a hash.
pub const FNV_SEED: u64 = 0xcbf29ce484222325;

/// Hashes `bytes` from `hash` on.
pub fn fnv1a(hash: u64, bytes: &[u8]) -> (r: u64)
    ensures
        r == fnv(hash, bytes@),
{
    let mut h: u64 = hash;
    let mut i: usize = 0;
    while i < bytes.len()
        invariant
            i <= bytes@.len(),
            h == fnv(hash, bytes@.take(i as int)),
        decreases bytes@.len() - i,
    {
        proof {
            assert(bytes@.take(i + 1).drop_last() =~= bytes@.take(i as int));
        }
        h = (h ^ (bytes[i] as u64)).wrapping_mul(0x100000001b3);
        i = i + 1;
    }
    proof {
        assert(bytes@.take(bytes@.len() as int) =~= bytes@);
    }
    h
}

/// The bytes of a length, the lowest first: as many as a length has on the machine.
pub open spec fn length_bytes(length: nat) -> Seq<u8> {
    vstd::bytes::spec_u64_to_le_bytes(length as u64).take((usize::BITS / 8) as int)
}

/// The hash of one field: its length in bytes, then its bytes.
pub open spec fn field_hash(hash: u64, field: Seq<char>) -> u64 {
    let bytes = vstd::utf8::encode_utf8(field);
    fnv(fnv(hash, length_bytes(bytes.len())), bytes)
}

/// The hash of the first `n` fields.
pub open spec fn fields_hash(hash: u64, fields: Seq<&str>, n: nat) -> u64
    decreases n,
{
    if n == 0 {
        hash
    } else {
        field_hash(fields_hash(hash, fields, (n - 1) as nat), fields[n - 1]@)
    }
}

/// The text that tells an action's resource markers from those of others.
#[derive(Debug, Clone, PartialEq, Eq)]
pub struct ResourceMarkerToken(pub String);

fn hash_field(hash: u64, field: &str) -> (r: u64)
    ensures
        r == field_hash(hash, field@),
{
    let bytes: &[u8] = field.as_bytes();
    let mut len: Vec<u8> = vstd::bytes::u64_to_le_bytes(bytes.len() as u64);
    let width: usize = (usize::BITS / 8) as usize;
    proof {
        vstd::bytes::lemma_auto_spec_u64_to_from_le_bytes();
    }
    len.truncate(width);
    fnv1a(fnv1a(hash, len.as_slice()), bytes)
}

impl ResourceMarkerToken {
    /// The token of an action with these stable fields: sixteen hexadecimal digits
    /// of the hash of the domain and the fields.
    pub fn from_stable_fields(domain: &str, fields: &[&str]) -> (r: Self)
        ensures
            r.0@ == text::hex(
                fields_hash(field_hash(FNV_SEED, domain@), fields@, fields@.len()) as nat,
                16,
            ),
    {
        let mut hash: u64 = hash_field(FNV_SEED, domain);
        let mut i: usize = 0;
        while i < fields.len()
            invariant
                i <= fields@.len(),
                hash == fields_hash(field_hash(FNV_SEED, domain@), fields@, i as nat),
            decreases fields@.len() - i,
        {
            hash = hash_field(hash, fields[i]);
            i = i + 1;
        }
        let mut out: Vec<char> = Vec::new();
        push_hex(&mut out, hash, 16);
        proof {
            assert(out@ =~= text::hex(hash as nat, 16));
        }
        ResourceMarkerToken(string_of(out.as_slice()))
    }

    pub fn as_str(&self) -> (r: &str)
        ensures
            r@ == self.0@,
    {
        self.0.as_str()
    }

    /// An equal copy.
    pub fn duplicate(&self) -> (r: ResourceMarkerToken)
        ensures
            r == *self,
    {
        ResourceMarkerToken(self.0.clone())
    }
}

/// One command of an action, with its place among them.
#[derive(Debug, Clone, PartialEq, Eq)]
pub struct LogicalCommand {
    pub index: usize,
    pub appended: Vec<String>,
}

// ---------------------------------------------------------------------------
// Arguments.

/// An argument that stands for a spec value.
pub open spec fn spec_arg(value: SpecValue) -> ArgValue {
    ArgValue {
        content: Some(
            ArgValueContent {
                value: Some(ArgContent::SpecValue(ExternalRunnerSpecValue { value: Some(value) })),
            },
        ),
        format: None,
    }
}

/// The argument that hands a command argument back unmodified.
pub open spec fn echo(arg: CommandArg) -> ArgValue {
    match arg {
        CommandArg::Verbatim(s) => spec_arg(SpecValue::Verbatim(s)),
        CommandArg::ArgHandle(i) => spec_arg(SpecValue::ArgHandle(i)),
        CommandArg::EnvHandle(s) => spec_arg(SpecValue::EnvHandle(s)),
    }
}

/// Whether `arg` is the text, verbatim and without a format.
pub open spec fn is_verbatim(arg: ArgValue, text: Seq<char>) -> bool {
    exists|s: String| s@ == text && arg == #[trigger] spec_arg(SpecValue::Verbatim(s))
}

/// Whether `arg` stands for the declared output `name`.
pub open spec fn is_declared_output(arg: ArgValue, name: Seq<char>) -> bool {
    &&& arg.format is None
    &&& arg.content matches Some(content)
    &&& content.value matches Some(ArgContent::DeclaredOutput(output))
    &&& output.name@ == name
}

fn echo_spec_value(arg: &CommandArg) -> (r: ArgValue)
    ensures
        r == echo(*arg),
{
    let value: SpecValue = match arg {
        CommandArg::Verbatim(s) => SpecValue::Verbatim(s.clone()),
        CommandArg::ArgHandle(i) => SpecValue::ArgHandle(*i),
        CommandArg::EnvHandle(s) => SpecValue::EnvHandle(s.clone()),
    };
    ArgValue {
        content: Some(
            ArgValueContent {
                value: Some(ArgContent::SpecValue(ExternalRunnerSpecValue { value: Some(value) })),
            },
        ),
        format: None,
    }
}

fn appended_verbatim(arg: &str) -> (r: ArgValue)
    ensures
        is_verbatim(r, arg@),
{
    let s: String = arg.to_owned();
    let r = ArgValue {
        content: Some(
            ArgValueContent {
                value: Some(
                    ArgContent::SpecValue(
                        ExternalRunnerSpecValue { value: Some(SpecValue::Verbatim(s)) },
                    ),
                ),
            },
        ),
        format: None,
    };
    proof {
        assert(r == spec_arg(SpecValue::Verbatim(s)));
    }
    r
}

fn declared_output_value(output_name: &str) -> (r: ArgValue)
    ensures
        is_declared_output(r, output_name@),
{
    ArgValue {
        content: Some(
            ArgValueContent {
                value: Some(ArgContent::DeclaredOutput(OutputName { name: output_name.to_owned() })),
            },
        ),
        format: None,
    }
}

/// Whether `cmd` is the target's command, echoed unmodified, then the appended
/// flags.
pub open spec fn is_cmd(spec: TargetSpec, appended: Seq<String>, cmd: Seq<ArgValue>) -> bool {
    let n = spec.command@.len();
    &&& cmd.len() == n + appended.len()
    &&& forall|i: int| 0 <= i < n ==> #[trigger] cmd[i] == echo(spec.command@[i])
    &&& forall|i: int|
        0 <= i < appended.len() ==> is_verbatim(#[trigger] cmd[n + i], appended[i]@)
}

/// The values of a target's command are handed back unmodified, in their order and
/// without a format, whatever is appended to them.
pub proof fn law_handles_are_echoed_unmodified(
    wire: ExternalRunnerSpec,
    spec: TargetSpec,
    appended: Seq<String>,
    cmd: Seq<ArgValue>,
)
    requires
        spec::parsed_from(wire, spec),
        is_cmd(spec, appended, cmd),
    ensures
        cmd.len() == wire.command@.len() + appended.len(),
        forall|i: int|
            0 <= i < wire.command@.len() ==> #[trigger] cmd[i] == (ArgValue {
                content: Some(
                    ArgValueContent { value: Some(ArgContent::SpecValue(wire.command@[i])) },
                ),
                format: None,
            }),
{
    assert forall|i: int| 0 <= i < wire.command@.len() implies #[trigger] cmd[i] == (ArgValue {
        content: Some(ArgValueContent { value: Some(ArgContent::SpecValue(wire.command@[i])) }),
        format: None,
    }) by {
        assert(spec.command@[i].is_value(wire.command@[i]));
        assert(cmd[i] == echo(spec.command@[i]));
    }
}

/// Builds the full command: the spec's handles/verbatims first, then appended
/// flags.
pub fn build_cmd(spec: &TargetSpec, appended: &[String]) -> (r: Vec<ArgValue>)
    ensures
        is_cmd(*spec, appended@, r@),
{
    let mut cmd: Vec<ArgValue> = Vec::new();
    let mut i: usize = 0;
    while i < spec.command.len()
        invariant
            i <= spec.command@.len(),
            cmd@.len() == i,
            forall|k: int| 0 <= k < i ==> #[trigger] cmd@[k] == echo(spec.command@[k]),
        decreases spec.command@.len() - i,
    {
        cmd.push(echo_spec_value(&spec.command[i]));
        i = i + 1;
    }
    let ghost n = spec.command@.len();
    let mut j: usize = 0;
    while j < appended.len()
        invariant
            j <= appended@.len(),
            n == spec.command@.len(),
            cmd@.len() == n + j,
            forall|k: int| 0 <= k < n ==> #[trigger] cmd@[k] == echo(spec.command@[k]),
            forall|k: int| 0 <= k < j ==> is_verbatim(#[trigger] cmd@[n + k], appended@[k]@),
        decreases appended@.len() - j,
    {
        let ghost before = cmd@;
        cmd.push(appended_verbatim(appended[j].as_str()));
        proof {
            assert forall|k: int| 0 <= k < j + 1 implies is_verbatim(
                #[trigger] cmd@[n + k],
                appended@[k]@,
            ) by {
                if k < j {
                    assert(cmd@[n + k] == before[n + k]);
                }
            }
        }
        j = j + 1;
    }
    cmd
}

// ---------------------------------------------------------------------------
// Shell text.

/// `s` with each single quote closed, quoted and reopened.
pub open spec fn escaped(s: Seq<char>) -> Seq<char>
    decreases s.len(),
{
    if s.len() == 0 {
        Seq::empty()
    } else if s.last() == '\'' {
        escaped(s.drop_last()) + seq!['\'', '"', '\'', '"', '\'']
    } else {
        escaped(s.drop_last()).push(s.last())
    }
}

/// `s` as one word of a shell command.
pub open spec fn quoted(s: Seq<char>) -> Seq<char> {
    seq!['\''] + escaped(s) + seq!['\'']
}

/// How a shell reads quotes: outside, between single quotes, or between double
/// quotes.
pub enum QuoteState {
    Outside,
    Single,
    Double,
}

/// The word that a shell reads from `s`, where everything is quoted: the state at
/// the end and what has been read, or `None` for text outside quotes.
pub open spec fn shell_read(s: Seq<char>) -> Option<(QuoteState, Seq<char>)>
    decreases s.len(),
{
    if s.len() == 0 {
        Some((QuoteState::Outside, Seq::empty()))
    } else {
        match shell_read(s.drop_last()) {
            None => None,
            Some((QuoteState::Outside, w)) => if s.last() == '\'' {
                Some((QuoteState::Single, w))
            } else if s.last() == '"' {
                Some((QuoteState::Double, w))
            } else {
                None
            },
            Some((QuoteState::Single, w)) => if s.last() == '\'' {
                Some((QuoteState::Outside, w))
            } else {
                Some((QuoteState::Single, w.push(s.last())))
            },
            Some((QuoteState::Double, w)) => if s.last() == '"' {
                Some((QuoteState::Outside, w))
            } else {
                Some((QuoteState::Double, w.push(s.last())))
            },
        }
    }
}

proof fn lemma_shell_read_push(s: Seq<char>, c: char)
    ensures
        s.push(c).drop_last() == s,
        s.push(c).last() == c,
{
    assert(s.push(c).drop_last() =~= s);
}

proof fn lemma_escaped_reads_back(s: Seq<char>)
    ensures
        shell_read(seq!['\''] + escaped(s)) == Some((QuoteState::Single, s)),
    decreases s.len(),
{
    let open = seq!['\''];
    if s.len() == 0 {
        assert(open + escaped(s) =~= Seq::empty().push('\''));
        lemma_shell_read_push(Seq::empty(), '\'');
        assert(s =~= Seq::empty());
        assert(shell_read(Seq::<char>::empty()) == Some(
            (QuoteState::Outside, Seq::<char>::empty()),
        ));
    } else {
        let front = s.drop_last();
        lemma_escaped_reads_back(front);
        let before = open + escaped(front);
        assert(s =~= front.push(s.last()));
        if s.last() == '\'' {
            let a = before.push('\'');
            let b = a.push('"');
            let c = b.push('\'');
            let d = c.push('"');
            let e = d.push('\'');
            lemma_shell_read_push(before, '\'');
            lemma_shell_read_push(a, '"');
            lemma_shell_read_push(b, '\'');
            lemma_shell_read_push(c, '"');
            lemma_shell_read_push(d, '\'');
            assert(shell_read(a) == Some((QuoteState::Outside, front)));
            assert(shell_read(b) == Some((QuoteState::Double, front)));
            assert(shell_read(c) == Some((QuoteState::Double, front.push('\''))));
            assert(shell_read(d) == Some((QuoteState::Outside, front.push('\''))));
            assert(shell_read(e) == Some((QuoteState::Single, front.push('\''))));
            assert(open + escaped(s) =~= e);
        } else {
            lemma_shell_read_push(before, s.last());
            assert(open + escaped(s) =~= before.push(s.last()));
        }
    }
}

/// A shell reads a quoted text back as it was, whatever characters it holds.
pub proof fn law_quoting_preserves_the_text(s: Seq<char>)
    ensures
        shell_read(quoted(s)) == Some((QuoteState::Outside, s)),
{
    let before = seq!['\''] + escaped(s);
    lemma_escaped_reads_back(s);
    lemma_shell_read_push(before, '\'');
    assert(quoted(s) =~= before.push('\''));
}

/// `value` as one word of a shell command.
pub fn shell_quote(value: &str) -> (r: String)
    ensures
        r@ == quoted(value@),
{
    let cs: Vec<char> = chars_of(value);
    let mut out: Vec<char> = Vec::new();
    out.push('\'');
    let mut i: usize = 0;
    proof {
        assert(cs@.take(0) =~= Seq::empty());
        assert(out@ =~= seq!['\''] + escaped(cs@.take(0)));
    }
    while i < cs.len()
        invariant
            i <= cs@.len(),
            out@ == seq!['\''] + escaped(cs@.take(i as int)),
        decreases cs@.len() - i,
    {
        let ghost before = out@;
        proof {
            assert(cs@.take(i + 1).drop_last() =~= cs@.take(i as int));
            assert(cs@.take(i + 1).last() == cs@[i as int]);
        }
        if cs[i] == '\'' {
            out.push('\'');
            out.push('"');
            out.push('\'');
            out.push('"');
            out.push('\'');
        } else {
            out.push(cs[i]);
        }
        proof {
            assert(out@ =~= seq!['\''] + escaped(cs@.take(i + 1)));
        }
        i = i + 1;
    }
    out.push('\'');
    proof {
        assert(cs@.take(cs@.len() as int) =~= cs@);
        assert(out@ =~= quoted(value@));
    }
    string_of(out.as_slice())
}

/// The quoted arguments, each after a space.
pub open spec fn quoted_args(args: Seq<String>) -> Seq<char>
    decreases args.len(),
{
    if args.len() == 0 {
        Seq::empty()
    } else {
        quoted_args(args.drop_last()) + seq![' '] + quoted(args.last()@)
    }
}

/// The script line that runs one command.
pub open spec fn logical_line(c: LogicalCommand) -> Seq<char> {
    "quokka_run_logical "@ + text::decimal(c.index as nat) + " \"$@\""@ + quoted_args(c.appended@)
        + " || overall_status=$?\n"@
}

/// The script lines that run commands, in order.
pub open spec fn logical_lines(commands: Seq<LogicalCommand>) -> Seq<char>
    decreases commands.len(),
{
    if commands.len() == 0 {
        Seq::empty()
    } else {
        logical_lines(commands.drop_last()) + logical_line(commands.last())
    }
}

/// The script that supervises the commands of one action.
pub open spec fn supervisor_script(
    supervisor: Seq<char>,
    commands: Seq<LogicalCommand>,
    timeout: Duration,
    granularity: CgroupGranularity,
    memory_max: CgroupMemoryMax,
    token: ResourceMarkerToken,
) -> Seq<char> {
    supervisor + "\nquokka_cgroup_granularity="@ + granularity.spec_shell_value()
        + "\nquokka_logical_timeout_seconds="@ + text::decimal(timeout.spec_secs() as nat)
        + "\nquokka_memory_max_value="@ + quoted(memory_max.spec_shell_value())
        + "\nquokka_resource_marker_token="@ + quoted(token.0@)
        + "\noverall_status=0\nquokka_begin_action\n"@ + logical_lines(commands)
        + "quokka_finish_action \"$overall_status\"\n"@
}

/// Whether `cmd` is `base` under supervision; without commands it is `base`.
pub open spec fn is_supervised(
    base: Seq<ArgValue>,
    commands: Seq<LogicalCommand>,
    script: Seq<char>,
    cmd: Seq<ArgValue>,
) -> bool {
    if commands.len() == 0 {
        cmd == base
    } else {
        &&& cmd.len() == 4 + base.len()
        &&& is_verbatim(cmd[0], "/bin/sh"@)
        &&& is_verbatim(cmd[1], "-c"@)
        &&& is_verbatim(cmd[2], script)
        &&& is_verbatim(cmd[3], "quokka-resource-supervisor"@)
        &&& cmd.skip(4) == base
    }
}

fn script_of(
    supervisor: &str,
    commands: &Vec<LogicalCommand>,
    timeout: Duration,
    granularity: CgroupGranularity,
    memory_max: CgroupMemoryMax,
    token: &ResourceMarkerToken,
) -> (r: String)
    ensures
        r@ == supervisor_script(supervisor@, commands@, timeout, granularity, memory_max, *token),
{
    let mut script: String = supervisor.to_owned();
    script.push_str("\nquokka_cgroup_granularity=");
    script.push_str(granularity.shell_value());
    script.push_str("\nquokka_logical_timeout_seconds=");
    script.push_str(decimal_text(timeout.as_secs()).as_str());
    script.push_str("\nquokka_memory_max_value=");
    let limit: String = memory_max.shell_value();
    script.push_str(shell_quote(limit.as_str()).as_str());
    script.push_str("\nquokka_resource_marker_token=");
    script.push_str(shell_quote(token.as_str()).as_str());
    script.push_str("\noverall_status=0\nquokka_begin_action\n");
    let ghost head = script@;
    let mut i: usize = 0;
    proof {
        assert(head + logical_lines(commands@.take(0)) =~= head);
    }
    while i < commands.len()
        invariant
            i <= commands@.len(),
            script@ == head + logical_lines(commands@.take(i as int)),
        decreases commands@.len() - i,
    {
        let logical: &LogicalCommand = &commands[i];
        let ghost before = script@;
        script.push_str("quokka_run_logical ");
        script.push_str(decimal_text(logical.index as u64).as_str());
        script.push_str(" \"$@\"");
        let ghost start = script@;
        let mut j: usize = 0;
        proof {
            assert(start + quoted_args(logical.appended@.take(0)) =~= start);
        }
        while j < logical.appended.len()
            invariant
                j <= logical.appended@.len(),
                script@ == start + quoted_args(logical.appended@.take(j as int)),
            decreases logical.appended@.len() - j,
        {
            script.push(' ');
            script.push_str(shell_quote(logical.appended[j].as_str()).as_str());
            proof {
                assert(logical.appended@.take(j + 1).drop_last() =~= logical.appended@.take(
                    j as int,
                ));
                assert(script@ =~= start + quoted_args(logical.appended@.take(j + 1)));
            }
            j = j + 1;
        }
        script.push_str(" || overall_status=$?\n");
        proof {
            assert(logical.appended@.take(logical.appended@.len() as int) =~= logical.appended@);
            assert(script@ =~= before + logical_line(*logical));
            assert(commands@.take(i + 1).drop_last() =~= commands@.take(i as int));
            assert(script@ =~= head + logical_lines(commands@.take(i + 1)));
        }
        i = i + 1;
    }
    script.push_str("quokka_finish_action \"$overall_status\"\n");
    proof {
        assert(commands@.take(commands@.len() as int) =~= commands@);
        assert(script@ =~= supervisor_script(
            supervisor@,
            commands@,
            timeout,
            granularity,
            memory_max,
            *token,
        ));
    }
    script
}

/// Puts a command under the supervision of the script `supervisor`. The base
/// command is handed to the script as its arguments, unmodified.
pub fn build_supervised_cmd(
    base_command: Vec<ArgValue>,
    commands: Vec<LogicalCommand>,
    timeout: Duration,
    cgroup_granularity: CgroupGranularity,
    cgroup_memory_max: CgroupMemoryMax,
    resource_marker_token: &ResourceMarkerToken,
    supervisor: &str,
) -> (r: Vec<ArgValue>)
    ensures
        is_supervised(
            base_command@,
            commands@,
            supervisor_script(
                supervisor@,
                commands@,
                timeout,
                cgroup_granularity,
                cgroup_memory_max,
                *resource_marker_token,
            ),
            r@,
        ),
{
    if commands.len() == 0 {
        return base_command;
    }
    let script: String = script_of(
        supervisor,
        &commands,
        timeout,
        cgroup_granularity,
        cgroup_memory_max,
        resource_marker_token,
    );
    let mut command: Vec<ArgValue> = Vec::new();
    command.push(appended_verbatim("/bin/sh"));
    command.push(appended_verbatim("-c"));
    command.push(appended_verbatim(script.as_str()));
    command.push(appended_verbatim("quokka-resource-supervisor"));
    let mut base: Vec<ArgValue> = base_command;
    command.append(&mut base);
    proof {
        assert(command@.skip(4) =~= base_command@);
    }
    command
}

/// The time an action gets: that of its commands one after the other, and a
/// minute of grace.
pub open spec fn action_timeout_nanos(logical_timeout: Duration, logical_count: nat) -> nat {
    let count: nat = if logical_count > u32::MAX {
        u32::MAX as nat
    } else {
        logical_count
    };
    let total = logical_timeout.total_nanos() * count + 60_000_000_000;
    if total > Duration::max_nanos() {
        Duration::max_nanos()
    } else {
        total
    }
}

pub fn supervised_action_timeout(logical_timeout: Duration, logical_count: usize) -> (r: Duration)
    ensures
        r.total_nanos() == action_timeout_nanos(logical_timeout, logical_count as nat),
{
    let count: u32 = if logical_count > 4_294_967_295 {
        u32::MAX
    } else {
        logical_count as u32
    };
    logical_timeout.saturating_times_plus(count, &Duration::from_secs(60))
}

// ---------------------------------------------------------------------------
// Resource failures.

/// A resource limit that an action ran into.
#[derive(Debug, Clone, PartialEq, Eq)]
pub enum ResourceFailure {
    LogicalTimeout { index: usize, details: String },
    LogicalOom { index: usize, details: String },
    ActionTimeout { details: String },
    ActionOom { details: String },
    Setup { details: String },
    Malformed { details: String },
}

/// The contents of a [`ResourceFailure`].
pub enum ResourceFailureView {
    LogicalTimeout { index: nat, details: Seq<char> },
    LogicalOom { index: nat, details: Seq<char> },
    ActionTimeout { details: Seq<char> },
    ActionOom { details: Seq<char> },
    Setup { details: Seq<char> },
    Malformed { details: Seq<char> },
}

impl View for ResourceFailure {
    type V = ResourceFailureView;

    open spec fn view(&self) -> ResourceFailureView {
        match self {
            ResourceFailure::LogicalTimeout { index, details } =>
                ResourceFailureView::LogicalTimeout { index: *index as nat, details: details@ },
            ResourceFailure::LogicalOom { index, details } => ResourceFailureView::LogicalOom {
                index: *index as nat,
                details: details@,
            },
            ResourceFailure::ActionTimeout { details } => ResourceFailureView::ActionTimeout {
                details: details@,
            },
            ResourceFailure::ActionOom { details } => ResourceFailureView::ActionOom {
                details: details@,
            },
            ResourceFailure::Setup { details } => ResourceFailureView::Setup {
                details: details@,
            },
            ResourceFailure::Malformed { details } => ResourceFailureView::Malformed {
                details: details@,
            },
        }
    }
}

/// What follows `index=` in the first of the words from `i` on that starts so.
pub open spec fn index_text(words: Seq<Seq<char>>, i: int) -> Option<Seq<char>>
    decreases words.len() - i,
{
    if i < 0 || i >= words.len() {
        None
    } else {
        match text::strip_prefix(words[i], "index="@) {
            Some(rest) => Some(rest),
            None => index_text(words, i + 1),
        }
    }
}

/// What a marker about one command says: `rest` holds its index, `marker` is the
/// whole. A missing or unreadable index makes the marker malformed.
pub open spec fn logical_failure(
    rest: Seq<char>,
    marker: Seq<char>,
    timeout: bool,
) -> ResourceFailureView {
    let details = "quokka "@ + marker;
    match index_text(text::words(rest), 0) {
        None => ResourceFailureView::Malformed { details },
        Some(raw) => match text::parse_unsigned(raw, usize::MAX as nat) {
            None => ResourceFailureView::Malformed { details },
            Some(index) => if timeout {
                ResourceFailureView::LogicalTimeout { index, details }
            } else {
                ResourceFailureView::LogicalOom { index, details }
            },
        },
    }
}

/// What a line says of resources: nothing unless it carries the token's prefix.
pub open spec fn failure_in_line(line: Seq<char>, token: Seq<char>) -> Option<
    ResourceFailureView,
> {
    match text::strip_prefix(line, "quokka resource "@ + token + " "@) {
        None => None,
        Some(marker) => match text::strip_prefix(marker, "logical test timeout:"@) {
            Some(rest) => Some(logical_failure(rest, marker, true)),
            None => match text::strip_prefix(marker, "logical test cgroup OOM:"@) {
                Some(rest) => Some(logical_failure(rest, marker, false)),
                None => if "test action timeout: "@.is_prefix_of(marker) {
                    Some(ResourceFailureView::ActionTimeout { details: "quokka "@ + marker })
                } else if "test action cgroup OOM: "@.is_prefix_of(marker) {
                    Some(ResourceFailureView::ActionOom { details: "quokka "@ + marker })
                } else if "cgroup setup failure: "@.is_prefix_of(marker) {
                    Some(ResourceFailureView::Setup { details: "quokka "@ + marker })
                } else {
                    None
                },
            },
        },
    }
}

/// What the first `n` lines say of resources, in order.
pub open spec fn failures_in_lines(lines: Seq<Seq<char>>, token: Seq<char>, n: nat) -> Seq<
    ResourceFailureView,
>
    decreases n,
{
    if n == 0 {
        Seq::empty()
    } else {
        let before = failures_in_lines(lines, token, (n - 1) as nat);
        match failure_in_line(lines[n - 1], token) {
            Some(f) => before.push(f),
            None => before,
        }
    }
}

/// What a text says of resources.
pub open spec fn failures_in_text(output: Seq<char>, token: Seq<char>) -> Seq<
    ResourceFailureView,
> {
    failures_in_lines(text::lines(output), token, text::lines(output).len())
}

/// The contents of failures.
pub open spec fn failure_views(v: Seq<ResourceFailure>) -> Seq<ResourceFailureView> {
    Seq::new(v.len(), |i: int| v[i]@)
}

/// Output that holds no line with the token's prefix says nothing of resources,
/// whatever else it holds.
pub proof fn law_foreign_markers_are_ignored(lines: Seq<Seq<char>>, token: Seq<char>, n: nat)
    requires
        n <= lines.len(),
        forall|i: int|
            0 <= i < n ==> !("quokka resource "@ + token + " "@).is_prefix_of(#[trigger] lines[i]),
    ensures
        failures_in_lines(lines, token, n) == Seq::<ResourceFailureView>::empty(),
    decreases n,
{
    if n > 0 {
        law_foreign_markers_are_ignored(lines, token, (n - 1) as nat);
        assert(!("quokka resource "@ + token + " "@).is_prefix_of(lines[n - 1]));
    }
}

fn marker_details(marker: &[char]) -> (r: String)
    ensures
        r@ == "quokka "@ + marker@,
{
    let mut out: Vec<char> = chars_of("quokka ");
    push_all(&mut out, marker);
    string_of(out.as_slice())
}

fn parse_logical_failure(rest: &[char], marker: &[char], timeout: bool) -> (r: ResourceFailure)
    ensures
        r@ == logical_failure(rest@, marker@, timeout),
{
    let details: String = marker_details(marker);
    let words: Vec<Vec<char>> = words_of(rest);
    let ghost all = text::words(rest@);
    let mut i: usize = 0;
    while i < words.len()
        invariant
            i <= words@.len(),
            all == text::texts(words@),
            all == text::words(rest@),
            index_text(all, 0) == index_text(all, i as int),
            details@ == "quokka "@ + marker@,
        decreases words@.len() - i,
    {
        proof {
            assert(all[i as int] == words@[i as int]@);
        }
        if let Some(raw) = strip_prefix_chars(words[i].as_slice(), "index=") {
            return match parse_unsigned_chars(raw.as_slice(), usize::MAX as u64) {
                None => ResourceFailure::Malformed { details },
                Some(index) => {
                    if timeout {
                        ResourceFailure::LogicalTimeout { index: index as usize, details }
                    } else {
                        ResourceFailure::LogicalOom { index: index as usize, details }
                    }
                },
            };
        }
        i = i + 1;
    }
    ResourceFailure::Malformed { details }
}

fn parse_line(line: &[char], prefix: &str, token: Ghost<Seq<char>>) -> (r: Option<ResourceFailure>)
    requires
        prefix@ == "quokka resource "@ + token@ + " "@,
    ensures
        r is Some <==> failure_in_line(line@, token@) is Some,
        r matches Some(f) ==> failure_in_line(line@, token@) == Some(f@),
{
    let found: Vec<char> = match strip_prefix_chars(line, prefix) {
        Some(m) => m,
        None => {
            return None;
        },
    };
    let marker: &[char] = found.as_slice();
    if let Some(rest) = strip_prefix_chars(marker, "logical test timeout:") {
        return Some(parse_logical_failure(rest.as_slice(), marker, true));
    }
    if let Some(rest) = strip_prefix_chars(marker, "logical test cgroup OOM:") {
        return Some(parse_logical_failure(rest.as_slice(), marker, false));
    }
    if starts_with(marker, "test action timeout: ") {
        return Some(ResourceFailure::ActionTimeout { details: marker_details(marker) });
    }
    if starts_with(marker, "test action cgroup OOM: ") {
        return Some(ResourceFailure::ActionOom { details: marker_details(marker) });
    }
    if starts_with(marker, "cgroup setup failure: ") {
        return Some(ResourceFailure::Setup { details: marker_details(marker) });
    }
    None
}

/// Reads what a text says of resources.
pub fn parse_resource_text(output: &str, token: &ResourceMarkerToken) -> (r: Vec<ResourceFailure>)
    ensures
        failure_views(r@) == failures_in_text(output@, token.0@),
{
    let mut prefix: String = "quokka resource ".to_owned();
    prefix.push_str(token.as_str());
    prefix.push_str(" ");
    let cs: Vec<char> = chars_of(output);
    let lines: Vec<Vec<char>> = lines_of(cs.as_slice());
    let ghost all = text::lines(output@);
    let mut out: Vec<ResourceFailure> = Vec::new();
    let mut i: usize = 0;
    proof {
        assert(failure_views(out@) =~= failures_in_lines(all, token.0@, 0));
    }
    while i < lines.len()
        invariant
            i <= lines@.len(),
            all == text::texts(lines@),
            prefix@ == "quokka resource "@ + token.0@ + " "@,
            failure_views(out@) == failures_in_lines(all, token.0@, i as nat),
        decreases lines@.len() - i,
    {
        proof {
            assert(all[i as int] == lines@[i as int]@);
        }
        let ghost before = out@;
        if let Some(f) = parse_line(lines[i].as_slice(), prefix.as_str(), Ghost(token.0@)) {
            out.push(f);
            proof {
                assert(failure_views(out@) =~= failure_views(before).push(f@));
            }
        }
        i = i + 1;
    }
    out
}

/// Reads what an action's error output says of resources. Only lines that carry
/// the action's own token count.
pub fn parse_resource_failures(stderr: &[u8], token: &ResourceMarkerToken) -> (r: Vec<
    ResourceFailure,
>)
    ensures
        failure_views(r@) == failures_in_text(text::utf8_lossy(stderr@), token.0@),
{
    let output: String = lossy_text(stderr);
    parse_resource_text(output.as_str(), token)
}

// ---------------------------------------------------------------------------
// Environments.

/// Whether `env` is the target's environment, echoed unmodified, then the extra
/// variables, verbatim.
pub open spec fn is_env(
    spec: TargetSpec,
    extra: Seq<(String, String)>,
    env: Seq<EnvironmentVariable>,
) -> bool {
    let n = spec.env@.len();
    &&& env.len() == n + extra.len()
    &&& forall|i: int|
        0 <= i < n ==> (#[trigger] env[i]).key == spec.env@[i].0 && env[i].value == Some(
            echo(spec.env@[i].1),
        )
    &&& forall|i: int|
        0 <= i < extra.len() ==> (#[trigger] env[n + i]).key == extra[i].0 && (env[n
            + i].value matches Some(v) && is_verbatim(v, extra[i].1@))
}

/// Builds the environment: the spec's values echoed unmodified, then the runner's
/// additions as verbatim values. Additions come last so that they take precedence.
pub fn build_env(spec: &TargetSpec, extra: &[(String, String)]) -> (r: Vec<EnvironmentVariable>)
    ensures
        is_env(*spec, extra@, r@),
{
    let mut env: Vec<EnvironmentVariable> = Vec::new();
    let mut i: usize = 0;
    while i < spec.env.len()
        invariant
            i <= spec.env@.len(),
            env@.len() == i,
            forall|k: int|
                0 <= k < i ==> (#[trigger] env@[k]).key == spec.env@[k].0 && env@[k].value == Some(
                    echo(spec.env@[k].1),
                ),
        decreases spec.env@.len() - i,
    {
        let entry: &(String, CommandArg) = &spec.env[i];
        env.push(
            EnvironmentVariable {
                key: entry.0.clone(),
                value: Some(echo_spec_value(&entry.1)),
            },
        );
        i = i + 1;
    }
    let ghost n = spec.env@.len();
    let mut j: usize = 0;
    while j < extra.len()
        invariant
            j <= extra@.len(),
            n == spec.env@.len(),
            env@.len() == n + j,
            forall|k: int|
                0 <= k < n ==> (#[trigger] env@[k]).key == spec.env@[k].0 && env@[k].value == Some(
                    echo(spec.env@[k].1),
                ),
            forall|k: int|
                0 <= k < j ==> (#[trigger] env@[n + k]).key == extra@[k].0 && (env@[n
                    + k].value matches Some(v) && is_verbatim(v, extra@[k].1@)),
        decreases extra@.len() - j,
    {
        let ghost before = env@;
        env.push(
            EnvironmentVariable {
                key: extra[j].0.clone(),
                value: Some(appended_verbatim(extra[j].1.as_str())),
            },
        );
        proof {
            assert forall|k: int| 0 <= k < j + 1 implies (#[trigger] env@[n + k]).key == extra@[k].0
                && (env@[n + k].value matches Some(v) && is_verbatim(v, extra@[k].1@)) by {
                if k < j {
                    assert(env@[n + k] == before[n + k]);
                }
            }
        }
        j = j + 1;
    }
    env
}

/// Whether `env` is the base environment, then the declared outputs.
pub open spec fn is_test_env(
    spec: TargetSpec,
    extra: Seq<(String, String)>,
    declared: Seq<(String, String)>,
    env: Seq<EnvironmentVariable>,
) -> bool {
    let n = spec.env@.len() + extra.len();
    &&& env.len() == n + declared.len()
    &&& is_env(spec, extra, env.take(n as int))
    &&& forall|i: int|
        0 <= i < declared.len() ==> (#[trigger] env[n + i]).key == declared[i].0 && (env[n
            + i].value matches Some(v) && is_declared_output(v, declared[i].1@))
}

/// Builds a test's environment: the base environment, then variables that stand
/// for declared outputs.
pub fn build_test_env(
    spec: &TargetSpec,
    extra: &[(String, String)],
    declared_output_env: &[(String, String)],
) -> (r: Vec<EnvironmentVariable>)
    ensures
        is_test_env(*spec, extra@, declared_output_env@, r@),
{
    let mut env: Vec<EnvironmentVariable> = build_env(spec, extra);
    let ghost base = env@;
    let ghost n = base.len();
    let mut j: usize = 0;
    while j < declared_output_env.len()
        invariant
            j <= declared_output_env@.len(),
            env@.len() == n + j,
            n == base.len(),
            env@.take(n as int) == base,
            forall|k: int|
                0 <= k < j ==> (#[trigger] env@[n + k]).key == declared_output_env@[k].0 && (env@[n
                    + k].value matches Some(v) && is_declared_output(
                    v,
                    declared_output_env@[k].1@,
                )),
        decreases declared_output_env@.len() - j,
    {
        let ghost before = env@;
        env.push(
            EnvironmentVariable {
                key: declared_output_env[j].0.clone(),
                value: Some(declared_output_value(declared_output_env[j].1.as_str())),
            },
        );
        proof {
            assert(env@.take(n as int) =~= before.take(n as int));
            assert forall|k: int| 0 <= k < j + 1 implies (#[trigger] env@[n + k]).key
                == declared_output_env@[k].0 && (env@[n + k].value matches Some(v)
                && is_declared_output(v, declared_output_env@[k].1@)) by {
                if k < j {
                    assert(env@[n + k] == before[n + k]);
                }
            }
        }
        j = j + 1;
    }
    env
}

// ---------------------------------------------------------------------------
// Requests.

/// The executor that hardware needs call for, if any. The most specific need
/// wins.
pub open spec fn executor_for(hardware: HardwareNeeds) -> Option<Seq<char>> {
    if hardware.local_debug {
        Some("rust-local-debug"@)
    } else if hardware.listing_only {
        Some("rust-listing"@)
    } else if hardware.requires_gpu {
        Some("rust-test-gpu"@)
    } else if hardware.requires_large_mem {
        Some("rust-test-large"@)
    } else if hardware.network_isolated {
        Some("rust-test-network-private"@)
    } else {
        None
    }
}

fn executor_override_proto(hardware: &HardwareNeeds) -> (r: Option<ExecutorConfigOverride>)
    ensures
        r is Some <==> executor_for(*hardware) is Some,
        r matches Some(o) ==> executor_for(*hardware) == Some(o.name@),
{
    if hardware.local_debug {
        Some(ExecutorConfigOverride { name: "rust-local-debug".to_owned() })
    } else if hardware.listing_only {
        Some(ExecutorConfigOverride { name: "rust-listing".to_owned() })
    } else if hardware.requires_gpu {
        Some(ExecutorConfigOverride { name: "rust-test-gpu".to_owned() })
    } else if hardware.requires_large_mem {
        Some(ExecutorConfigOverride { name: "rust-test-large".to_owned() })
    } else if hardware.network_isolated {
        Some(ExecutorConfigOverride { name: "rust-test-network-private".to_owned() })
    } else {
        None
    }
}

/// How an action with this isolation level shares its host.
pub open spec fn sharing_for(exclusivity: HostExclusivity) -> HostSharingRequirements {
    HostSharingRequirements {
        requirements: Some(
            match exclusivity {
                HostExclusivity::Shared => HostSharing::Shared { permits: 1 },
                HostExclusivity::Exclusive => HostSharing::ExclusiveAccess,
            },
        ),
    }
}

fn host_sharing_proto(exclusivity: HostExclusivity) -> (r: HostSharingRequirements)
    ensures
        r == sharing_for(exclusivity),
{
    let requirements: HostSharing = match exclusivity {
        HostExclusivity::Shared => HostSharing::Shared { permits: 1 },
        HostExclusivity::Exclusive => HostSharing::ExclusiveAccess,
    };
    HostSharingRequirements { requirements: Some(requirements) }
}

/// The names of resource types.
pub open spec fn resource_names(v: Seq<LocalResourceType>) -> Seq<Seq<char>> {
    Seq::new(v.len(), |i: int| v[i].name@)
}

fn resource_types(resources: &ResourceSet) -> (r: Vec<LocalResourceType>)
    ensures
        text::ascending(resource_names(r@)),
        resource_names(r@).to_set() == resources@,
{
    let names: &Vec<String> = resources.names();
    let mut out: Vec<LocalResourceType> = Vec::new();
    let mut i: usize = 0;
    while i < names.len()
        invariant
            i <= names@.len(),
            resource_names(out@) == text::views(names@).take(i as int),
        decreases names@.len() - i,
    {
        let ghost before = out@;
        out.push(LocalResourceType { name: names[i].clone() });
        proof {
            let v = text::views(names@);
            assert(resource_names(out@) =~= resource_names(before).push(v[i as int]));
            assert(v.take(i + 1) =~= v.take(i as int).push(v[i as int]));
        }
        i = i + 1;
    }
    proof {
        let v = text::views(names@);
        assert(v.take(v.len() as int) =~= v);
    }
    out
}

/// Whether a request carries what its profile asks for and the time for
/// `logical_count` commands.
pub open spec fn runs_under(
    request: ExecuteRequest2,
    profile: SchedulingProfile,
    logical_timeout: Duration,
    logical_count: nat,
) -> bool {
    &&& request.timeout == Some(
        result::wire_span(action_timeout_nanos(logical_timeout, logical_count)),
    )
    &&& request.host_sharing_requirements == Some(sharing_for(profile.exclusivity))
    &&& request.executor_override is Some <==> executor_for(profile.hardware) is Some
    &&& request.executor_override matches Some(o) ==> executor_for(profile.hardware) == Some(o.name@)
    &&& text::ascending(resource_names(request.required_local_resources@))
    &&& resource_names(request.required_local_resources@).to_set() == profile.local_resources@
}

/// Whether `cmd` is the target's own command, supervised, with the listing
/// arguments as its one logical command.
pub open spec fn is_listing_cmd(
    spec: TargetSpec,
    listing_args: Seq<String>,
    timeout: Duration,
    granularity: CgroupGranularity,
    memory_max: CgroupMemoryMax,
    token: ResourceMarkerToken,
    supervisor: Seq<char>,
    cmd: Seq<ArgValue>,
) -> bool {
    exists|base: Seq<ArgValue>, commands: Seq<LogicalCommand>|
        #![trigger logical_lines(commands), base.len()]
        is_cmd(spec, Seq::empty(), base) && commands.len() == 1 && commands[0].index == 0
            && commands[0].appended@ == listing_args && is_supervised(
            base,
            commands,
            supervisor_script(supervisor, commands, timeout, granularity, memory_max, token),
            cmd,
        )
}

/// Whether `r` is the listing request with these inputs.
pub open spec fn is_listing_request(
    spec: TargetSpec,
    listing_args: Seq<String>,
    profile: SchedulingProfile,
    timeout: Duration,
    granularity: CgroupGranularity,
    memory_max: CgroupMemoryMax,
    token: ResourceMarkerToken,
    extra_env: Seq<(String, String)>,
    supervisor: Seq<char>,
    r: ExecuteRequest2,
) -> bool {
    &&& runs_under(r, profile, timeout, 1)
    &&& !r.disable_test_execution_caching
    &&& r.test_executable matches Some(exec)
    &&& exec.stage matches Some(stage)
    &&& stage.item matches Some(StageItem::Listing(listing))
    &&& listing.suite == spec.suite
    &&& !listing.cacheable
    &&& exec.target == Some(ConfiguredTargetHandle { id: spec.handle.0 })
    &&& exec.pre_create_dirs@.len() == 0
    &&& is_env(spec, extra_env, exec.env@)
    &&& is_listing_cmd(
        spec,
        listing_args,
        timeout,
        granularity,
        memory_max,
        token,
        supervisor,
        exec.cmd@,
    )
}

/// Builds a listing request for a target. A listing is never served from the
/// cache: its output is read as the set of test names.
pub fn build_listing_request(
    spec: &TargetSpec,
    listing_args: &[String],
    profile: &SchedulingProfile,
    timeout: Duration,
    cgroup_granularity: CgroupGranularity,
    cgroup_memory_max: CgroupMemoryMax,
    resource_marker_token: &ResourceMarkerToken,
    extra_env: &[(String, String)],
    supervisor: &str,
) -> (r: ExecuteRequest2)
    ensures
        is_listing_request(
            *spec,
            listing_args@,
            *profile,
            timeout,
            cgroup_granularity,
            cgroup_memory_max,
            *resource_marker_token,
            extra_env@,
            supervisor@,
            r,
        ),
{
    let none: Vec<String> = Vec::new();
    let base: Vec<ArgValue> = build_cmd(spec, none.as_slice());
    let mut commands: Vec<LogicalCommand> = Vec::new();
    commands.push(LogicalCommand { index: 0, appended: copy_strings(listing_args) });
    let ghost the_base = base@;
    let ghost the_commands = commands@;
    let cmd: Vec<ArgValue> = build_supervised_cmd(
        base,
        commands,
        timeout,
        cgroup_granularity,
        cgroup_memory_max,
        resource_marker_token,
        supervisor,
    );
    proof {
        assert(none@ =~= Seq::<String>::empty());
        assert(logical_lines(the_commands) == logical_lines(the_commands));
        assert(is_listing_cmd(
            *spec,
            listing_args@,
            timeout,
            cgroup_granularity,
            cgroup_memory_max,
            *resource_marker_token,
            supervisor@,
            cmd@,
        ));
    }
    let stage = TestStage {
        item: Some(StageItem::Listing(Listing { suite: spec.suite.clone(), cacheable: false })),
    };
    let test_executable = TestExecutable {
        stage: Some(stage),
        target: Some(ConfiguredTargetHandle { id: spec.handle.0 }),
        cmd,
        pre_create_dirs: Vec::new(),
        env: build_env(spec, extra_env),
    };
    ExecuteRequest2 {
        timeout: Some(duration_to_proto(supervised_action_timeout(timeout, 1))),
        host_sharing_requirements: Some(host_sharing_proto(profile.exclusivity)),
        test_executable: Some(test_executable),
        executor_override: executor_override_proto(&profile.hardware),
        required_local_resources: resource_types(&profile.local_resources),
        disable_test_execution_caching: false,
    }
}

/// Inputs for a single test-execution action.
pub struct TestingRequest {
    pub target: ConfiguredTargetHandle,
    pub suite: String,
    pub testcases: Vec<String>,
    pub base_command: Vec<ArgValue>,
    pub commands: Vec<LogicalCommand>,
    pub env: Vec<EnvironmentVariable>,
    pub variant: Option<String>,
    pub repeat_count: Option<u64>,
    pub profile: SchedulingProfile,
    pub caching: TestExecutionCaching,
    pub logical_timeout: Duration,
    pub cgroup_granularity: CgroupGranularity,
    pub cgroup_memory_max: CgroupMemoryMax,
    pub resource_marker_token: ResourceMarkerToken,
    /// The text of the script that supervises the commands.
    pub supervisor: String,
}

/// Whether `r` is the testing request with these inputs.
pub open spec fn is_testing_request(req: TestingRequest, r: ExecuteRequest2) -> bool {
    &&& runs_under(r, req.profile, req.logical_timeout, req.commands@.len())
    &&& r.disable_test_execution_caching == (req.caching is Disabled)
    &&& r.test_executable matches Some(exec)
    &&& exec.stage matches Some(stage)
    &&& stage.item matches Some(StageItem::Testing(testing))
    &&& testing.suite == req.suite
    &&& testing.testcases == req.testcases
    &&& testing.variant == req.variant
    &&& testing.repeat_count == req.repeat_count
    &&& exec.target == Some(req.target)
    &&& exec.pre_create_dirs@.len() == 0
    &&& exec.env == req.env
    &&& is_supervised(
        req.base_command@,
        req.commands@,
        supervisor_script(
            req.supervisor@,
            req.commands@,
            req.logical_timeout,
            req.cgroup_granularity,
            req.cgroup_memory_max,
            req.resource_marker_token,
        ),
        exec.cmd@,
    )
}

/// Builds a testing request.
pub fn build_testing_request(req: TestingRequest) -> (r: ExecuteRequest2)
    ensures
        is_testing_request(req, r),
{
    let logical_count: usize = req.commands.len();
    let stage = TestStage {
        item: Some(
            StageItem::Testing(
                Testing {
                    suite: req.suite,
                    testcases: req.testcases,
                    variant: req.variant,
                    repeat_count: req.repeat_count,
                },
            ),
        ),
    };
    let cmd: Vec<ArgValue> = build_supervised_cmd(
        req.base_command,
        req.commands,
        req.logical_timeout,
        req.cgroup_granularity,
        req.cgroup_memory_max,
        &req.resource_marker_token,
        req.supervisor.as_str(),
    );
    let test_executable = TestExecutable {
        stage: Some(stage),
        target: Some(req.target),
        cmd,
        pre_create_dirs: Vec::new(),
        env: req.env,
    };
    ExecuteRequest2 {
        timeout: Some(
            duration_to_proto(supervised_action_timeout(req.logical_timeout, logical_count)),
        ),
        host_sharing_requirements: Some(host_sharing_proto(req.profile.exclusivity)),
        test_executable: Some(test_executable),
        executor_override: executor_override_proto(&req.profile.hardware),
        required_local_resources: resource_types(&req.profile.local_resources),
        disable_test_execution_caching: req.caching.disable_flag(),
    }
}

/// Whether two arguments are the same.
pub open spec fn same_argument(a: ArgValue, b: ArgValue) -> bool {
    a == b || exists|text: Seq<char>| #[trigger] is_verbatim(a, text) && is_verbatim(b, text)
}

/// Whether two requests are the same but for the environment of their actions.
pub open spec fn same_but_for_environment(a: ExecuteRequest2, b: ExecuteRequest2) -> bool {
    &&& a.timeout == b.timeout
    &&& a.host_sharing_requirements == b.host_sharing_requirements
    &&& a.disable_test_execution_caching == b.disable_test_execution_caching
    &&& a.executor_override is Some <==> b.executor_override is Some
    &&& a.executor_override matches Some(o) ==> o.name@ == b.executor_override->0.name@
    &&& resource_names(a.required_local_resources@) == resource_names(
        b.required_local_resources@,
    )
    &&& a.test_executable matches Some(x) && b.test_executable matches Some(y) && x.stage
        == y.stage && x.target == y.target && x.pre_create_dirs@ == y.pre_create_dirs@
        && x.cmd@.len() == y.cmd@.len() && forall|i: int|
        0 <= i < x.cmd@.len() ==> same_argument(#[trigger] x.cmd@[i], y.cmd@[i])
}

/// A target's environment does not reach its supervised command: testing requests
/// that differ in their environment alone run the same command under the same script,
/// with the same memory limit and timeout. Each action gets the environment that was
/// asked for.
pub proof fn law_environment_leaves_the_command(
    a: TestingRequest,
    b: TestingRequest,
    ra: ExecuteRequest2,
    rb: ExecuteRequest2,
)
    requires
        b == (TestingRequest { env: b.env, ..a }),
        is_testing_request(a, ra),
        is_testing_request(b, rb),
    ensures
        same_but_for_environment(ra, rb),
        ra.test_executable->0.env == a.env,
        rb.test_executable->0.env == b.env,
        a.commands@.len() > 0 ==> is_verbatim(
            rb.test_executable->0.cmd@[2],
            supervisor_script(
                a.supervisor@,
                a.commands@,
                a.logical_timeout,
                a.cgroup_granularity,
                a.cgroup_memory_max,
                a.resource_marker_token,
            ),
        ),
{
    text::lemma_ascending_unique(
        resource_names(ra.required_local_resources@),
        resource_names(rb.required_local_resources@),
    );
    let x = ra.test_executable->0;
    let y = rb.test_executable->0;
    assert(x.pre_create_dirs@ =~= y.pre_create_dirs@);
    assert forall|i: int| 0 <= i < x.cmd@.len() implies same_argument(
        #[trigger] x.cmd@[i],
        y.cmd@[i],
    ) by {
        if a.commands@.len() > 0 && i >= 4 {
            assert(x.cmd@.skip(4)[i - 4] == x.cmd@[i]);
            assert(y.cmd@.skip(4)[i - 4] == y.cmd@[i]);
        }
    }
}

} // verus!
