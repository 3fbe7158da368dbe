//! Decoding of an execute response, independent of any test framework, plus the
//! terminal-status, result-identity, log-routing and execution-kind types.
//!
//! This is the first stage of status decoding: it turns an [`ExecuteResponse2`]
//! into an [`Execute2Outcome`] that carries the exit code, timeout or
//! cancellation and the captured streams, with no pass/fail judgment. "Exit 0 is
//! a pass" is a convention of a test harness, not a protocol fact, so that
//! judgment belongs to the translator.

use vstd::prelude::*;

use crate::proto::{
    CancellationReason, ActionCommand, CommandExecutionKind, ConfiguredTargetHandle, ExecuteResponse,
    ExecuteResponse2, ExecutionResult2, ExecutionStream, StreamItem, TestResult, TestStatus,
    WireDuration, WireStatus,
};
use crate::text::{self, chars_of, push_all, push_decimal, string_of};
use crate::time::Duration;
use crate::variant::{RepeatKind, Variant};

verus! {

/// What came back for one action: a completed action, or a cancellation whose
/// two reasons mean very different things.
#[derive(Debug)]
pub enum Execute2Outcome {
    Completed(CompletedAction),
    /// The action waited too long in a remote queue: transient, eligible for a
    /// bounded retry.
    CancelledQueueTimeout,
    /// An unspecified or absent reason: a global cancel, never retried.
    CancelledUnspecified,
}

/// A completed action's observable results (still no pass/fail judgment).
#[derive(Debug)]
pub struct CompletedAction {
    pub status: ProcessOutcome,
    pub stdout: Vec<u8>,
    pub stderr: Vec<u8>,
    pub execution_time: Duration,
    pub max_memory_used_bytes: Option<u64>,
    pub exec_kind: ExecKind,
}

/// The raw process outcome, before any harness interpretation.
#[derive(Debug, Clone, Copy, PartialEq, Eq)]
pub enum ProcessOutcome {
    Finished { exit_code: i32 },
    TimedOut { after: Duration },
}

/// How the action was executed. It decides whether the run counts as a fresh
/// observation for the history; it never gates test status.
#[derive(Debug, Clone, Copy, PartialEq, Eq, Structural)]
pub enum ExecKind {
    Local,
    RemoteCacheHit,
    RemoteExecuted,
    Omitted,
    Worker,
    Unknown,
}

impl ExecKind {
    /// Whether this execution is a fresh, independent run of the test.
    pub open spec fn spec_is_fresh_run(self) -> bool {
        self is Local || self is RemoteExecuted || self is Worker
    }

    /// Whether this execution is a fresh, independent run of the test, as opposed
    /// to a cache replay or an omitted action. Only fresh runs are recorded: a
    /// cache hit replays a result that has been recorded already.
    pub fn is_fresh_run(self) -> (r: bool)
        ensures
            r == self.spec_is_fresh_run(),
    {
        matches!(self, ExecKind::Local | ExecKind::RemoteExecuted | ExecKind::Worker)
    }
}

/// A failure-class tag for the flake history, derived from a terminal status.
#[derive(Debug, Clone, Copy, PartialEq, Eq, Structural)]
pub enum FailureClass {
    Fail,
    Fatal,
    Timeout,
    Infra,
}

/// The terminal statuses that count for a *test* result. Distinct from the wire
/// status so that a value which the other side drops, or a listing-only status,
/// cannot be sent as a test result.
#[derive(Debug, Clone, Copy, PartialEq, Eq, Structural)]
pub enum TestVerdict {
    Pass,
    Fail,
    Skip,
    Omitted,
    Fatal,
    Timeout,
    InfraFailure,
}

impl TestVerdict {
    /// The wire status of the verdict.
    pub open spec fn spec_wire(self) -> TestStatus {
        match self {
            TestVerdict::Pass => TestStatus::Pass,
            TestVerdict::Fail => TestStatus::Fail,
            TestVerdict::Skip => TestStatus::Skip,
            TestVerdict::Omitted => TestStatus::Omitted,
            TestVerdict::Fatal => TestStatus::Fatal,
            TestVerdict::Timeout => TestStatus::Timeout,
            TestVerdict::InfraFailure => TestStatus::InfraFailure,
        }
    }

    /// Whether the verdict counts as a run failure, before quarantine.
    pub open spec fn spec_is_failure(self) -> bool {
        self is Fail || self is Fatal || self is Timeout || self is InfraFailure
    }

    /// The wire status of the verdict.
    pub fn to_wire(self) -> (r: TestStatus)
        ensures
            r == self.spec_wire(),
    {
        match self {
            TestVerdict::Pass => TestStatus::Pass,
            TestVerdict::Fail => TestStatus::Fail,
            TestVerdict::Skip => TestStatus::Skip,
            TestVerdict::Omitted => TestStatus::Omitted,
            TestVerdict::Fatal => TestStatus::Fatal,
            TestVerdict::Timeout => TestStatus::Timeout,
            TestVerdict::InfraFailure => TestStatus::InfraFailure,
        }
    }

    /// Whether this status should count as a run failure, before quarantine.
    ///
    /// `InfraFailure` counts: a test whose action never produced a verdict must
    /// not read as a pass.
    pub fn is_failure(self) -> (r: bool)
        ensures
            r == self.spec_is_failure(),
    {
        matches!(
            self,
            TestVerdict::Fail
                | TestVerdict::Fatal
                | TestVerdict::Timeout
                | TestVerdict::InfraFailure
        )
    }
}

/// A verdict never travels as one of the statuses that are not counted as a
/// test result, and two verdicts never travel as the same status.
pub proof fn law_verdicts_travel_as_countable_statuses(a: TestVerdict, b: TestVerdict)
    ensures
        !(a.spec_wire() is NotSet),
        !(a.spec_wire() is Unknown),
        !(a.spec_wire() is Rerun),
        !(a.spec_wire() is ListingSuccess),
        !(a.spec_wire() is ListingFailed),
        a.spec_wire() == b.spec_wire() ==> a == b,
{
}

/// The span a wire duration stands for: negative parts count as zero, and no
/// more than a second is carried over.
pub open spec fn wire_duration_nanos(d: WireDuration) -> nat {
    let secs: int = if d.seconds < 0 {
        0
    } else {
        d.seconds as int
    };
    let nanos: int = if d.nanos < 0 {
        0
    } else if d.nanos > 1_999_999_999 {
        1_999_999_999
    } else {
        d.nanos as int
    };
    (secs * 1_000_000_000 + nanos) as nat
}

fn duration_from_proto(d: WireDuration) -> (r: Duration)
    ensures
        r.total_nanos() == wire_duration_nanos(d),
{
    let secs: u64 = if d.seconds < 0 {
        0
    } else {
        d.seconds as u64
    };
    let nanos: u32 = if d.nanos < 0 {
        0
    } else if d.nanos > 1_999_999_999 {
        1_999_999_999
    } else {
        d.nanos as u32
    };
    if nanos < 1_000_000_000 {
        Duration::normalized(secs, nanos)
    } else {
        Duration::normalized(secs + 1, nanos - 1_000_000_000)
    }
}

/// The bytes of a captured stream; an absent one is empty.
pub open spec fn stream_contents(stream: Option<ExecutionStream>) -> Seq<u8> {
    match stream {
        Some(s) => match s.item {
            Some(StreamItem::Inline(bytes)) => bytes@,
            None => Seq::empty(),
        },
        None => Seq::empty(),
    }
}

fn stream_bytes(stream: Option<ExecutionStream>) -> (r: Vec<u8>)
    ensures
        r@ == stream_contents(stream),
{
    match stream {
        Some(s) => match s.item {
            Some(StreamItem::Inline(bytes)) => bytes,
            None => Vec::new(),
        },
        None => Vec::new(),
    }
}

/// The execution kind that a command stands for.
pub open spec fn exec_kind_of(kind: CommandExecutionKind) -> ExecKind {
    match kind.command {
        Some(ActionCommand::LocalCommand) => ExecKind::Local,
        Some(ActionCommand::RemoteCommand { cache_hit }) => if cache_hit {
            ExecKind::RemoteCacheHit
        } else {
            ExecKind::RemoteExecuted
        },
        Some(ActionCommand::OmittedLocalCommand) => ExecKind::Omitted,
        Some(ActionCommand::WorkerInitCommand) => ExecKind::Worker,
        Some(ActionCommand::WorkerCommand) => ExecKind::Worker,
        None => ExecKind::Unknown,
    }
}

fn classify_exec_kind(kind: CommandExecutionKind) -> (r: ExecKind)
    ensures
        r == exec_kind_of(kind),
{
    match kind.command {
        Some(ActionCommand::LocalCommand) => ExecKind::Local,
        Some(ActionCommand::RemoteCommand { cache_hit }) => {
            if cache_hit {
                ExecKind::RemoteCacheHit
            } else {
                ExecKind::RemoteExecuted
            }
        },
        Some(ActionCommand::OmittedLocalCommand) => ExecKind::Omitted,
        Some(ActionCommand::WorkerInitCommand) => ExecKind::Worker,
        Some(ActionCommand::WorkerCommand) => ExecKind::Worker,
        None => ExecKind::Unknown,
    }
}

/// Whether `action` carries what `result` says. A missing status stands for the
/// exit code -1, so that it never reads as a pass.
pub open spec fn completed_from(result: ExecutionResult2, action: CompletedAction) -> bool {
    &&& match result.status {
        Some(s) => match s.status {
            Some(WireStatus::Finished(code)) => action.status == ProcessOutcome::Finished {
                exit_code: code,
            },
            Some(WireStatus::TimedOut(d)) => action.status matches ProcessOutcome::TimedOut {
                after,
            } && after.total_nanos() == wire_duration_nanos(d),
            None => action.status == ProcessOutcome::Finished { exit_code: -1i32 },
        },
        None => action.status == ProcessOutcome::Finished { exit_code: -1i32 },
    }
    &&& action.stdout@ == stream_contents(result.stdout)
    &&& action.stderr@ == stream_contents(result.stderr)
    &&& action.execution_time.total_nanos() == match result.execution_time {
        Some(d) => wire_duration_nanos(d),
        None => 0,
    }
    &&& action.max_memory_used_bytes == result.max_memory_used_bytes
    &&& action.exec_kind == match result.execution_details {
        Some(details) => match details.execution_kind {
            Some(kind) => exec_kind_of(kind),
            None => ExecKind::Unknown,
        },
        None => ExecKind::Unknown,
    }
}

fn decode_result(result: ExecutionResult2) -> (r: CompletedAction)
    ensures
        completed_from(result, r),
{
    let status: ProcessOutcome = match result.status {
        Some(s) => match s.status {
            Some(WireStatus::Finished(exit_code)) => ProcessOutcome::Finished { exit_code },
            Some(WireStatus::TimedOut(d)) => ProcessOutcome::TimedOut {
                after: duration_from_proto(d),
            },
            None => ProcessOutcome::Finished { exit_code: -1 },
        },
        None => ProcessOutcome::Finished { exit_code: -1 },
    };
    let execution_time: Duration = match result.execution_time {
        Some(d) => duration_from_proto(d),
        None => Duration::from_secs(0),
    };
    let exec_kind: ExecKind = match result.execution_details {
        Some(details) => match details.execution_kind {
            Some(kind) => classify_exec_kind(kind),
            None => ExecKind::Unknown,
        },
        None => ExecKind::Unknown,
    };
    CompletedAction {
        status,
        stdout: stream_bytes(result.stdout),
        stderr: stream_bytes(result.stderr),
        execution_time,
        max_memory_used_bytes: result.max_memory_used_bytes,
        exec_kind,
    }
}

/// Decodes a response. Only a queue timeout is a transient cancellation; an
/// absent or unspecified reason, or a response without a payload, is a global
/// cancel.
pub fn decode_response(response: ExecuteResponse2) -> (r: Execute2Outcome)
    ensures
        match response.response {
            Some(ExecuteResponse::Result(result)) => r matches Execute2Outcome::Completed(action)
                && completed_from(result, action),
            Some(ExecuteResponse::Cancelled(cancelled)) => if cancelled.reason == Some(
                CancellationReason::ReQueueTimeout,
            ) {
                r is CancelledQueueTimeout
            } else {
                r is CancelledUnspecified
            },
            None => r is CancelledUnspecified,
        },
{
    match response.response {
        Some(ExecuteResponse::Result(result)) => Execute2Outcome::Completed(decode_result(result)),
        Some(ExecuteResponse::Cancelled(cancelled)) => match cancelled.reason {
            Some(CancellationReason::ReQueueTimeout) => Execute2Outcome::CancelledQueueTimeout,
            Some(CancellationReason::NotSpecified) => Execute2Outcome::CancelledUnspecified,
            None => Execute2Outcome::CancelledUnspecified,
        },
        None => Execute2Outcome::CancelledUnspecified,
    }
}

/// What identifies a test across runs.
#[derive(Debug, Clone, PartialEq, Eq, Hash)]
pub struct TestIdentity {
    pub target: String,
    pub name: String,
    pub variant: Variant,
}

/// The contents of a [`TestIdentity`].
pub struct IdentityView {
    pub target: Seq<char>,
    pub name: Seq<char>,
    pub variant: Seq<char>,
}

impl View for TestIdentity {
    type V = IdentityView;

    open spec fn view(&self) -> IdentityView {
        IdentityView {
            target: self.target@,
            name: self.name@,
            variant: self.variant.spec_label(),
        }
    }
}

/// What identifies a test of a target under a variant.
pub fn identity_of(target: &String, name: &String, variant: &Variant) -> (r: TestIdentity)
    ensures
        r == (TestIdentity { target: *target, name: *name, variant: *variant }),
{
    TestIdentity { target: target.clone(), name: name.clone(), variant: variant.duplicate() }
}

/// What identifies each of some tests of a target under a variant, in their order.
pub fn identities_of(target: &str, names: &[String], variant: &Variant) -> (r: Vec<TestIdentity>)
    ensures
        r@.len() == names@.len(),
        forall|i: int|
            0 <= i < r@.len() ==> (#[trigger] r@[i]).target@ == target@ && r@[i].name == names@[i]
                && r@[i].variant == *variant,
{
    let target: String = target.to_owned();
    let mut out: Vec<TestIdentity> = Vec::new();
    let mut i: usize = 0;
    while i < names.len()
        invariant
            i <= names.len(),
            out@.len() == i,
            forall|k: int|
                0 <= k < i ==> (#[trigger] out@[k]).target == target && out@[k].name == names@[k]
                    && out@[k].variant == *variant,
        decreases names.len() - i,
    {
        out.push(identity_of(&target, &names[i], variant));
        i += 1;
    }
    out
}

/// `#` and the identity, or nothing when there is none.
pub open spec fn variant_tag(identity: Option<Seq<char>>) -> Seq<char> {
    match identity {
        Some(text) => seq!['#'] + text,
        None => Seq::empty(),
    }
}

/// The history key of a test in a project directory.
pub open spec fn db_key(project: Seq<char>, id: TestIdentity) -> Seq<char> {
    project + seq!['\u{2}'] + id.target@ + seq!['\u{1}'] + id.name@ + variant_tag(
        id.variant.spec_identity(),
    )
}

/// Appends `#` and the variant's identity, or nothing when it has none.
fn push_variant_tag(out: &mut Vec<char>, variant: &Variant)
    ensures
        final(out)@ == old(out)@ + variant_tag(variant.spec_identity()),
{
    match variant.identity() {
        Some(text) => {
            out.push('#');
            let cs: Vec<char> = chars_of(text.as_str());
            push_all(out, cs.as_slice());
            proof {
                assert(out@ =~= old(out)@ + (seq!['#'] + text@));
            }
        },
        None => {
            proof {
                assert(out@ =~= old(out)@ + Seq::<char>::empty());
            }
        },
    }
}

impl TestIdentity {
    /// The history key of the test in the project directory `project`.
    pub fn to_db_key(&self, project: &str) -> (r: String)
        ensures
            r@ == db_key(project@, *self),
    {
        let mut out: Vec<char> = chars_of(project);
        out.push('\u{2}');
        let target: Vec<char> = chars_of(self.target.as_str());
        push_all(&mut out, target.as_slice());
        out.push('\u{1}');
        let name: Vec<char> = chars_of(self.name.as_str());
        push_all(&mut out, name.as_slice());
        push_variant_tag(&mut out, &self.variant);
        proof {
            assert(out@ =~= db_key(project@, *self));
        }
        string_of(out.as_slice())
    }

    /// An equal copy.
    pub fn duplicate(&self) -> (r: TestIdentity)
        ensures
            r == *self,
    {
        TestIdentity {
            target: self.target.clone(),
            name: self.name.clone(),
            variant: self.variant.duplicate(),
        }
    }
}

/// What identifies one run of a test.
#[derive(Debug, Clone, PartialEq, Eq, Hash)]
pub struct RunIdentity {
    pub test: TestIdentity,
    pub repeat: RepeatKind,
    pub repeat_index: u32,
}

/// `#rep` and the repeat index for a stress run, nothing otherwise.
pub open spec fn repeat_tag(repeat: RepeatKind, index: u32) -> Seq<char> {
    if repeat is Stress {
        "#rep"@ + text::decimal(index as nat)
    } else {
        Seq::empty()
    }
}

impl RunIdentity {
    /// The reported name: the test name, then the variant, then the repetition.
    pub open spec fn spec_buck2_name(self) -> Seq<char> {
        self.test.name@ + variant_tag(self.test.variant.spec_identity()) + repeat_tag(
            self.repeat,
            self.repeat_index,
        )
    }

    /// The reported name: the test name, then the variant, then the repetition.
    pub fn to_buck2_name(&self) -> (r: String)
        ensures
            r@ == self.spec_buck2_name(),
    {
        let mut out: Vec<char> = chars_of(self.test.name.as_str());
        push_variant_tag(&mut out, &self.test.variant);
        if self.repeat.is_stress() {
            let rep: Vec<char> = chars_of("#rep");
            push_all(&mut out, rep.as_slice());
            push_decimal(&mut out, self.repeat_index as u128);
        }
        proof {
            assert(out@ =~= self.spec_buck2_name());
        }
        string_of(out.as_slice())
    }
}

/// Whether the tag of a variant ends the way a repetition tag does.
pub open spec fn ends_like_repeat(identity: Option<Seq<char>>) -> bool {
    exists|n: nat| #[trigger] ("#rep"@ + text::decimal(n)).is_suffix_of(variant_tag(identity))
}

/// A decimal holds no `#`.
proof fn lemma_decimal_has_no_hash(n: nat)
    ensures
        forall|i: int| 0 <= i < text::decimal(n).len() ==> #[trigger] text::decimal(n)[i] != '#',
{
    crate::text::lemma_decimal_reads_back(n);
    assert forall|i: int| 0 <= i < text::decimal(n).len() implies #[trigger] text::decimal(n)[i] != '#' by {
        assert(crate::text::is_digit(text::decimal(n)[i]));
    }
}

/// Two texts that end in a repetition tag and are equal agree before it and in
/// the index.
proof fn lemma_repeat_tags_align(x: Seq<char>, i: nat, y: Seq<char>, j: nat)
    requires
        x + ("#rep"@ + text::decimal(i)) == y + ("#rep"@ + text::decimal(j)),
    ensures
        x == y,
        i == j,
{
    reveal_strlit("#rep");
    let a = x + ("#rep"@ + text::decimal(i));
    let b = y + ("#rep"@ + text::decimal(j));
    lemma_decimal_has_no_hash(i);
    lemma_decimal_has_no_hash(j);
    let tail_i = "#rep"@ + text::decimal(i);
    let tail_j = "#rep"@ + text::decimal(j);
    assert(a.len() == b.len());
    assert(a[x.len() as int] == tail_i[0]);
    assert(b[y.len() as int] == tail_j[0]);
    if x.len() < y.len() {
        let k = y.len() - x.len();
        assert(a[y.len() as int] == tail_i[k]);
        if k < 4 {
            assert(tail_i[k] == "#rep"@[k]);
        } else {
            assert(tail_i[k] == text::decimal(i)[k - 4]);
        }
        assert(false);
    }
    if y.len() < x.len() {
        let k = x.len() - y.len();
        assert(b[x.len() as int] == tail_j[k]);
        if k < 4 {
            assert(tail_j[k] == "#rep"@[k]);
        } else {
            assert(tail_j[k] == text::decimal(j)[k - 4]);
        }
        assert(false);
    }
    assert(x =~= a.take(x.len() as int));
    assert(y =~= b.take(y.len() as int));
    assert(text::decimal(i) =~= a.skip(x.len() as int + 4));
    assert(text::decimal(j) =~= b.skip(y.len() as int + 4));
    crate::text::lemma_decimal_reads_back(i);
    crate::text::lemma_decimal_reads_back(j);
}

/// Runs of one test have the same reported name only when they have the same
/// variant and the same repetition. A single run whose variant identity itself
/// ends like a repetition tag (such as `rep3`) can collide with a stress run.
pub proof fn law_run_names_are_unique(a: RunIdentity, b: RunIdentity)
    requires
        a.test.name@ == b.test.name@,
        a.spec_buck2_name() == b.spec_buck2_name(),
        a.repeat is Once && b.repeat is Stress ==> !ends_like_repeat(a.test.variant.spec_identity()),
        b.repeat is Once && a.repeat is Stress ==> !ends_like_repeat(b.test.variant.spec_identity()),
    ensures
        a.test.variant.spec_identity() == b.test.variant.spec_identity(),
        a.repeat is Stress == b.repeat is Stress,
        a.repeat is Stress ==> a.repeat_index == b.repeat_index,
{
    let name = a.test.name@;
    let va = variant_tag(a.test.variant.spec_identity());
    let vb = variant_tag(b.test.variant.spec_identity());
    let ra = repeat_tag(a.repeat, a.repeat_index);
    let rb = repeat_tag(b.repeat, b.repeat_index);
    assert(va + ra =~= a.spec_buck2_name().skip(name.len() as int));
    assert(vb + rb =~= b.spec_buck2_name().skip(name.len() as int));
    assert(va + ra == vb + rb);
    if a.repeat is Stress && b.repeat is Stress {
        lemma_repeat_tags_align(va, a.repeat_index as nat, vb, b.repeat_index as nat);
    } else if a.repeat is Once && b.repeat is Stress {
        let tag = "#rep"@ + text::decimal(b.repeat_index as nat);
        assert(va =~= vb + tag);
        assert(tag =~= va.subrange(va.len() - tag.len(), va.len() as int));
        assert(tag.is_suffix_of(va));
        assert(("#rep"@ + text::decimal(b.repeat_index as nat)).is_suffix_of(va));
        assert(false);
    } else if b.repeat is Once && a.repeat is Stress {
        let tag = "#rep"@ + text::decimal(a.repeat_index as nat);
        assert(vb =~= va + tag);
        assert(tag =~= vb.subrange(vb.len() - tag.len(), vb.len() as int));
        assert(("#rep"@ + text::decimal(a.repeat_index as nat)).is_suffix_of(vb));
        assert(false);
    } else {
        assert(va + ra =~= va);
        assert(vb + rb =~= vb);
    }
    assert(va == vb);
    match (a.test.variant.spec_identity(), b.test.variant.spec_identity()) {
        (Some(x), Some(y)) => {
            assert(x =~= va.skip(1));
            assert(y =~= vb.skip(1));
        },
        (Some(x), None) => {
            assert(va.len() > 0);
        },
        (None, Some(y)) => {
            assert(vb.len() > 0);
        },
        (None, None) => {},
    }
}

/// Whether a details blob is small enough to send inline, or must be uploaded.
#[derive(Debug, Clone, Copy, PartialEq, Eq, Structural)]
pub enum LogRouting {
    Inline,
    UploadToCas,
}

/// Where a log of `len` bytes goes given the inline limit.
pub fn route_log(len: usize, inline_limit: usize) -> (r: LogRouting)
    ensures
        r is Inline <==> len <= inline_limit,
{
    if len <= inline_limit {
        LogRouting::Inline
    } else {
        LogRouting::UploadToCas
    }
}

/// The wire form of a span: seconds and nanoseconds, the seconds truncated to
/// the wire's width.
pub open spec fn wire_of(d: Duration) -> WireDuration {
    WireDuration { seconds: d.spec_secs() as i64, nanos: d.spec_nanos() as i32 }
}

/// The wire form of a span of so many nanoseconds.
pub open spec fn wire_span(nanos: nat) -> WireDuration {
    WireDuration {
        seconds: (nanos / 1_000_000_000) as i64,
        nanos: (nanos % 1_000_000_000) as i32,
    }
}

/// The wire form of a span.
pub fn duration_to_proto(d: Duration) -> (r: WireDuration)
    ensures
        r == wire_of(d),
        r == wire_span(d.total_nanos()),
{
    let nanos: u32 = d.subsec_nanos();
    proof {
        assert(d.total_nanos() / 1_000_000_000 == d.spec_secs());
        assert(d.total_nanos() % 1_000_000_000 == nanos);
    }
    WireDuration {
        seconds: #[verifier::truncate] (d.as_secs() as i64),
        nanos: #[verifier::truncate] (nanos as i32),
    }
}

/// Builds a reported result; its name is the canonical run identity.
pub fn build_test_result(
    identity: &RunIdentity,
    target: ConfiguredTargetHandle,
    status: TestVerdict,
    duration: Option<Duration>,
    details: String,
    max_memory_used_bytes: Option<u64>,
) -> (r: TestResult)
    ensures
        r.name@ == identity.spec_buck2_name(),
        r.status == status.spec_wire(),
        r.msg is None,
        r.target == Some(target),
        r.duration == match duration {
            Some(d) => Some(wire_of(d)),
            None => None,
        },
        duration matches Some(d) ==> r.duration == Some(wire_span(d.total_nanos())),
        r.details == details,
        r.max_memory_used_bytes == max_memory_used_bytes,
{
    TestResult {
        name: identity.to_buck2_name(),
        status: status.to_wire(),
        msg: None,
        target: Some(target),
        duration: match duration {
            Some(d) => Some(duration_to_proto(d)),
            None => None,
        },
        details,
        max_memory_used_bytes,
    }
}

/// The failure class of a terminal status, `None` for non-failures.
pub open spec fn spec_failure_class(status: TestVerdict) -> Option<FailureClass> {
    match status {
        TestVerdict::Fail => Some(FailureClass::Fail),
        TestVerdict::Fatal => Some(FailureClass::Fatal),
        TestVerdict::Timeout => Some(FailureClass::Timeout),
        TestVerdict::InfraFailure => Some(FailureClass::Infra),
        _ => None,
    }
}

/// The failure class for the flake history, `None` for non-failures.
pub fn failure_class(status: TestVerdict) -> (r: Option<FailureClass>)
    ensures
        r == spec_failure_class(status),
        r is Some <==> status.spec_is_failure(),
{
    match status {
        TestVerdict::Fail => Some(FailureClass::Fail),
        TestVerdict::Fatal => Some(FailureClass::Fatal),
        TestVerdict::Timeout => Some(FailureClass::Timeout),
        TestVerdict::InfraFailure => Some(FailureClass::Infra),
        TestVerdict::Pass | TestVerdict::Skip | TestVerdict::Omitted => None,
    }
}

} // verus!
