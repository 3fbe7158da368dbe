//! From the outcome of a test to its reported result: the details that go with it,
//! the note on who looks after the test, and the result itself.

use vstd::prelude::*;
use vstd::utf8::*;

use crate::cli::RunnerConfig;
use crate::duration_db::{self, DurationDb, FlakeRecord};
use crate::execution::{self, fnv1a, FNV_SEED};
use crate::policy::Owner;
use crate::proto::TestResult;
use crate::result::{
    self, build_test_result, identity_of, route_log, FailureClass, LogRouting, RunIdentity,
    TestIdentity, TestVerdict,
};
use crate::scheduler::action::FinishedPart;
use crate::scheduler::observe::{
    self, AttemptDuration, AttemptObservation, AttemptView, DbObservation, ReportDisposition, ResultIntegrity,
};
use crate::scheduler::plan::TargetPlan;
use crate::spec::TargetSpec;
use crate::text::{
    self, chars_of, copy_strings, decimal_text, join_texts, lines_of, signed_text, slice_of,
    string_of, wide_decimal_text,
};
use crate::time::Duration;
use crate::variant::RepeatKind;

verus! {

// ---------------------------------------------------------------------------
// Details.

/// Whether details belong to a failing test. A failure is never truncated inline:
/// its complete output is shown even when it is also uploaded. Details of passing
/// tests keep a bounded preview.
#[derive(Debug, Clone, Copy, PartialEq, Eq, Structural)]
pub enum DetailKind {
    Failure,
    Passing,
}

impl DetailKind {
    /// The kind of the details that go with a verdict.
    pub open spec fn spec_of(status: TestVerdict) -> DetailKind {
        if status.spec_is_failure() {
            DetailKind::Failure
        } else {
            DetailKind::Passing
        }
    }

    /// The kind of the details that go with a verdict.
    pub fn of(status: TestVerdict) -> (r: Self)
        ensures
            r == DetailKind::spec_of(status),
    {
        if status.is_failure() {
            DetailKind::Failure
        } else {
            DetailKind::Passing
        }
    }
}

/// How many bytes of a passing test's details stay inline.
pub const HEAD: usize = 4096;

/// How many of the first `k` characters fit into the preview.
pub open spec fn head_len(details: Seq<char>, k: nat) -> nat
    decreases k,
{
    if k == 0 || encode_utf8(details.take(k as int)).len() <= HEAD {
        k
    } else {
        head_len(details, (k - 1) as nat)
    }
}

/// Details cut to the preview, with a remark where something was cut.
pub open spec fn truncated(details: Seq<char>) -> Seq<char> {
    if encode_utf8(details).len() <= HEAD {
        details
    } else {
        details.take(head_len(details, details.len()) as int)
            + "\n\u{2026}[truncated, full log in CAS]"@
    }
}

/// A character more adds its encoding.
proof fn lemma_encode_push(s: Seq<char>, c: char)
    ensures
        encode_utf8(s.push(c)) == encode_utf8(s) + encode_scalar(c as u32),
    decreases s.len(),
{
    let more = s.push(c);
    if s.len() == 0 {
        assert(more[0] == c);
        assert(encode_utf8(more.drop_first()) =~= Seq::<u8>::empty());
        assert(encode_utf8(more) =~= encode_scalar(c as u32));
        assert(encode_utf8(s) + encode_scalar(c as u32) =~= encode_scalar(c as u32));
    } else {
        lemma_encode_push(s.drop_first(), c);
        assert(more.drop_first() =~= s.drop_first().push(c));
        assert(encode_utf8(more) =~= encode_utf8(s) + encode_scalar(c as u32));
    }
}

/// How many bytes a character takes.
fn char_width(c: char) -> (r: usize)
    ensures
        r == encode_scalar(c as u32).len(),
        1 <= r <= 4,
{
    let code: u32 = c as u32;
    if code <= 0x7f {
        1
    } else if code <= 0x7ff {
        2
    } else if code <= 0xffff {
        3
    } else {
        4
    }
}

/// Details cut to the preview.
pub fn truncate(details: &str) -> (r: String)
    ensures
        r@ == truncated(details@),
{
    let mut bytes: usize = details.as_bytes().len();
    if bytes <= HEAD {
        return details.to_owned();
    }
    let cs: Vec<char> = chars_of(details);
    let mut k: usize = cs.len();
    proof {
        assert(details@.take(k as int) =~= details@);
    }
    while k > 0 && bytes > HEAD
        invariant
            k <= cs.len(),
            cs@ == details@,
            bytes == encode_utf8(details@.take(k as int)).len(),
            head_len(details@, details@.len()) == head_len(details@, k as nat),
        decreases k,
    {
        proof {
            lemma_encode_push(details@.take(k - 1), cs@[k - 1]);
            assert(details@.take(k as int) =~= details@.take(k - 1).push(cs@[k - 1]));
        }
        k -= 1;
        bytes -= char_width(cs[k]);
    }
    let head: Vec<char> = slice_of(cs.as_slice(), 0, k);
    proof {
        assert(head@ =~= details@.take(k as int));
    }
    let mut out: String = string_of(head.as_slice());
    out.push_str("\n\u{2026}[truncated, full log in CAS]");
    out
}

/// What stays inline of details that are uploaded.
pub open spec fn spec_inline_body(kind: DetailKind, details: Seq<char>) -> Seq<char> {
    match kind {
        DetailKind::Failure => details,
        DetailKind::Passing => truncated(details),
    }
}

/// What stays inline of details that are uploaded: all of a failure's, a bounded
/// head of a passing test's.
pub fn inline_body(kind: DetailKind, details: &str) -> (r: String)
    ensures
        r@ == spec_inline_body(kind, details@),
{
    match kind {
        DetailKind::Failure => details.to_owned(),
        DetailKind::Passing => truncate(details),
    }
}

/// How long uploaded details are kept, in seconds.
pub const UPLOAD_TTL_SECONDS: i64 = 604_800;

/// What uploaded details are filed under.
pub const UPLOAD_USE_CASE: &'static str = "rust-test";

/// What became of an upload. Errors come as their text.
#[derive(Debug, Clone, PartialEq, Eq)]
pub enum UploadOutcome {
    /// The details could not be written to a file.
    NotWritten(String),
    Uploaded { hash: String, size_bytes: i64 },
    Failed(String),
}

/// The name of the file that details are uploaded from. A suffix that comes from
/// the contents keeps files apart.
pub fn upload_file_name(process_id: u32, details: &str) -> (r: String)
    ensures
        r@ == "brtr-log-"@ + text::decimal(process_id as nat) + "-"@ + text::decimal(
            execution::fnv(FNV_SEED, encode_utf8(details@)) as nat,
        ) + ".txt"@,
{
    let mut out: String = "brtr-log-".to_owned();
    out.push_str(decimal_text(process_id as u64).as_str());
    out.push_str("-");
    out.push_str(decimal_text(fnv1a(FNV_SEED, details.as_bytes())).as_str());
    out.push_str(".txt");
    out
}

/// The note on a successful upload.
pub open spec fn upload_note(size: nat, hash: Seq<char>, size_bytes: int) -> Seq<char> {
    "[log "@ + text::decimal(size) + " bytes uploaded to CAS: "@ + hash + "/"@ + text::signed_decimal(
        size_bytes,
    ) + "]"@
}

/// The note on a successful upload.
pub fn upload_message(details: &str, hash: &str, size_bytes: i64) -> (r: String)
    ensures
        r@ == upload_note(encode_utf8(details@).len(), hash@, size_bytes as int),
{
    let mut out: String = "[log ".to_owned();
    out.push_str(decimal_text(details.as_bytes().len() as u64).as_str());
    out.push_str(" bytes uploaded to CAS: ");
    out.push_str(hash);
    out.push_str("/");
    out.push_str(signed_text(size_bytes).as_str());
    out.push_str("]");
    out
}

/// The first line of details that were uploaded.
pub open spec fn upload_line(size: nat, outcome: UploadOutcome) -> Seq<char> {
    match outcome {
        UploadOutcome::NotWritten(error) => "[log "@ + text::decimal(size)
            + " bytes; CAS upload skipped: "@ + error@ + "]"@,
        UploadOutcome::Uploaded { hash, size_bytes } => upload_note(size, hash@, size_bytes as int),
        UploadOutcome::Failed(error) => "[log "@ + text::decimal(size)
            + " bytes; CAS upload failed: "@ + error@ + "]"@,
    }
}

/// The details of a test after their upload.
pub open spec fn after_upload(
    kind: DetailKind,
    details: Seq<char>,
    outcome: UploadOutcome,
) -> Seq<char> {
    upload_line(encode_utf8(details).len(), outcome) + "\n"@ + spec_inline_body(kind, details)
}

/// The details of a test after an attempt to upload them: a line on the upload,
/// then what stays inline.
pub fn details_after_upload(kind: DetailKind, details: &str, outcome: &UploadOutcome) -> (r: String)
    ensures
        r@ == after_upload(kind, details@, *outcome),
{
    let size: String = decimal_text(details.as_bytes().len() as u64);
    let mut out: String = match outcome {
        UploadOutcome::NotWritten(error) => {
            let mut line: String = "[log ".to_owned();
            line.push_str(size.as_str());
            line.push_str(" bytes; CAS upload skipped: ");
            line.push_str(error.as_str());
            line.push_str("]");
            line
        },
        UploadOutcome::Uploaded { hash, size_bytes } => upload_message(
            details,
            hash.as_str(),
            *size_bytes,
        ),
        UploadOutcome::Failed(error) => {
            let mut line: String = "[log ".to_owned();
            line.push_str(size.as_str());
            line.push_str(" bytes; CAS upload failed: ");
            line.push_str(error.as_str());
            line.push_str("]");
            line
        },
    };
    out.push_str("\n");
    out.push_str(inline_body(kind, details).as_str());
    out
}

/// Whether details have to be uploaded before they are reported.
pub fn needs_upload(details: &str, config: &RunnerConfig) -> (r: bool)
    ensures
        r == (encode_utf8(details@).len() > config.cas_inline_limit),
{
    match route_log(details.as_bytes().len(), config.cas_inline_limit) {
        LogRouting::Inline => false,
        LogRouting::UploadToCas => true,
    }
}

/// Whether a text is reported of details: the details themselves where they fit,
/// and what an upload leaves of them where they do not.
pub open spec fn is_routed(
    config: RunnerConfig,
    kind: DetailKind,
    details: Seq<char>,
    upload: UploadOutcome,
    routed: Seq<char>,
) -> bool {
    routed == if encode_utf8(details).len() <= config.cas_inline_limit {
        details
    } else {
        after_upload(kind, details, upload)
    }
}

/// A failure is reported in full: whatever becomes of the upload, all of its
/// details stand at the end of what is reported of them.
pub proof fn law_failures_are_shown_in_full(
    config: RunnerConfig,
    status: TestVerdict,
    details: Seq<char>,
    upload: UploadOutcome,
    routed: Seq<char>,
)
    requires
        status.spec_is_failure(),
        is_routed(config, DetailKind::spec_of(status), details, upload, routed),
    ensures
        details.is_suffix_of(routed),
{
    assert(details =~= routed.subrange(routed.len() - details.len(), routed.len() as int));
}

/// What stays inline of a passing test is bounded.
pub proof fn law_previews_are_bounded(details: Seq<char>)
    ensures
        encode_utf8(details.take(head_len(details, details.len()) as int)).len() <= HEAD,
{
    lemma_head_fits(details, details.len());
}

proof fn lemma_head_fits(details: Seq<char>, k: nat)
    requires
        k <= details.len(),
    ensures
        encode_utf8(details.take(head_len(details, k) as int)).len() <= HEAD,
    decreases k,
{
    if k > 0 && encode_utf8(details.take(k as int)).len() > HEAD {
        lemma_head_fits(details, (k - 1) as nat);
    }
}

// ---------------------------------------------------------------------------
// The attempts of a test.

/// The name of a verdict.
pub open spec fn verdict_name(status: TestVerdict) -> Seq<char> {
    match status {
        TestVerdict::Pass => "Pass"@,
        TestVerdict::Fail => "Fail"@,
        TestVerdict::Skip => "Skip"@,
        TestVerdict::Omitted => "Omitted"@,
        TestVerdict::Fatal => "Fatal"@,
        TestVerdict::Timeout => "Timeout"@,
        TestVerdict::InfraFailure => "InfraFailure"@,
    }
}

fn verdict_text(status: TestVerdict) -> (r: &'static str)
    ensures
        r@ == verdict_name(status),
{
    match status {
        TestVerdict::Pass => "Pass",
        TestVerdict::Fail => "Fail",
        TestVerdict::Skip => "Skip",
        TestVerdict::Omitted => "Omitted",
        TestVerdict::Fatal => "Fatal",
        TestVerdict::Timeout => "Timeout",
        TestVerdict::InfraFailure => "InfraFailure",
    }
}

/// The first line of a text.
pub open spec fn first_line(s: Seq<char>) -> Seq<char> {
    if text::lines(s).len() > 0 {
        text::lines(s)[0]
    } else {
        Seq::empty()
    }
}

/// How many characters of an attempt's first line are shown.
pub const ATTEMPT_LINE: usize = 500;

/// The first line of an attempt, cut to what is shown.
pub open spec fn shown_line(details: Seq<char>) -> Seq<char> {
    let line = first_line(details);
    if line.len() <= ATTEMPT_LINE {
        line
    } else {
        line.take(ATTEMPT_LINE as int)
    }
}

/// How long an attempt took, as text.
pub open spec fn time_note(duration: AttemptDuration) -> Seq<char> {
    match duration {
        AttemptDuration::Measured(duration) => " duration_ms="@ + text::decimal(
            duration.total_millis(),
        ),
        AttemptDuration::Unmeasured => " duration=unmeasured"@,
    }
}

/// The line on an attempt.
pub open spec fn attempt_line(index: nat, attempt: AttemptView) -> Seq<char> {
    "\nattempt "@ + text::decimal(index + 1) + ": "@ + verdict_name(attempt.status) + time_note(
        attempt.duration,
    ) + (if first_line(attempt.details).len() == 0 {
        Seq::empty()
    } else {
        " details="@ + shown_line(attempt.details)
    })
}

/// The lines on the first `n` attempts.
pub open spec fn attempt_lines(attempts: Seq<AttemptView>, n: nat) -> Seq<char>
    decreases n,
{
    if n == 0 {
        Seq::empty()
    } else {
        attempt_lines(attempts, (n - 1) as nat) + attempt_line((n - 1) as nat, attempts[n - 1])
    }
}

/// Details with the list of attempts; a single attempt needs no list.
pub open spec fn with_attempts(details: Seq<char>, attempts: Seq<AttemptView>) -> Seq<char> {
    if attempts.len() < 2 {
        details
    } else {
        (if details.len() == 0 {
            details
        } else {
            details + "\n"@
        }) + "quokka attempt history:"@ + attempt_lines(attempts, attempts.len())
    }
}

fn shown_text(details: &str) -> (r: String)
    ensures
        r@ == shown_line(details@),
{
    let lines: Vec<Vec<char>> = lines_of(chars_of(details).as_slice());
    proof {
        assert(text::texts(lines@).len() == lines@.len());
        if lines@.len() > 0 {
            assert(text::texts(lines@)[0] == lines@[0]@);
        }
    }
    if lines.len() == 0 {
        return String::new();
    }
    if lines[0].len() <= ATTEMPT_LINE {
        string_of(lines[0].as_slice())
    } else {
        let cut: Vec<char> = slice_of(lines[0].as_slice(), 0, ATTEMPT_LINE);
        proof {
            assert(cut@ =~= first_line(details@).take(ATTEMPT_LINE as int));
        }
        string_of(cut.as_slice())
    }
}

fn attempt_text(index: usize, attempt: &AttemptObservation) -> (r: String)
    ensures
        r@ == attempt_line(index as nat, attempt@),
{
    let mut out: String = "\nattempt ".to_owned();
    out.push_str(wide_decimal_text(index as u128 + 1).as_str());
    out.push_str(": ");
    out.push_str(verdict_text(attempt.status));
    match attempt.duration {
        AttemptDuration::Measured(duration) => {
            let mut note: String = " duration_ms=".to_owned();
            note.push_str(wide_decimal_text(duration.as_millis()).as_str());
            out.push_str(note.as_str());
        },
        AttemptDuration::Unmeasured => {
            out.push_str(" duration=unmeasured");
        },
    }
    let shown: String = shown_text(attempt.details.as_str());
    let mut tail: String = String::new();
    if !shown.as_str().is_empty() {
        tail = " details=".to_owned();
        tail.push_str(shown.as_str());
    }
    out.push_str(tail.as_str());
    out
}

/// Appends the list of attempts to details.
pub fn append_attempt_history(details: &mut String, attempts: &[AttemptObservation])
    ensures
        final(details)@ == with_attempts(
            old(details)@,
            observe::attempt_views(attempts@),
        ),
{
    let ghost before = details@;
    let ghost all = observe::attempt_views(attempts@);
    if attempts.len() < 2 {
        return;
    }
    if !details.as_str().is_empty() {
        details.push_str("\n");
    }
    details.push_str("quokka attempt history:");
    let ghost head = details@;
    let mut lines: String = String::new();
    let mut i: usize = 0;
    while i < attempts.len()
        invariant
            i <= attempts.len(),
            all == observe::attempt_views(attempts@),
            lines@ == attempt_lines(all, i as nat),
        decreases attempts.len() - i,
    {
        lines.push_str(attempt_text(i, &attempts[i]).as_str());
        i += 1;
    }
    details.push_str(lines.as_str());
}

// ---------------------------------------------------------------------------
// Who looks after a failing test.

/// The name of a failure class.
pub open spec fn class_name(class: FailureClass) -> Seq<char> {
    match class {
        FailureClass::Fail => "Fail"@,
        FailureClass::Fatal => "Fatal"@,
        FailureClass::Timeout => "Timeout"@,
        FailureClass::Infra => "Infra"@,
    }
}

fn class_text(class: FailureClass) -> (r: &'static str)
    ensures
        r@ == class_name(class),
{
    match class {
        FailureClass::Fail => "Fail",
        FailureClass::Fatal => "Fatal",
        FailureClass::Timeout => "Timeout",
        FailureClass::Infra => "Infra",
    }
}

/// The note on how often a test failed before.
pub open spec fn flake_note(flake: Option<FlakeRecord>) -> Seq<char> {
    match flake {
        Some(flake) => if flake.runs > 0 {
            " | flaky_history: failed "@ + text::decimal(flake.failures as nat) + "/"@
                + text::decimal(flake.runs as nat) + " recent runs"@ + (
            match flake.last_failure_class {
                Some(class) => ", last="@ + class_name(class),
                None => Seq::empty(),
            })
        } else {
            Seq::empty()
        },
        None => Seq::empty(),
    }
}

/// A note of its own, behind a separator; nothing where there is nothing to note.
pub open spec fn note(label: Seq<char>, value: Option<Seq<char>>) -> Seq<char> {
    match value {
        Some(value) => label + value,
        None => Seq::empty(),
    }
}

/// The contacts of a target.
pub open spec fn contact_list(contacts: Seq<String>) -> Option<Seq<char>> {
    if contacts.len() == 0 {
        None
    } else {
        Some(text::joined(text::views(contacts), ","@) + "]"@)
    }
}

/// The note on a failing test: its target, what it was built for, who looks after
/// it, and how often it failed before.
pub open spec fn annotation(
    spec: TargetSpec,
    owner: Owner,
    flake: Option<FlakeRecord>,
) -> Seq<char> {
    "[brtr: target="@ + spec.display@ + note(
        " | target_platform="@,
        match spec.target_platform {
            Some(platform) => Some(platform@),
            None => None,
        },
    ) + note(
        " | owner="@,
        match owner {
            Owner::Team(team) => Some(team@),
            Owner::Unowned => None,
        },
    ) + note(" | contacts=["@, contact_list(spec.contacts@)) + note(
        " | oncall="@,
        match spec.oncall {
            Some(oncall) => Some(oncall@),
            None => None,
        },
    ) + flake_note(flake) + "]"@
}

fn noted(label: &str, value: &str) -> (r: String)
    ensures
        r@ == label@ + value@,
{
    let mut out: String = label.to_owned();
    out.push_str(value);
    out
}

fn flake_text(flake: Option<FlakeRecord>) -> (r: String)
    ensures
        r@ == flake_note(flake),
{
    if let Some(flake) = flake {
        if flake.runs > 0 {
            let mut out: String = " | flaky_history: failed ".to_owned();
            out.push_str(decimal_text(flake.failures).as_str());
            out.push_str("/");
            out.push_str(decimal_text(flake.runs).as_str());
            out.push_str(" recent runs");
            let tail: String = match flake.last_failure_class {
                Some(class) => noted(", last=", class_text(class)),
                None => String::new(),
            };
            out.push_str(tail.as_str());
            return out;
        }
    }
    String::new()
}

/// The note on a failing test.
pub fn failure_annotation(plan: &TargetPlan, flake: Option<FlakeRecord>) -> (r: String)
    ensures
        r@ == annotation(plan.spec, plan.owner, flake),
{
    let mut out: String = "[brtr: target=".to_owned();
    out.push_str(plan.spec.display.as_str());
    let platform: String = match &plan.spec.target_platform {
        Some(platform) => noted(" | target_platform=", platform.as_str()),
        None => String::new(),
    };
    out.push_str(platform.as_str());
    let owner: String = match &plan.owner {
        Owner::Team(team) => noted(" | owner=", team.as_str()),
        Owner::Unowned => String::new(),
    };
    out.push_str(owner.as_str());
    let contacts: String = if plan.spec.contacts.len() == 0 {
        String::new()
    } else {
        let mut list: String = join_texts(
            plan.spec.contacts.as_slice(),
            plan.spec.contacts.len(),
            ",",
        );
        proof {
            assert(text::views(plan.spec.contacts@).take(plan.spec.contacts@.len() as int)
                =~= text::views(plan.spec.contacts@));
        }
        list.push_str("]");
        noted(" | contacts=[", list.as_str())
    };
    out.push_str(contacts.as_str());
    let oncall: String = match &plan.spec.oncall {
        Some(oncall) => noted(" | oncall=", oncall.as_str()),
        None => String::new(),
    };
    out.push_str(oncall.as_str());
    out.push_str(flake_text(flake).as_str());
    out.push_str("]");
    out
}

// ---------------------------------------------------------------------------
// The finished test.

/// One finished test, ready to be reported.
#[derive(Debug)]
pub struct FinishedTest {
    pub result: TestResult,
    pub console_name: String,
    /// What identifies this run, including its repetition.
    pub run_id: RunIdentity,
    /// What identifies the test in the history.
    pub test_id: TestIdentity,
    pub status: TestVerdict,
    pub integrity: ResultIntegrity,
    pub quarantined: bool,
    pub labels: Vec<String>,
    /// Every fresh attempt of the test that the harness reported, each an
    /// observation of its own, so that a flaky test that recovers still shows its
    /// failures in the history.
    pub db_observations: Vec<DbObservation>,
    pub attempt_history: Vec<AttemptObservation>,
}

/// The name of a run on the console.
pub open spec fn console_name(run_id: RunIdentity) -> Seq<char> {
    run_id.test.target@ + "::"@ + run_id.spec_buck2_name()
}

/// The name of a run on the console.
pub fn console_test_name(run_id: &RunIdentity) -> (r: String)
    ensures
        r@ == console_name(*run_id),
{
    let mut out: String = run_id.test.target.clone();
    out.push_str("::");
    out.push_str(run_id.to_buck2_name().as_str());
    out
}

/// The measured time of a test.
pub open spec fn measured(duration: AttemptDuration) -> Option<Duration> {
    match duration {
        AttemptDuration::Measured(duration) => Some(duration),
        AttemptDuration::Unmeasured => None,
    }
}

/// Whether a result says what is known of a run.
pub open spec fn is_result(
    run_id: RunIdentity,
    handle: i64,
    status: TestVerdict,
    duration: Option<Duration>,
    details: Seq<char>,
    max_memory: Option<u64>,
    r: TestResult,
) -> bool {
    &&& r.name@ == run_id.spec_buck2_name()
    &&& r.status == status.spec_wire()
    &&& r.msg is None
    &&& r.target matches Some(target) && target.id == handle
    &&& r.duration == match duration {
        Some(duration) => Some(result::wire_of(duration)),
        None => None,
    }
    &&& r.details@ == details
    &&& r.max_memory_used_bytes == max_memory
}

/// The details that are reported of a test: what is reported of its own, the list
/// of its attempts, and the note where it failed.
pub open spec fn reported_details(
    plan: TargetPlan,
    flake: Option<FlakeRecord>,
    status: TestVerdict,
    routed: Seq<char>,
    attempts: Seq<AttemptView>,
) -> Seq<char> {
    if status.spec_is_failure() {
        with_attempts(routed, attempts) + "\n"@ + annotation(plan.spec, plan.owner, flake)
    } else {
        with_attempts(routed, attempts)
    }
}

/// What is reported of the details of a test stands at the start of its report.
pub proof fn law_reports_start_with_the_details(
    plan: TargetPlan,
    flake: Option<FlakeRecord>,
    status: TestVerdict,
    routed: Seq<char>,
    attempts: Seq<AttemptView>,
)
    ensures
        routed.is_prefix_of(reported_details(plan, flake, status, routed, attempts)),
{
    let all = reported_details(plan, flake, status, routed, attempts);
    assert(routed =~= all.subrange(0, routed.len() as int));
}

/// Whether a finished test reports a part of an action.
pub open spec fn is_finished(
    plan: TargetPlan,
    config: RunnerConfig,
    flake: Option<FlakeRecord>,
    part: FinishedPart,
    repeat_index: u32,
    routed: Seq<char>,
    f: FinishedTest,
) -> bool {
    &&& f.test_id == (TestIdentity {
        target: plan.spec.display,
        name: part.name,
        variant: config.variant,
    })
    &&& f.run_id == (RunIdentity { test: f.test_id, repeat: plan.repeat, repeat_index })
    &&& f.console_name@ == console_name(f.run_id)
    &&& is_result(
        f.run_id,
        plan.spec.handle.0,
        part.outcome.status,
        measured(part.outcome.duration),
        reported_details(
            plan,
            flake,
            part.outcome.status,
            routed,
            observe::attempt_views(part.history@),
        ),
        part.outcome.max_memory,
        f.result,
    )
    &&& f.status == part.outcome.status
    &&& f.integrity == part.outcome.integrity
    &&& f.quarantined == (plan.quarantine is Quarantined)
    &&& f.labels@ == plan.spec.labels@
    &&& f.db_observations == part.observations
    &&& f.attempt_history == part.history
}

/// The report of a test with the record of its failures. `routed` is what is
/// reported of the details of its outcome.
pub fn finished_with_record(
    plan: &TargetPlan,
    config: &RunnerConfig,
    flake: Option<FlakeRecord>,
    part: FinishedPart,
    repeat_index: u32,
    routed: String,
) -> (r: FinishedTest)
    ensures
        is_finished(*plan, *config, flake, part, repeat_index, routed@, r),
{
    let test_id: TestIdentity = identity_of(&plan.spec.display, &part.name, &config.variant);
    let run_id = RunIdentity { test: test_id.duplicate(), repeat: plan.repeat, repeat_index };
    let mut details: String = routed;
    append_attempt_history(&mut details, part.history.as_slice());
    if part.outcome.status.is_failure() {
        details.push_str("\n");
        details.push_str(failure_annotation(plan, flake).as_str());
    }
    let duration: Option<Duration> = match part.outcome.duration {
        AttemptDuration::Measured(duration) => Some(duration),
        AttemptDuration::Unmeasured => None,
    };
    let result: TestResult = build_test_result(
        &run_id,
        plan.spec.handle_proto(),
        part.outcome.status,
        duration,
        details,
        part.outcome.max_memory,
    );
    let console_name: String = console_test_name(&run_id);
    FinishedTest {
        result,
        console_name,
        run_id,
        test_id,
        status: part.outcome.status,
        integrity: part.outcome.integrity,
        quarantined: plan.quarantined(),
        labels: copy_strings(plan.spec.labels.as_slice()),
        db_observations: part.observations,
        attempt_history: part.history,
    }
}

/// The report of a test, with what the history says of its failures: of the key of
/// the identity that the report has too, made by [`identity_of`]. Nothing is said of
/// the key's value.
pub fn make_finished(
    plan: &TargetPlan,
    config: &RunnerConfig,
    estimates: &DurationDb,
    part: FinishedPart,
    repeat_index: u32,
    routed: String,
) -> (r: FinishedTest)
    ensures
        exists|key: u64|
            duration_db::is_key(
                estimates.spec_project(),
                plan.spec.display@,
                part.name@,
                config.variant,
                key,
            ) && is_finished(
                *plan,
                *config,
                #[trigger] estimates@.flakes(None, key),
                part,
                repeat_index,
                routed@,
                r,
            ),
{
    let test_id: TestIdentity = identity_of(&plan.spec.display, &part.name, &config.variant);
    let flake: Option<FlakeRecord> = estimates.flake(None, &test_id);
    finished_with_record(plan, config, flake, part, repeat_index, routed)
}

// ---------------------------------------------------------------------------
// Targets that fail as a whole.

/// The name under which the failure of a whole target is announced.
pub fn target_failure_name(spec: &TargetSpec) -> (r: String)
    ensures
        r@ == spec.suite@ + " (listing)"@,
{
    let mut out: String = spec.suite.clone();
    out.push_str(" (listing)");
    out
}

/// Whether a finished test reports the failure of a whole target: it is named like
/// the target, and no result was seen.
pub open spec fn is_target_failure(
    spec: TargetSpec,
    config: RunnerConfig,
    quarantined: bool,
    repeat: RepeatKind,
    status: TestVerdict,
    routed: Seq<char>,
    f: FinishedTest,
) -> bool {
    &&& f.test_id == (TestIdentity {
        target: spec.display,
        name: spec.display,
        variant: config.variant,
    })
    &&& f.run_id == (RunIdentity { test: f.test_id, repeat, repeat_index: 0 })
    &&& f.console_name@ == console_name(f.run_id)
    &&& is_result(f.run_id, spec.handle.0, status, None, routed, None, f.result)
    &&& f.status == status
    &&& f.integrity == ResultIntegrity::MissingTerminalResult
    &&& f.quarantined == quarantined
    &&& f.labels@ == spec.labels@
    &&& f.db_observations@.len() == 0
    &&& f.attempt_history@.len() == 0
}

/// The report of a target that fails as a whole. `routed` is what is reported of
/// the details of the failure.
pub fn target_failure(
    spec: &TargetSpec,
    config: &RunnerConfig,
    quarantined: bool,
    repeat: RepeatKind,
    status: TestVerdict,
    routed: String,
) -> (r: FinishedTest)
    ensures
        is_target_failure(*spec, *config, quarantined, repeat, status, routed@, r),
{
    let test_id = TestIdentity {
        target: spec.display.clone(),
        name: spec.display.clone(),
        variant: config.variant.duplicate(),
    };
    let run_id = RunIdentity { test: test_id.duplicate(), repeat, repeat_index: 0 };
    let result: TestResult = build_test_result(
        &run_id,
        spec.handle_proto(),
        status,
        None,
        routed,
        None,
    );
    let console_name: String = console_test_name(&run_id);
    FinishedTest {
        result,
        console_name,
        run_id,
        test_id,
        status,
        integrity: ResultIntegrity::MissingTerminalResult,
        quarantined,
        labels: copy_strings(spec.labels.as_slice()),
        db_observations: Vec::new(),
        attempt_history: Vec::new(),
    }
}

/// A target that fails as a whole fails the run, whatever its status is and
/// whether or not it is quarantined.
pub proof fn law_failed_targets_fail_the_run(
    spec: TargetSpec,
    config: RunnerConfig,
    quarantined: bool,
    repeat: RepeatKind,
    status: TestVerdict,
    routed: Seq<char>,
    f: FinishedTest,
)
    requires
        is_target_failure(spec, config, quarantined, repeat, status, routed, f),
    ensures
        observe::disposition(f.status, f.integrity, f.quarantined)
            == ReportDisposition::Failure,
{
}

} // verus!
