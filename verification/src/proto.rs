//! Plain values for the messages exchanged with the build tool.
//!
//! These mirror the fields of the test-runner protocol that the library reads or
//! fills. The program around the library converts them to and from wire messages.

use vstd::prelude::*;

verus! {

/// The opaque id of a configured target.
#[derive(Debug, Clone, Copy, PartialEq, Eq)]
pub struct ConfiguredTargetHandle {
    pub id: i64,
}

/// A configured target as announced by the build tool.
#[derive(Debug, Clone, PartialEq, Eq)]
pub struct ConfiguredTarget {
    pub handle: Option<ConfiguredTargetHandle>,
    pub cell: String,
    pub package: String,
    pub target: String,
    pub configuration: String,
    pub package_project_relative_path: String,
    pub test_config_unification_rollout: bool,
    pub package_oncall: Option<String>,
}

/// One command or environment value of a runner spec.
#[derive(Debug, Clone, PartialEq, Eq)]
pub enum SpecValue {
    Verbatim(String),
    ArgHandle(i64),
    EnvHandle(String),
}

/// A spec value as it travels: the payload may be absent.
#[derive(Debug, Clone, PartialEq, Eq)]
pub struct ExternalRunnerSpecValue {
    pub value: Option<SpecValue>,
}

/// Everything the build tool says about one test target.
#[derive(Debug, Clone, PartialEq, Eq)]
pub struct ExternalRunnerSpec {
    pub target: Option<ConfiguredTarget>,
    pub test_type: String,
    pub command: Vec<ExternalRunnerSpecValue>,
    /// Keys are distinct; their order carries no meaning.
    pub env: Vec<(String, ExternalRunnerSpecValue)>,
    pub labels: Vec<String>,
    pub contacts: Vec<String>,
    pub oncall: Option<String>,
    pub working_dir_cell: String,
}

impl Default for ExternalRunnerSpec {
    fn default() -> (r: Self)
        ensures
            r.target is None,
            r.test_type@.len() == 0,
            r.command@.len() == 0,
            r.env@.len() == 0,
            r.labels@.len() == 0,
            r.contacts@.len() == 0,
            r.oncall is None,
            r.working_dir_cell@.len() == 0,
    {
        ExternalRunnerSpec {
            target: None,
            test_type: String::new(),
            command: Vec::new(),
            env: Vec::new(),
            labels: Vec::new(),
            contacts: Vec::new(),
            oncall: None,
            working_dir_cell: String::new(),
        }
    }
}

/// The name of an output that an action declares.
#[derive(Debug, Clone, PartialEq, Eq)]
pub struct OutputName {
    pub name: String,
}

/// What an argument of an action stands for.
#[derive(Debug, Clone, PartialEq, Eq)]
pub enum ArgContent {
    SpecValue(ExternalRunnerSpecValue),
    DeclaredOutput(OutputName),
}

/// The content of an argument; the payload may be absent.
#[derive(Debug, Clone, PartialEq, Eq)]
pub struct ArgValueContent {
    pub value: Option<ArgContent>,
}

/// One argument of an action.
#[derive(Debug, Clone, PartialEq, Eq)]
pub struct ArgValue {
    pub content: Option<ArgValueContent>,
    pub format: Option<String>,
}

/// One environment variable of an action.
#[derive(Debug, Clone, PartialEq, Eq)]
pub struct EnvironmentVariable {
    pub key: String,
    pub value: Option<ArgValue>,
}

/// The listing stage of a suite.
#[derive(Debug, Clone, PartialEq, Eq)]
pub struct Listing {
    pub suite: String,
    pub cacheable: bool,
}

/// The testing stage of a suite.
#[derive(Debug, Clone, PartialEq, Eq)]
pub struct Testing {
    pub suite: String,
    pub testcases: Vec<String>,
    pub variant: Option<String>,
    pub repeat_count: Option<u64>,
}

/// The stage an action belongs to.
#[derive(Debug, Clone, PartialEq, Eq)]
pub enum StageItem {
    Listing(Listing),
    Testing(Testing),
}

/// A stage; the payload may be absent.
#[derive(Debug, Clone, PartialEq, Eq)]
pub struct TestStage {
    pub item: Option<StageItem>,
}

/// What an action runs.
#[derive(Debug, Clone, PartialEq, Eq)]
pub struct TestExecutable {
    pub stage: Option<TestStage>,
    pub target: Option<ConfiguredTargetHandle>,
    pub cmd: Vec<ArgValue>,
    pub pre_create_dirs: Vec<OutputName>,
    pub env: Vec<EnvironmentVariable>,
}

/// A span of time as it travels: seconds and nanoseconds, either may be negative.
#[derive(Debug, Clone, Copy, PartialEq, Eq)]
pub struct WireDuration {
    pub seconds: i64,
    pub nanos: i32,
}

/// How an action shares its host.
#[derive(Debug, Clone, Copy, PartialEq, Eq)]
pub enum HostSharing {
    /// The action shares the host and takes this many permits.
    Shared { permits: i32 },
    /// The action needs the host for itself.
    ExclusiveAccess,
}

/// Host-sharing requirements; the payload may be absent.
#[derive(Debug, Clone, Copy, PartialEq, Eq)]
pub struct HostSharingRequirements {
    pub requirements: Option<HostSharing>,
}

/// The executor an action must run on.
#[derive(Debug, Clone, PartialEq, Eq)]
pub struct ExecutorConfigOverride {
    pub name: String,
}

/// A local resource an action needs.
#[derive(Debug, Clone, PartialEq, Eq)]
pub struct LocalResourceType {
    pub name: String,
}

/// A request to execute one action.
#[derive(Debug, Clone, PartialEq, Eq)]
pub struct ExecuteRequest2 {
    pub timeout: Option<WireDuration>,
    pub host_sharing_requirements: Option<HostSharingRequirements>,
    pub test_executable: Option<TestExecutable>,
    pub executor_override: Option<ExecutorConfigOverride>,
    pub required_local_resources: Vec<LocalResourceType>,
    pub disable_test_execution_caching: bool,
}

/// Why an action was cancelled.
#[derive(Debug, Clone, Copy, PartialEq, Eq)]
pub enum CancellationReason {
    NotSpecified,
    ReQueueTimeout,
}

/// A cancelled action. An unknown reason travels as an absent one.
#[derive(Debug, Clone, Copy, PartialEq, Eq)]
pub struct Cancelled {
    pub reason: Option<CancellationReason>,
}

/// How a process ended.
#[derive(Debug, Clone, Copy, PartialEq, Eq)]
pub enum WireStatus {
    Finished(i32),
    TimedOut(WireDuration),
}

/// The end of a process; the payload may be absent.
#[derive(Debug, Clone, Copy, PartialEq, Eq)]
pub struct ExecutionStatus {
    pub status: Option<WireStatus>,
}

/// Captured output.
#[derive(Debug, Clone, PartialEq, Eq)]
pub enum StreamItem {
    Inline(Vec<u8>),
}

/// Captured output; the payload may be absent.
#[derive(Debug, Clone, PartialEq, Eq)]
pub struct ExecutionStream {
    pub item: Option<StreamItem>,
}

/// Where and how a command ran.
#[derive(Debug, Clone, Copy, PartialEq, Eq)]
pub enum ActionCommand {
    LocalCommand,
    RemoteCommand { cache_hit: bool },
    OmittedLocalCommand,
    WorkerInitCommand,
    WorkerCommand,
}

/// The kind of an execution; the payload may be absent.
#[derive(Debug, Clone, Copy, PartialEq, Eq)]
pub struct CommandExecutionKind {
    pub command: Option<ActionCommand>,
}

/// Details of an execution; the kind may be absent.
#[derive(Debug, Clone, Copy, PartialEq, Eq)]
pub struct ExecutionDetails {
    pub execution_kind: Option<CommandExecutionKind>,
}

/// The result of an action that ran.
#[derive(Debug, Clone, PartialEq, Eq)]
pub struct ExecutionResult2 {
    pub status: Option<ExecutionStatus>,
    pub stdout: Option<ExecutionStream>,
    pub stderr: Option<ExecutionStream>,
    pub execution_time: Option<WireDuration>,
    pub execution_details: Option<ExecutionDetails>,
    pub max_memory_used_bytes: Option<u64>,
}

/// What came back for one action.
#[derive(Debug, Clone, PartialEq, Eq)]
pub enum ExecuteResponse {
    Result(ExecutionResult2),
    Cancelled(Cancelled),
}

/// The answer to an execute request; the payload may be absent.
#[derive(Debug, Clone, PartialEq, Eq)]
pub struct ExecuteResponse2 {
    pub response: Option<ExecuteResponse>,
}

/// The statuses a test result can travel with.
#[derive(Debug, Clone, Copy, PartialEq, Eq)]
pub enum TestStatus {
    NotSet,
    Pass,
    Fail,
    Skip,
    Omitted,
    Fatal,
    Timeout,
    Unknown,
    Rerun,
    ListingSuccess,
    ListingFailed,
    InfraFailure,
}

/// One reported test result.
#[derive(Debug, Clone, PartialEq, Eq)]
pub struct TestResult {
    pub name: String,
    pub status: TestStatus,
    pub msg: Option<String>,
    pub target: Option<ConfiguredTargetHandle>,
    pub duration: Option<WireDuration>,
    pub details: String,
    pub max_memory_used_bytes: Option<u64>,
}

} // verus!
