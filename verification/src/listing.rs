//! Framework-agnostic test discovery: test case data model and ignored-test policy.
//!
//! The ignored policy determines which discovered tests are retained for
//! execution. It has to agree with the execution filter, or a test would be
//! listed but not run.

use vstd::prelude::*;

verus! {

/// How ignored tests are handled.
#[derive(Debug, Clone, Copy, PartialEq, Eq, Structural)]
pub enum IgnoredPolicy {
    /// Default: do not run ignored tests.
    ExcludeIgnored,
    /// Run both normal and ignored tests.
    IncludeIgnored,
    /// Run only ignored tests.
    IgnoredOnly,
}

impl IgnoredPolicy {
    /// Whether the policy runs a test that is (not) ignored.
    pub open spec fn spec_selects(self, ignored: bool) -> bool {
        match self {
            IgnoredPolicy::ExcludeIgnored => !ignored,
            IgnoredPolicy::IncludeIgnored => true,
            IgnoredPolicy::IgnoredOnly => ignored,
        }
    }

    /// Whether the policy runs a test that is (not) ignored.
    pub fn selects(self, ignored: bool) -> (r: bool)
        ensures
            r == self.spec_selects(ignored),
    {
        match self {
            IgnoredPolicy::ExcludeIgnored => !ignored,
            IgnoredPolicy::IncludeIgnored => true,
            IgnoredPolicy::IgnoredOnly => ignored,
        }
    }
}

/// Every test is run by exactly one of "no ignored tests" and "only ignored
/// tests", and by "both" in any case.
pub proof fn law_policies_split_the_tests(ignored: bool)
    ensures
        IgnoredPolicy::ExcludeIgnored.spec_selects(ignored)
            != IgnoredPolicy::IgnoredOnly.spec_selects(ignored),
        IgnoredPolicy::IncludeIgnored.spec_selects(ignored),
{
}

/// What kind of test a harness reports.
#[derive(Debug, Clone, Copy, PartialEq, Eq, Structural)]
pub enum TestCaseKind {
    Test,
    Benchmark,
}

/// Where a test is defined.
#[derive(Debug, Clone, PartialEq, Eq)]
pub struct TestCaseLocation {
    pub source_path: String,
    pub start_line: u64,
    pub start_col: u64,
    pub end_line: u64,
    pub end_col: u64,
}

/// What a harness says of a test beside its name.
#[derive(Debug, Clone, PartialEq, Eq)]
pub struct TestCaseMetadata {
    pub ignore_message: Option<String>,
    pub location: Option<TestCaseLocation>,
}

/// A single discovered test.
#[derive(Debug, Clone, PartialEq, Eq)]
pub struct TestCase {
    pub name: String,
    pub kind: TestCaseKind,
    pub ignored: bool,
    pub metadata: TestCaseMetadata,
}

/// Where a test is defined, as a mathematical value.
pub struct LocationView {
    pub source_path: Seq<char>,
    pub start_line: u64,
    pub start_col: u64,
    pub end_line: u64,
    pub end_col: u64,
}

/// A discovered test as a mathematical value.
pub struct TestCaseView {
    pub name: Seq<char>,
    pub kind: TestCaseKind,
    pub ignored: bool,
    pub ignore_message: Option<Seq<char>>,
    pub location: Option<LocationView>,
}

impl View for TestCase {
    type V = TestCaseView;

    open spec fn view(&self) -> TestCaseView {
        TestCaseView {
            name: self.name@,
            kind: self.kind,
            ignored: self.ignored,
            ignore_message: match self.metadata.ignore_message {
                Some(message) => Some(message@),
                None => None,
            },
            location: match self.metadata.location {
                Some(l) => Some(
                    LocationView {
                        source_path: l.source_path@,
                        start_line: l.start_line,
                        start_col: l.start_col,
                        end_line: l.end_line,
                        end_col: l.end_col,
                    },
                ),
                None => None,
            },
        }
    }
}

/// The views of tests.
pub open spec fn case_views(v: Seq<TestCase>) -> Seq<TestCaseView> {
    Seq::new(v.len(), |i: int| v[i]@)
}

impl TestCase {
    /// A copy of the test.
    pub fn duplicate(&self) -> (r: TestCase)
        ensures
            r == *self,
    {
        TestCase {
            name: self.name.clone(),
            kind: self.kind,
            ignored: self.ignored,
            metadata: TestCaseMetadata {
                ignore_message: match &self.metadata.ignore_message {
                    Some(message) => Some(message.clone()),
                    None => None,
                },
                location: match &self.metadata.location {
                    Some(l) => Some(
                        TestCaseLocation {
                            source_path: l.source_path.clone(),
                            start_line: l.start_line,
                            start_col: l.start_col,
                            end_line: l.end_line,
                            end_col: l.end_col,
                        },
                    ),
                    None => None,
                },
            },
        }
    }

    /// A test without metadata.
    pub fn new(name: String, kind: TestCaseKind, ignored: bool) -> (r: TestCase)
        ensures
            r.name == name,
            r.kind == kind,
            r.ignored == ignored,
            r.metadata.ignore_message is None,
            r.metadata.location is None,
    {
        TestCase {
            name,
            kind,
            ignored,
            metadata: TestCaseMetadata { ignore_message: None, location: None },
        }
    }
}

/// Why a listing could not be read.
#[derive(Debug, Clone, Copy, PartialEq, Eq, Structural)]
pub enum ListingParseError {
    /// The listing output was not valid UTF-8.
    NotUtf8,
}

impl ListingParseError {
    /// The message of the error.
    pub fn message(&self) -> (r: String)
        ensures
            r@ == "listing output was not valid UTF-8"@,
    {
        "listing output was not valid UTF-8".to_owned()
    }
}

} // verus!
