//! The user's configuration file.

use vstd::prelude::*;

verus! {

/// What the configuration file sets; an absent file sets nothing.
#[derive(Debug, Clone, Copy, PartialEq, Eq)]
pub struct QuokkaConfig {
    pub flaky_retry: Option<FlakyRetryConfig>,
}

/// Retries of tests with a flaky history.
#[derive(Debug, Clone, Copy, PartialEq, Eq)]
pub struct FlakyRetryConfig {
    pub attempts: u32,
}

impl Default for QuokkaConfig {
    fn default() -> (r: Self)
        ensures
            r.flaky_retry is None,
    {
        QuokkaConfig { flaky_retry: None }
    }
}

} // verus!
