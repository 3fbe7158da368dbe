//! The two distinct caching concepts, kept apart so one bit is not written by
//! several places with no precedence.
//!
//! - [`CacheClass`] is the target's base test-execution cacheability, derived
//!   from labels (hermetic vs non-hermetic).
//! - [`TestExecutionCaching`] is the per-action decision actually sent with an
//!   execute request.

use vstd::prelude::*;

use crate::text::{self, any_label};

verus! {

/// Base cacheability of a target.
#[derive(Debug, Clone, Copy, PartialEq, Eq, Structural)]
pub enum CacheClass {
    Cacheable,
    Disabled,
}

/// Whether one action may be served from the cache.
#[derive(Debug, Clone, Copy, PartialEq, Eq, Structural)]
pub enum TestExecutionCaching {
    Enabled,
    Disabled,
}

impl TestExecutionCaching {
    /// The caching of one action: enabled only for the first attempt of an
    /// ordinary run of the default variant of a cacheable target.
    pub open spec fn spec_resolve(
        base: CacheClass,
        is_default_variant: bool,
        is_stress: bool,
        attempt_index: u32,
    ) -> TestExecutionCaching {
        if base == CacheClass::Cacheable && is_default_variant && !is_stress && attempt_index == 0 {
            TestExecutionCaching::Enabled
        } else {
            TestExecutionCaching::Disabled
        }
    }

    pub fn disable_flag(self) -> (r: bool)
        ensures
            r == (self is Disabled),
    {
        matches!(self, TestExecutionCaching::Disabled)
    }

    /// Derives the final cache enablement per execution action.
    pub fn resolve(
        base: CacheClass,
        is_default_variant: bool,
        is_stress: bool,
        attempt_index: u32,
    ) -> (r: Self)
        ensures
            r == TestExecutionCaching::spec_resolve(
                base,
                is_default_variant,
                is_stress,
                attempt_index,
            ),
    {
        if base == CacheClass::Disabled || !is_default_variant || is_stress || attempt_index > 0 {
            TestExecutionCaching::Disabled
        } else {
            TestExecutionCaching::Enabled
        }
    }
}

/// A retry is never served from the cache, whatever else holds of the action.
pub proof fn law_retries_are_never_cached(
    base: CacheClass,
    is_default_variant: bool,
    is_stress: bool,
    attempt_index: u32,
)
    requires
        attempt_index > 0,
    ensures
        TestExecutionCaching::spec_resolve(base, is_default_variant, is_stress, attempt_index)
            == TestExecutionCaching::Disabled,
{
}

/// Whether labels name a target whose results depend on more than its inputs.
pub open spec fn non_hermetic(labels: Seq<String>) -> bool {
    text::says(labels, "cache_disabled"@) || text::says(labels, "uses_network"@) || text::says(
        labels,
        "uses_wall_clock"@,
    ) || text::says(labels, "uses_randomness_without_seed"@) || text::says(
        labels,
        "requires_external_service"@,
    ) || text::says(labels, "serial_global_state"@) || text::says(labels, "stress"@) || text::says(
        labels,
        "network-private"@,
    )
}

/// The base cacheability of a target with these labels.
pub fn cache_class(labels: &[String]) -> (r: CacheClass)
    ensures
        r == (if non_hermetic(labels@) {
            CacheClass::Disabled
        } else {
            CacheClass::Cacheable
        }),
{
    let disabled: bool = any_label(labels, "cache_disabled") || any_label(labels, "uses_network")
        || any_label(labels, "uses_wall_clock") || any_label(labels, "uses_randomness_without_seed")
        || any_label(labels, "requires_external_service") || any_label(
        labels,
        "serial_global_state",
    ) || any_label(labels, "stress") || any_label(labels, "network-private");
    if disabled {
        CacheClass::Disabled
    } else {
        CacheClass::Cacheable
    }
}

} // verus!
