//! What the build tool delivers into the scheduler's intake.

use vstd::prelude::*;

use crate::proto::ExternalRunnerSpec;

verus! {

/// One item delivered from the build tool into the scheduler.
///
/// Modelled as an enum (rather than closing the channel) so end-of-requests is
/// an explicit, observable event in the scheduler's intake loop.
pub enum SpecEnvelope {
    /// A target's external runner spec to list and run.
    Spec(Box<ExternalRunnerSpec>),
    /// Every target has been sent; no more specs will arrive.
    EndOfRequests,
}

/// Why a delivery was refused.
#[derive(Debug, Clone, Copy, PartialEq, Eq, Structural)]
pub enum DeliveryError {
    /// The request held no spec.
    MissingSpec,
    /// The scheduler takes no more specs.
    IntakeClosed,
}

impl DeliveryError {
    /// The message of the error.
    pub fn message(&self) -> (r: String)
        ensures
            r@ == (match *self {
                DeliveryError::MissingSpec => "ExternalRunnerSpecRequest missing test_spec"@,
                DeliveryError::IntakeClosed => "test runner scheduler is no longer accepting specs"@,
            }),
    {
        match self {
            DeliveryError::MissingSpec => "ExternalRunnerSpecRequest missing test_spec".to_owned(),
            DeliveryError::IntakeClosed => {
                "test runner scheduler is no longer accepting specs".to_owned()
            },
        }
    }
}

/// The envelope of a spec request; a request without a spec is refused.
pub fn envelope_of(spec: Option<ExternalRunnerSpec>) -> (r: Result<SpecEnvelope, DeliveryError>)
    ensures
        r matches Err(e) ==> e is MissingSpec && spec is None,
        r matches Ok(e) ==> e matches SpecEnvelope::Spec(s) && spec == Some(*s),
{
    match spec {
        Some(s) => Ok(SpecEnvelope::Spec(Box::new(s))),
        None => Err(DeliveryError::MissingSpec),
    }
}

} // verus!
