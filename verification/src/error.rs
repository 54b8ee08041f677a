//! Why a solver could not complete a job.
//!
//! A solver reports a device condition, and the session layer maps it to the
//! reason that the coordinator receives.
use crate::message::RejectReason;
use vstd::prelude::*;
use vstd::string::*;

verus! {

/// A device condition that stopped a job.
#[derive(Clone, Debug, PartialEq, Eq)]
pub enum SampleError {
    /// The job exceeds a device bound. An identical job fails again.
    Capacity,
    /// The device is busy right now. An identical job may succeed later.
    DeviceBusy,
    /// The device is in a bad state and will not recover without a restart.
    /// Carries an operator-facing detail.
    DeviceFault(String),
}

impl SampleError {
    /// The reason that the coordinator receives for this job.
    pub open spec fn reason(self) -> RejectReason {
        match self {
            SampleError::Capacity => RejectReason::TooLarge,
            _ => RejectReason::Overloaded,
        }
    }

    /// What an operator reads.
    pub open spec fn text(self) -> Seq<char> {
        match self {
            SampleError::Capacity => "capacity"@,
            SampleError::DeviceBusy => "device busy"@,
            SampleError::DeviceFault(detail) => "device fault: "@ + detail@,
        }
    }

    /// Map to the wire reason the coordinator receives for this job.
    #[must_use]
    pub fn to_reject_reason(&self) -> (reason: RejectReason)
        ensures
            reason == self.reason(),
    {
        match self {
            SampleError::Capacity => RejectReason::TooLarge,
            SampleError::DeviceBusy | SampleError::DeviceFault(_) => RejectReason::Overloaded,
        }
    }

    /// True when the session must end rather than request more work.
    #[must_use]
    pub fn is_fatal(&self) -> (fatal: bool)
        ensures
            fatal == (self is DeviceFault),
    {
        match self {
            SampleError::DeviceFault(_) => true,
            _ => false,
        }
    }

    /// What an operator reads.
    #[must_use]
    pub fn to_string(&self) -> (text: String)
        ensures
            text@ == self.text(),
    {
        match self {
            SampleError::Capacity => "capacity".to_owned(),
            SampleError::DeviceBusy => "device busy".to_owned(),
            SampleError::DeviceFault(detail) => {
                let mut text: String = "device fault: ".to_owned();
                text.append(detail.as_str());
                text
            },
        }
    }
}

} // verus!
