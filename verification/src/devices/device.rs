//! What a device can answer a call with in place of a value.

use vstd::prelude::*;
use crate::devices::controller::ControllerError;
use crate::devices::transport::ConnectError;
use crate::time::Duration;

verus! {

/// Where the veto on a field comes from.
#[derive(Debug, Clone, Copy, PartialEq, Eq, Structural)]
pub enum VetoSource {
    /// The device's own configuration.
    Declared,
    /// The device's repeated refusals.
    Inferred,
}

/// Why a call on a device gave no value.
#[allow(inconsistent_fields)]
#[derive(Debug, PartialEq, Eq)]
pub enum DeviceError {
    /// The channel could not be opened.
    Connect(ConnectError),
    /// The exchange failed.
    Command(ControllerError),
    /// No dial was made: one has failed only just now.
    Cold { retry_in: Duration },
    /// No exchange was made: the field is vetoed on this device.
    Disabled { field: String, source: VetoSource, retry_in: Option<Duration> },
}

impl DeviceError {
    /// The device answered, and the answer was no.
    pub open spec fn refuses(self) -> bool {
        self matches DeviceError::Command(e) && e is Rejected
    }

    pub fn is_refusal(&self) -> (r: bool)
        ensures
            r == self.refuses(),
    {
        match self {
            DeviceError::Command(ControllerError::Rejected { .. }) => true,
            _ => false,
        }
    }
}

} // verus!
