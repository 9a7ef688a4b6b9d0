//! The recording state as the device itself reports it.

use vstd::prelude::*;

verus! {

/// Recording state reported by the device.
#[derive(Debug, Clone, Copy, PartialEq, Eq, Structural)]
pub enum RecordingState {
    Stopped,
    Started,
    Paused,
    Unknown,
}

impl RecordingState {
    pub open spec fn of_code(code: int) -> RecordingState {
        if code == 0 {
            RecordingState::Stopped
        } else if code == 1 {
            RecordingState::Started
        } else if code == 2 {
            RecordingState::Paused
        } else {
            RecordingState::Unknown
        }
    }

    pub open spec fn spelling(self) -> Seq<char> {
        match self {
            RecordingState::Stopped => "stopped"@,
            RecordingState::Started => "started"@,
            RecordingState::Paused => "paused"@,
            RecordingState::Unknown => "unknown"@,
        }
    }

    /// The state that a device's code stands for.
    pub fn from_code(code: i32) -> (r: Self)
        ensures
            r == RecordingState::of_code(code as int),
    {
        match code {
            0 => RecordingState::Stopped,
            2 => RecordingState::Paused,
            1 => RecordingState::Started,
            _ => RecordingState::Unknown,
        }
    }

    /// Whether a take is open, running or paused.
    pub fn is_recording(self) -> (r: bool)
        ensures
            r == (self == RecordingState::Started || self == RecordingState::Paused),
    {
        matches!(self, RecordingState::Started | RecordingState::Paused)
    }

    /// The state as a word.
    pub fn name(self) -> (r: &'static str)
        ensures
            r@ == self.spelling(),
    {
        match self {
            RecordingState::Stopped => "stopped",
            RecordingState::Started => "started",
            RecordingState::Paused => "paused",
            RecordingState::Unknown => "unknown",
        }
    }
}

} // verus!
