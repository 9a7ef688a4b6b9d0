//! Failures of the store, and how a caller sees them.

use vstd::prelude::*;
use vstd::string::*;
use crate::api::{ApiError, ErrorCode, Phase, Rejection};
use crate::store::outbox::{SubmitError, SubmitErrorModel};
use crate::text::join2;

verus! {

/// A read from the store that failed.
#[derive(Debug, PartialEq, Eq)]
pub enum ReadError {
    Backend(String),
}

/// A write to the store that failed.
#[derive(Debug, PartialEq, Eq)]
pub enum WriteError {
    Backend(String),
}

impl View for ReadError {
    type V = Seq<char>;

    open spec fn view(&self) -> Seq<char> {
        match self {
            ReadError::Backend(m) => m@,
        }
    }
}

impl View for WriteError {
    type V = Seq<char>;

    open spec fn view(&self) -> Seq<char> {
        match self {
            WriteError::Backend(m) => m@,
        }
    }
}

impl ReadError {
    pub fn backend(msg: &str) -> (r: Self)
        ensures
            r@ == msg@,
    {
        ReadError::Backend(msg.to_owned())
    }

    /// The failure in words.
    pub fn message(&self) -> (r: String)
        ensures
            r@ == "store read failed: "@ + self@,
    {
        match self {
            ReadError::Backend(e) => join2("store read failed: ", e.as_str()),
        }
    }
}

impl WriteError {
    pub fn backend(msg: &str) -> (r: Self)
        ensures
            r@ == msg@,
    {
        WriteError::Backend(msg.to_owned())
    }

    /// The failure in words.
    pub fn message(&self) -> (r: String)
        ensures
            r@ == "store write failed: "@ + self@,
    {
        match self {
            WriteError::Backend(e) => join2("store write failed: ", e.as_str()),
        }
    }
}

pub struct ApiErrorModel {
    pub code: ErrorCode,
    pub message: Seq<char>,
    pub rejection: Option<Rejection>,
}

impl View for ApiError {
    type V = ApiErrorModel;

    open spec fn view(&self) -> ApiErrorModel {
        ApiErrorModel { code: self.code, message: self.message@, rejection: self.rejection }
    }
}

pub open spec fn phase_spelling(phase: Phase) -> Seq<char> {
    match phase {
        Phase::Idle => "idle"@,
        Phase::Recording => "recording"@,
        Phase::Paused => "paused"@,
    }
}

/// The spelling of a phase on the wire.
pub fn phase_name(phase: Phase) -> (r: &'static str)
    ensures
        r@ == phase_spelling(phase),
{
    match phase {
        Phase::Idle => "idle",
        Phase::Recording => "recording",
        Phase::Paused => "paused",
    }
}

/// How a caller sees a failed submission. A rejection is the caller's to resolve
/// and names the device and the phase that refused; the rest are internal.
pub open spec fn submit_failure(e: SubmitErrorModel) -> ApiErrorModel {
    match e {
        SubmitErrorModel::Rejected { device, rejection, desired_recording_state } => ApiErrorModel {
            code: ErrorCode::Conflict,
            message: rejection.spelling() + " (device '"@ + device + "', phase: "@ + phase_spelling(
                desired_recording_state,
            ) + ")"@,
            rejection: Some(rejection),
        },
        SubmitErrorModel::Malformed(msg) => ApiErrorModel {
            code: ErrorCode::Internal,
            message: "malformed submission: "@ + msg,
            rejection: None,
        },
        SubmitErrorModel::Backend(msg) => ApiErrorModel {
            code: ErrorCode::Internal,
            message: msg,
            rejection: None,
        },
    }
}

/// How a caller sees a failed read.
pub fn api_error_of_read(e: &ReadError) -> (r: ApiError)
    ensures
        r@ == (ApiErrorModel {
            code: ErrorCode::Internal,
            message: "store read failed: "@ + e@,
            rejection: None,
        }),
{
    ApiError::coded(ErrorCode::Internal, e.message())
}

/// How a caller sees a failed write.
pub fn api_error_of_write(e: &WriteError) -> (r: ApiError)
    ensures
        r@ == (ApiErrorModel {
            code: ErrorCode::Internal,
            message: "store write failed: "@ + e@,
            rejection: None,
        }),
{
    ApiError::coded(ErrorCode::Internal, e.message())
}

/// How a caller sees a failed submission.
pub fn api_error_of_submit(e: SubmitError) -> (r: ApiError)
    ensures
        r@ == submit_failure(e@),
{
    match e {
        SubmitError::Rejected { device, rejection, desired_recording_state } => {
            let mut message: String = rejection.name().to_owned();
            message.append(" (device '");
            message.append(device.as_str());
            message.append("', phase: ");
            message.append(phase_name(desired_recording_state));
            message.append(")");
            ApiError::rejected(rejection, message)
        },
        SubmitError::Malformed(msg) => ApiError::coded(
            ErrorCode::Internal,
            join2("malformed submission: ", msg.as_str()),
        ),
        SubmitError::Backend(msg) => ApiError::coded(ErrorCode::Internal, msg),
    }
}

} // verus!
