//! Failures of an open channel, and of opening one.

use vstd::prelude::*;
use crate::text::join2;

verus! {

/// A failure on an open channel.
#[derive(Debug, PartialEq, Eq)]
pub enum TransportError {
    /// The channel itself failed.
    Io(String),
}

impl View for TransportError {
    type V = Seq<char>;

    open spec fn view(&self) -> Seq<char> {
        match self {
            TransportError::Io(e) => e@,
        }
    }
}

impl TransportError {
    pub fn message(&self) -> (r: String)
        ensures
            r@ == "transport i/o error: "@ + self@,
    {
        match self {
            TransportError::Io(e) => join2("transport i/o error: ", e.as_str()),
        }
    }
}

/// The failure of a channel, from its description.
pub fn io_error(description: String) -> (r: TransportError)
    ensures
        r@ == description@,
{
    TransportError::Io(description)
}

/// A failure to open a channel.
#[derive(Debug, PartialEq, Eq)]
pub enum ConnectError {
    Failed(String),
}

impl View for ConnectError {
    type V = Seq<char>;

    open spec fn view(&self) -> Seq<char> {
        match self {
            ConnectError::Failed(e) => e@,
        }
    }
}

/// The failure to open a channel, from its description.
pub fn connect_error(description: String) -> (r: ConnectError)
    ensures
        r@ == description@,
{
    ConnectError::Failed(description)
}

/// What an answer to the password means for the dial.
pub fn admitted(success: bool) -> (r: Result<(), ConnectError>)
    ensures
        r is Ok <==> success,
        r is Err ==> r->Err_0@ == "password authentication rejected"@,
{
    if success {
        Ok(())
    } else {
        Err(ConnectError::Failed("password authentication rejected".to_owned()))
    }
}

} // verus!
