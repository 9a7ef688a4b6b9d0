//! What a device's reply decodes to.

use vstd::prelude::*;
use crate::protocol::states::RecordingState;
use crate::text::string_of;

verus! {

/// A hardware address.
#[derive(Debug, Clone, Copy, PartialEq, Eq)]
pub struct MacAddr(pub [u8; 6]);

/// A hexadecimal digit in upper case.
pub open spec fn hex_digit(n: int) -> char {
    if n < 10 {
        ((48 + n) as u32) as char
    } else {
        ((55 + n) as u32) as char
    }
}

/// A byte as two hexadecimal digits.
pub open spec fn hex_byte(b: u8) -> Seq<char> {
    seq![hex_digit(b as int / 16), hex_digit(b as int % 16)]
}

/// Bytes in hexadecimal, with hyphens between them.
pub open spec fn hyphenated(bytes: Seq<u8>) -> Seq<char>
    decreases bytes.len(),
{
    if bytes.len() == 0 {
        Seq::empty()
    } else if bytes.len() == 1 {
        hex_byte(bytes[0])
    } else {
        hyphenated(bytes.drop_last()) + seq!['-'] + hex_byte(bytes.last())
    }
}

fn to_hex(n: u8) -> (r: char)
    requires
        n < 16,
    ensures
        r == hex_digit(n as int),
{
    if n < 10 {
        (48 + n) as char
    } else {
        (55 + n) as char
    }
}

impl MacAddr {
    /// The address in hexadecimal, with hyphens between the bytes.
    pub fn rendered(&self) -> (r: String)
        ensures
            r@ == hyphenated(self.0@),
    {
        let mut out: Vec<char> = Vec::new();
        let mut i: usize = 0;
        while i < 6
            invariant
                i <= 6,
                out@ == hyphenated(self.0@.take(i as int)),
            decreases 6 - i,
        {
            if i > 0 {
                out.push('-');
            }
            let b: u8 = self.0[i];
            out.push(to_hex(b / 16));
            out.push(to_hex(b % 16));
            proof {
                let next = self.0@.take(i + 1);
                assert(next.drop_last() == self.0@.take(i as int));
                assert(next.last() == b);
                assert(out@ =~= hyphenated(next));
            }
            i = i + 1;
        }
        proof {
            assert(self.0@.take(6) == self.0@);
        }
        string_of(out.as_slice())
    }
}

/// A decoded reply.
#[derive(Debug, PartialEq, Eq)]
pub enum Value {
    Text(String),
    Version(String),
    Port(u16),
    Number(u32),
    Flag(bool),
    Mac(MacAddr),
    Ack(String),
    State(RecordingState),
    /// Active alarms, by name and level.
    Alarms(Vec<(String, String)>),
}

pub enum DecodedModel {
    Text(Seq<char>),
    Version(Seq<char>),
    Port(u16),
    Number(u32),
    Flag(bool),
    Mac(Seq<u8>),
    Ack(Seq<char>),
    State(RecordingState),
    Alarms(Seq<(Seq<char>, Seq<char>)>),
}

pub open spec fn pairs_model(s: Seq<(String, String)>) -> Seq<(Seq<char>, Seq<char>)> {
    s.map_values(|p: (String, String)| (p.0@, p.1@))
}

impl View for Value {
    type V = DecodedModel;

    open spec fn view(&self) -> DecodedModel {
        match self {
            Value::Text(s) => DecodedModel::Text(s@),
            Value::Version(s) => DecodedModel::Version(s@),
            Value::Port(p) => DecodedModel::Port(*p),
            Value::Number(n) => DecodedModel::Number(*n),
            Value::Flag(b) => DecodedModel::Flag(*b),
            Value::Mac(m) => DecodedModel::Mac(m.0@),
            Value::Ack(s) => DecodedModel::Ack(s@),
            Value::State(s) => DecodedModel::State(*s),
            Value::Alarms(a) => DecodedModel::Alarms(pairs_model(a@)),
        }
    }
}

/// The recording state of a decoded reply, where it is one.
pub open spec fn state_in(value: DecodedModel) -> Option<RecordingState> {
    match value {
        DecodedModel::State(s) => Some(s),
        _ => None,
    }
}

impl Value {
    /// The recording state, where the reply is one.
    pub fn as_state(&self) -> (r: Option<RecordingState>)
        ensures
            r == state_in(self@),
    {
        match self {
            Value::State(s) => Some(*s),
            _ => None,
        }
    }
}

} // verus!
