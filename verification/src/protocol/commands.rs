//! The built-in recorder commands.

use vstd::prelude::*;
use vstd::string::*;
use crate::protocol::instructions::{echoed, Decode, Instruction, Reply, UnknownInstruction};
use crate::protocol::payload_helpers;
use crate::protocol::payload_helpers::{esc_rcdr, normalize, RCDR, RCDR_LOWER};
use crate::text::{join2, same};

verus! {

/// A built-in recorder command.
#[derive(Debug, Clone, Copy, PartialEq, Eq, Structural)]
pub enum Command {
    Start,
    Stop,
    Pause,
}

impl Command {
    pub open spec fn spelling(self) -> Seq<char> {
        match self {
            Command::Start => "STARTRECORDING"@,
            Command::Stop => "STOPRECORDING"@,
            Command::Pause => "PAUSERECORDING"@,
        }
    }

    pub open spec fn verb_text(self) -> Seq<char> {
        match self {
            Command::Start => "Y1"@,
            Command::Stop => "Y0"@,
            Command::Pause => "Y2"@,
        }
    }

    /// The command that a name, as the catalog spells it, stands for.
    pub open spec fn named(name: Seq<char>) -> Option<Command> {
        if name == "START"@ || name == "STARTRECORDING"@ {
            Some(Command::Start)
        } else if name == "STOP"@ || name == "STOPRECORDING"@ {
            Some(Command::Stop)
        } else if name == "PAUSE"@ || name == "PAUSERECORDING"@ {
            Some(Command::Pause)
        } else {
            None
        }
    }

    /// Every command there is.
    pub fn all() -> (r: Vec<Command>)
        ensures
            r@ == seq![Command::Start, Command::Stop, Command::Pause],
    {
        vec![Command::Start, Command::Stop, Command::Pause]
    }

    pub fn name(self) -> (r: &'static str)
        ensures
            r@ == self.spelling(),
    {
        match self {
            Command::Start => "STARTRECORDING",
            Command::Stop => "STOPRECORDING",
            Command::Pause => "PAUSERECORDING",
        }
    }

    pub fn verb(self) -> (r: &'static str)
        ensures
            r@ == self.verb_text(),
    {
        match self {
            Command::Start => "Y1",
            Command::Stop => "Y0",
            Command::Pause => "Y2",
        }
    }

    /// The wire instruction of this command. Its reply is the echo of the verb.
    pub fn instruction(self) -> (r: Instruction<Reply>)
        ensures
            r.name@ == self.spelling(),
            r.payload@ == payload_helpers::framed(self.verb_text() + RCDR@),
            forall|b: Seq<char>|
                #[trigger] r.parser.decoded(b) == echoed(RCDR_LOWER@ + self.verb_text(), b),
    {
        let verb: &'static str = self.verb();
        Instruction::custom(self.name().to_owned(), esc_rcdr(verb), command_echo(verb))
    }

    /// The command of a name, in any case and with hyphens or underscores.
    pub fn from_name(s: &str) -> (r: Result<Command, UnknownInstruction>)
        ensures
            r is Ok <==> Command::named(payload_helpers::normal_all(s@)) is Some,
            r is Ok ==> r->Ok_0 == Command::named(payload_helpers::normal_all(s@))->0,
            r is Err ==> r->Err_0.0@ == s@,
    {
        let name: String = normalize(s);
        let n: &str = name.as_str();
        if same(n, "START") || same(n, "STARTRECORDING") {
            Ok(Command::Start)
        } else if same(n, "STOP") || same(n, "STOPRECORDING") {
            Ok(Command::Stop)
        } else if same(n, "PAUSE") || same(n, "PAUSERECORDING") {
            Ok(Command::Pause)
        } else {
            Err(UnknownInstruction(s.to_owned()))
        }
    }
}

/// The echo after a recording command: the verb behind the recorder's prefix.
fn command_echo(verb: &str) -> (r: Reply)
    ensures
        forall|b: Seq<char>| #[trigger] r.decoded(b) == echoed(RCDR_LOWER@ + verb@, b),
{
    Reply::Echo { token: join2(RCDR_LOWER, verb) }
}

} // verus!
