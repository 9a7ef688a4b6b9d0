//! One exchange with a device: what to send and how to read the reply.

use vstd::prelude::*;
use vstd::string::*;
use crate::protocol::payload_helpers::{is_not_cr, CR};
use crate::protocol::value::{DecodedModel, Value};
use crate::text;
use crate::text::{chars_of, copy_range, join3, string_of};

verus! {

/// Where a parser has got to on what has arrived so far.
#[derive(Debug, PartialEq, Eq)]
pub enum Step {
    /// The reply is complete, and this is what it says.
    Done(Value),
    /// The reply may still be arriving.
    NeedMore,
}

impl View for Step {
    type V = Option<DecodedModel>;

    open spec fn view(&self) -> Option<DecodedModel> {
        match self {
            Step::Done(v) => Some(v@),
            Step::NeedMore => None,
        }
    }
}

/// A streaming parser: it is shown all that has arrived, again after each read.
pub trait Decode {
    /// What a buffer decodes to, once it holds a complete reply.
    spec fn decoded(&self, buffer: Seq<char>) -> Option<DecodedModel>;

    fn decode(&self, buffer: &str) -> (r: Step)
        ensures
            r@ == self.decoded(buffer@),
    ;
}

/// The reply shapes of the built-in instructions.
#[derive(Debug, PartialEq, Eq)]
pub enum Reply {
    /// This token and a carriage return.
    Echo { token: String },
    /// This head, and the value up to a carriage return.
    Setting { head: String },
    /// Whatever arrives, up to this terminator.
    Until { terminator: String },
}

impl Clone for Reply {
    fn clone(&self) -> (r: Self)
        ensures
            r == *self,
    {
        match self {
            Reply::Echo { token } => Reply::Echo { token: token.clone() },
            Reply::Setting { head } => Reply::Setting { head: head.clone() },
            Reply::Until { terminator } => Reply::Until { terminator: terminator.clone() },
        }
    }
}

/// Whether `part` stands in `whole` from position `at` on.
pub open spec fn stands_at(whole: Seq<char>, part: Seq<char>, at: int) -> bool {
    0 <= at && at + part.len() <= whole.len() && whole.subrange(at, at + part.len()) == part
}

/// Whether `part` stands anywhere in `whole`.
pub open spec fn holds(whole: Seq<char>, part: Seq<char>) -> bool {
    exists|at: int| stands_at(whole, part, at)
}

/// The text before the first carriage return, if there is one.
pub open spec fn line_of(s: Seq<char>) -> Option<Seq<char>>
    decreases s.len(),
{
    if s.len() == 0 {
        None
    } else if s[0] == CR {
        Some(Seq::empty())
    } else {
        match line_of(s.skip(1)) {
            Some(rest) => Some(seq![s[0]] + rest),
            None => None,
        }
    }
}

pub open spec fn echoed(token: Seq<char>, buffer: Seq<char>) -> Option<DecodedModel> {
    if stands_at(buffer, token + seq![CR], 0) {
        Some(DecodedModel::Ack(token))
    } else {
        None
    }
}

pub open spec fn setting_echoed(head: Seq<char>, buffer: Seq<char>) -> Option<DecodedModel> {
    if stands_at(buffer, head, 0) {
        match line_of(buffer.skip(head.len() as int)) {
            Some(value) => Some(DecodedModel::Text(value)),
            None => None,
        }
    } else {
        None
    }
}

pub open spec fn collected(terminator: Seq<char>, buffer: Seq<char>) -> Option<DecodedModel> {
    if terminator.len() == 0 || holds(buffer, terminator) {
        Some(DecodedModel::Text(buffer))
    } else {
        None
    }
}

fn is_at(whole: &Vec<char>, part: &Vec<char>, at: usize) -> (r: bool)
    requires
        at <= whole.len(),
    ensures
        r == stands_at(whole@, part@, at as int),
{
    if part.len() > whole.len() - at {
        return false;
    }
    let mut i: usize = 0;
    while i < part.len()
        invariant
            i <= part.len(),
            at + part.len() <= whole.len(),
            forall|j: int| 0 <= j < i ==> whole@[at + j] == #[trigger] part@[j],
        decreases part.len() - i,
    {
        if whole[at + i] != part[i] {
            proof {
                assert(whole@.subrange(at as int, at + part@.len())[i as int] != part@[i as int]);
            }
            return false;
        }
        i = i + 1;
    }
    proof {
        assert(whole@.subrange(at as int, at + part@.len()) =~= part@);
    }
    true
}

fn anywhere(whole: &Vec<char>, part: &Vec<char>) -> (r: bool)
    ensures
        r == holds(whole@, part@),
{
    let mut at: usize = 0;
    while at < whole.len()
        invariant
            at <= whole.len(),
            forall|j: int| 0 <= j < at ==> !stands_at(whole@, part@, j),
        decreases whole.len() - at,
    {
        if is_at(whole, part, at) {
            return true;
        }
        at = at + 1;
    }
    let last: bool = is_at(whole, part, at);
    proof {
        if holds(whole@, part@) {
            let j = choose|j: int| stands_at(whole@, part@, j);
            assert(j >= at);
        }
    }
    last
}

proof fn line_from(s: Seq<char>, n: int)
    requires
        0 <= n <= s.len(),
        forall|j: int| 0 <= j < n ==> s[j] != CR,
    ensures
        n == s.len() ==> line_of(s) is None,
        n < s.len() && s[n] == CR ==> line_of(s) == Some(s.take(n)),
    decreases n,
{
    if n > 0 {
        let rest = s.skip(1);
        assert forall|j: int| 0 <= j < n - 1 implies rest[j] != CR by {
            assert(rest[j] == s[j + 1]);
        }
        line_from(rest, n - 1);
        if n < s.len() && s[n] == CR {
            assert(rest[n - 1] == s[n]);
            assert(seq![s[0]] + rest.take(n - 1) =~= s.take(n));
        }
    } else {
        assert(s.take(0) =~= Seq::<char>::empty());
    }
}

impl Decode for Reply {
    open spec fn decoded(&self, buffer: Seq<char>) -> Option<DecodedModel> {
        match self {
            Reply::Echo { token } => echoed(token@, buffer),
            Reply::Setting { head } => setting_echoed(head@, buffer),
            Reply::Until { terminator } => collected(terminator@, buffer),
        }
    }

    fn decode(&self, buffer: &str) -> (r: Step) {
        let got: Vec<char> = chars_of(buffer);
        match self {
            Reply::Echo { token } => {
                let mut line: Vec<char> = chars_of(token.as_str());
                line.push(CR);
                proof {
                    assert(line@ =~= token@ + seq![CR]);
                }
                if is_at(&got, &line, 0) {
                    Step::Done(Value::Ack(token.clone()))
                } else {
                    Step::NeedMore
                }
            },
            Reply::Setting { head } => {
                let start: Vec<char> = chars_of(head.as_str());
                if !is_at(&got, &start, 0) {
                    return Step::NeedMore;
                }
                let from: usize = start.len();
                let mut end: usize = from;
                while end < got.len() && is_not_cr(got[end])
                    invariant
                        from <= end <= got.len(),
                        forall|j: int| from <= j < end ==> got@[j] != CR,
                    decreases got.len() - end,
                {
                    end = end + 1;
                }
                proof {
                    line_from(got@.skip(from as int), end - from);
                }
                if end < got.len() {
                    let value: Vec<char> = copy_range(got.as_slice(), from, end);
                    proof {
                        assert(value@ =~= got@.skip(from as int).take(end - from));
                    }
                    Step::Done(Value::Text(string_of(value.as_slice())))
                } else {
                    Step::NeedMore
                }
            },
            Reply::Until { terminator } => {
                let end: Vec<char> = chars_of(terminator.as_str());
                if end.len() == 0 || anywhere(&got, &end) {
                    Step::Done(Value::Text(buffer.to_owned()))
                } else {
                    Step::NeedMore
                }
            },
        }
    }
}

/// A single exchange: what to send and how to read the reply.
#[derive(Debug, PartialEq, Eq)]
pub struct Instruction<D> {
    /// The name in responses and errors.
    pub name: String,
    /// What is written to the channel, control characters included.
    pub payload: String,
    pub parser: D,
}

impl<D: Decode> Instruction<D> {
    /// An instruction with a parser of the caller's own.
    pub fn custom(name: String, payload: String, parser: D) -> (r: Self)
        ensures
            r.name@ == name@,
            r.payload@ == payload@,
            r.parser == parser,
    {
        Instruction { name, payload, parser }
    }

    /// Shows the instruction's parser what has arrived so far.
    pub fn parse_step(&self, buffer: &str) -> (r: Step)
        ensures
            r@ == self.parser.decoded(buffer@),
    {
        self.parser.decode(buffer)
    }
}

impl Instruction<Reply> {
    /// An instruction that reads until `terminator` appears and gives back all
    /// that arrived.
    pub fn raw_until(name: String, payload: String, terminator: String) -> (r: Self)
        ensures
            r.name@ == name@,
            r.payload@ == payload@,
            forall|b: Seq<char>| #[trigger] r.parser.decoded(b) == collected(terminator@, b),
    {
        Instruction::custom(name, payload, Reply::Until { terminator })
    }
}

/// A name that is not in the catalog.
#[derive(Debug, PartialEq, Eq)]
pub struct UnknownInstruction(pub String);

impl UnknownInstruction {
    pub fn message(&self) -> (r: String)
        ensures
            r@ == "no built-in instruction named '"@ + self.0@ + "'"@,
    {
        join3("no built-in instruction named '", self.0.as_str(), "'")
    }
}

// ---- laws ------------------------------------------------------------------

/// The line of a text does not change as more of the text arrives.
proof fn line_grows(s: Seq<char>, more: Seq<char>)
    requires
        line_of(s) is Some,
    ensures
        line_of(s + more) == line_of(s),
    decreases s.len(),
{
    if s[0] != CR {
        line_grows(s.skip(1), more);
        assert((s + more).skip(1) =~= s.skip(1) + more);
    }
}

/// A complete echo stays the same reply however much arrives behind it.
pub proof fn a_complete_echo_is_settled(reply: Reply, buffer: Seq<char>, more: Seq<char>)
    requires
        !(reply is Until),
        reply.decoded(buffer) is Some,
    ensures
        reply.decoded(buffer + more) == reply.decoded(buffer),
{
    let whole = buffer + more;
    match reply {
        Reply::Echo { token } => {
            let line = token@ + seq![CR];
            assert(whole.subrange(0, line.len() as int) =~= buffer.subrange(0, line.len() as int));
        },
        Reply::Setting { head } => {
            let n = head@.len() as int;
            assert(whole.subrange(0, n) =~= buffer.subrange(0, n));
            assert(whole.skip(n) =~= buffer.skip(n) + more);
            line_grows(buffer.skip(n), more);
        },
        Reply::Until { .. } => {},
    }
}

/// A terminator that has arrived is not unseen by what arrives later.
pub proof fn a_terminator_stays_seen(terminator: Seq<char>, buffer: Seq<char>, more: Seq<char>)
    requires
        collected(terminator, buffer) is Some,
    ensures
        collected(terminator, buffer + more) == Some(DecodedModel::Text(buffer + more)),
{
    if terminator.len() > 0 {
        let at = choose|at: int| stands_at(buffer, terminator, at);
        assert((buffer + more).subrange(at, at + terminator.len()) =~= buffer.subrange(
            at,
            at + terminator.len(),
        ));
        assert(stands_at(buffer + more, terminator, at));
    }
}

} // verus!
