//! Driving one exchange over an open channel.
//!
//! The channel itself is the caller's. A [`Controller`] is told what happened on
//! it and says what to do next: read on, or finish with a value or an error.

use vstd::prelude::*;
use vstd::slice::slice_subrange;
use vstd::utf8::*;
use crate::devices::transport::TransportError;
use crate::protocol::instructions::{a_complete_echo_is_settled, Decode, Instruction, Reply, Step};
use crate::protocol::value::{DecodedModel, Value};
use crate::text::{decimal, decimal_string, join2, join3};
use crate::time::{debug_string, debug_text, Duration};

verus! {

/// Why a single exchange failed.
#[derive(Debug, PartialEq, Eq)]
pub enum ControllerError {
    /// No complete reply arrived in time.
    Timeout { instruction: String, after: Duration },
    /// The channel closed before a complete reply.
    ConnectionClosed { instruction: String },
    /// The channel failed on the way.
    Transport { instruction: String, source: TransportError },
    /// The device answered, and refused with this code.
    Rejected { instruction: String, code: u32 },
}

pub enum ControllerErrorModel {
    Timeout { instruction: Seq<char>, after: nat },
    ConnectionClosed { instruction: Seq<char> },
    Transport { instruction: Seq<char>, source: Seq<char> },
    Rejected { instruction: Seq<char>, code: u32 },
}

impl View for ControllerError {
    type V = ControllerErrorModel;

    open spec fn view(&self) -> ControllerErrorModel {
        match self {
            ControllerError::Timeout { instruction, after } => ControllerErrorModel::Timeout {
                instruction: instruction@,
                after: after@,
            },
            ControllerError::ConnectionClosed { instruction } =>
                ControllerErrorModel::ConnectionClosed { instruction: instruction@ },
            ControllerError::Transport { instruction, source } => ControllerErrorModel::Transport {
                instruction: instruction@,
                source: source@,
            },
            ControllerError::Rejected { instruction, code } => ControllerErrorModel::Rejected {
                instruction: instruction@,
                code: *code,
            },
        }
    }
}

pub open spec fn controller_message(e: ControllerErrorModel) -> Seq<char> {
    match e {
        ControllerErrorModel::Timeout { instruction, after } => "`"@ + instruction
            + "` timed out after "@ + debug_text(after),
        ControllerErrorModel::ConnectionClosed { instruction } => "channel closed during `"@
            + instruction + "`"@,
        ControllerErrorModel::Transport { instruction, source } => "`"@ + instruction + "`: "@ + (
        "transport i/o error: "@ + source),
        ControllerErrorModel::Rejected { instruction, code } => "`"@ + instruction
            + "` was refused with code "@ + decimal(code as nat),
    }
}

impl ControllerError {
    pub fn message(&self) -> (r: String)
        ensures
            r@ == controller_message(self@),
    {
        match self {
            ControllerError::Timeout { instruction, after } => {
                let head: String = join3("`", instruction.as_str(), "` timed out after ");
                join2(head.as_str(), debug_string(*after).as_str())
            },
            ControllerError::ConnectionClosed { instruction } => join3(
                "channel closed during `",
                instruction.as_str(),
                "`",
            ),
            ControllerError::Transport { instruction, source } => {
                let head: String = join3("`", instruction.as_str(), "`: ");
                join2(head.as_str(), source.message().as_str())
            },
            ControllerError::Rejected { instruction, code } => {
                let head: String = join3("`", instruction.as_str(), "` was refused with code ");
                join2(head.as_str(), decimal_string(*code as u64).as_str())
            },
        }
    }
}

// ---- reading bytes as text -------------------------------------------------

/// How many of the bytes, from the first, are valid UTF-8 at the most.
pub open spec fn valid_length(bytes: Seq<u8>) -> nat
    decreases bytes.len(),
{
    if bytes.len() == 0 || valid_utf8(bytes) {
        bytes.len()
    } else {
        valid_length(bytes.drop_last())
    }
}

/// The text of the longest valid prefix.
pub open spec fn valid_text(bytes: Seq<u8>) -> Seq<char> {
    decode_utf8(bytes.take(valid_length(bytes) as int))
}

/// `std::str::from_utf8`: the text, where the bytes are all valid UTF-8, and
/// otherwise the length of the longest prefix that is.
#[verifier::external_body]
fn read_utf8(bytes: &[u8]) -> (r: Result<String, usize>)
    ensures
        r is Ok <==> valid_utf8(bytes@),
        r is Ok ==> r->Ok_0@ == decode_utf8(bytes@),
        r is Err ==> r->Err_0 <= bytes@.len() && valid_utf8(bytes@.take(r->Err_0 as int)),
        r is Err ==> forall|n: int|
            r->Err_0 < n <= bytes@.len() ==> !valid_utf8(#[trigger] bytes@.take(n)),
{
    std::str::from_utf8(bytes).map(|s| s.to_owned()).map_err(|e| e.valid_up_to())
}

proof fn longest_is(bytes: Seq<u8>, n: int)
    requires
        0 <= n <= bytes.len(),
        valid_utf8(bytes.take(n)),
        forall|m: int| n < m <= bytes.len() ==> !valid_utf8(#[trigger] bytes.take(m)),
    ensures
        valid_length(bytes) == n,
    decreases bytes.len() - n,
{
    assert(bytes.take(bytes.len() as int) =~= bytes);
    if n < bytes.len() {
        assert(!valid_utf8(bytes.take(bytes.len() as int)));
        let shorter = bytes.drop_last();
        assert(shorter.take(n) =~= bytes.take(n));
        assert forall|m: int| n < m <= shorter.len() implies !valid_utf8(#[trigger] shorter.take(m)) by {
            assert(shorter.take(m) =~= bytes.take(m));
        }
        longest_is(shorter, n);
    }
}

/// The text of the longest prefix of the bytes that is valid. What is left of a
/// character that has not arrived whole is held back.
pub fn valid_prefix(bytes: &[u8]) -> (r: String)
    ensures
        r@ == valid_text(bytes@),
{
    match read_utf8(bytes) {
        Ok(s) => {
            proof {
                assert(bytes@.take(bytes@.len() as int) =~= bytes@);
            }
            s
        },
        Err(n) => {
            let head: &[u8] = slice_subrange(bytes, 0, n);
            proof {
                longest_is(bytes@, n as int);
                assert(head@ =~= bytes@.take(n as int));
            }
            match read_utf8(head) {
                Ok(s) => s,
                Err(_) => String::new(),
            }
        },
    }
}

// ---- the exchange ----------------------------------------------------------

/// What happened on the channel.
#[derive(Debug, PartialEq, Eq)]
pub enum Event {
    /// The payload was written, or failed to be.
    Written(Result<(), TransportError>),
    /// Bytes arrived, none of them where the peer closed; or the read failed.
    Received(Result<Vec<u8>, TransportError>),
    /// The time for the exchange is up.
    Elapsed,
}

/// What to do next.
#[derive(Debug, PartialEq, Eq)]
pub enum Next {
    Read,
    Finish(Result<Value, ControllerError>),
}

pub enum NextModel {
    Read,
    Value(DecodedModel),
    Error(ControllerErrorModel),
}

impl View for Next {
    type V = NextModel;

    open spec fn view(&self) -> NextModel {
        match self {
            Next::Read => NextModel::Read,
            Next::Finish(Ok(v)) => NextModel::Value(v@),
            Next::Finish(Err(e)) => NextModel::Error(e@),
        }
    }
}

/// What a buffer of everything received so far calls for.
pub open spec fn next_after<D: Decode>(parser: D, received: Seq<u8>) -> NextModel {
    match parser.decoded(valid_text(received)) {
        Some(v) => NextModel::Value(v),
        None => NextModel::Read,
    }
}

/// Runs instructions over one open channel, each within a time limit.
#[derive(Debug, Clone, Copy, PartialEq, Eq)]
pub struct Controller {
    pub command_timeout: Duration,
}

/// What has arrived of the reply to the exchange under way.
#[derive(Debug, PartialEq, Eq)]
pub struct Received {
    pub bytes: Vec<u8>,
}

impl Controller {
    pub fn new(command_timeout: Duration) -> (r: Self)
        ensures
            r.command_timeout == command_timeout,
    {
        Controller { command_timeout }
    }

    /// The start of an exchange, with nothing received. The payload of the
    /// instruction is to be written.
    pub fn begin(&self) -> (r: Received)
        ensures
            r.bytes@.len() == 0,
    {
        Received { bytes: Vec::new() }
    }

    /// Takes what happened on the channel and says what to do next.
    pub fn advance<D: Decode>(
        &self,
        instruction: &Instruction<D>,
        received: &mut Received,
        event: Event,
    ) -> (r: Next)
        requires
            match event {
                Event::Received(Ok(more)) => old(received).bytes@.len() + more@.len() <= usize::MAX,
                _ => true,
            },
        ensures
            final(received).bytes@ == match event {
                Event::Received(Ok(more)) => old(received).bytes@ + more@,
                _ => old(received).bytes@,
            },
            r@ == match event {
                Event::Elapsed => NextModel::Error(
                    ControllerErrorModel::Timeout {
                        instruction: instruction.name@,
                        after: self.command_timeout@,
                    },
                ),
                Event::Written(Err(e)) | Event::Received(Err(e)) => NextModel::Error(
                    ControllerErrorModel::Transport {
                        instruction: instruction.name@,
                        source: e@,
                    },
                ),
                Event::Written(Ok(_)) => NextModel::Read,
                Event::Received(Ok(more)) => if more@.len() == 0 {
                    NextModel::Error(
                        ControllerErrorModel::ConnectionClosed { instruction: instruction.name@ },
                    )
                } else {
                    next_after(instruction.parser, old(received).bytes@ + more@)
                },
            },
    {
        match event {
            Event::Elapsed => Next::Finish(
                Err(
                    ControllerError::Timeout {
                        instruction: instruction.name.clone(),
                        after: self.command_timeout,
                    },
                ),
            ),
            Event::Written(Err(source)) => Next::Finish(
                Err(ControllerError::Transport { instruction: instruction.name.clone(), source }),
            ),
            Event::Written(Ok(_)) => Next::Read,
            Event::Received(Err(source)) => Next::Finish(
                Err(ControllerError::Transport { instruction: instruction.name.clone(), source }),
            ),
            Event::Received(Ok(more)) => {
                if more.len() == 0 {
                    proof {
                        assert(received.bytes@ + more@ =~= received.bytes@);
                    }
                    return Next::Finish(
                        Err(
                            ControllerError::ConnectionClosed {
                                instruction: instruction.name.clone(),
                            },
                        ),
                    );
                }
                let mut more: Vec<u8> = more;
                received.bytes.append(&mut more);
                match instruction.parse_step(valid_prefix(received.bytes.as_slice()).as_str()) {
                    Step::Done(value) => Next::Finish(Ok(value)),
                    Step::NeedMore => Next::Read,
                }
            },
        }
    }
}

// ---- laws ------------------------------------------------------------------

proof fn decode_front(a: Seq<u8>, b: Seq<u8>)
    requires
        valid_utf8(a),
        valid_utf8(a + b),
    ensures
        valid_utf8(b),
        decode_utf8(a + b) == decode_utf8(a) + decode_utf8(b),
    decreases a.len(),
{
    if a.len() == 0 {
        assert(a + b =~= b);
        assert(decode_utf8(a) =~= Seq::<char>::empty());
        assert(decode_utf8(a) + decode_utf8(b) =~= decode_utf8(b));
    } else {
        let rest = pop_first_scalar(a);
        assert(length_of_first_scalar(a + b) == length_of_first_scalar(a));
        assert(pop_first_scalar(a + b) =~= rest + b);
        assert(decode_first_scalar(a + b) == decode_first_scalar(a));
        decode_front(rest, b);
        assert(decode_utf8(a + b) =~= decode_utf8(a) + decode_utf8(b));
    }
}

proof fn length_is_valid(bytes: Seq<u8>)
    ensures
        valid_length(bytes) <= bytes.len(),
        valid_utf8(bytes.take(valid_length(bytes) as int)),
    decreases bytes.len(),
{
    if bytes.len() == 0 || valid_utf8(bytes) {
        assert(bytes.take(bytes.len() as int) =~= bytes);
    } else {
        let shorter = bytes.drop_last();
        length_is_valid(shorter);
        let n = valid_length(shorter) as int;
        assert(shorter.take(n) =~= bytes.take(n));
    }
}

proof fn length_is_longest(bytes: Seq<u8>, n: int)
    requires
        0 <= n <= bytes.len(),
        valid_utf8(bytes.take(n)),
    ensures
        n <= valid_length(bytes),
    decreases bytes.len(),
{
    assert(bytes.take(bytes.len() as int) =~= bytes);
    if bytes.len() > 0 && !valid_utf8(bytes) {
        let shorter = bytes.drop_last();
        assert(n < bytes.len());
        assert(shorter.take(n) =~= bytes.take(n));
        length_is_longest(shorter, n);
    }
}

/// As much is read as text as can be, from the first byte on: what is read is valid,
/// nothing longer is, and bytes that are all valid are all read.
pub proof fn as_much_is_read_as_can_be(bytes: Seq<u8>, n: int)
    requires
        0 <= n <= bytes.len(),
    ensures
        valid_length(bytes) <= bytes.len(),
        valid_utf8(bytes.take(valid_length(bytes) as int)),
        valid_utf8(bytes.take(n)) ==> n <= valid_length(bytes),
        valid_utf8(bytes) ==> valid_text(bytes) == decode_utf8(bytes),
{
    length_is_valid(bytes);
    if valid_utf8(bytes.take(n)) {
        length_is_longest(bytes, n);
    }
    assert(bytes.take(bytes.len() as int) =~= bytes);
}

/// What has been read as text stays read, whatever arrives behind it.
pub proof fn text_only_grows(bytes: Seq<u8>, more: Seq<u8>)
    ensures
        valid_text(bytes).is_prefix_of(valid_text(bytes + more)),
{
    let whole = bytes + more;
    length_is_valid(bytes);
    length_is_valid(whole);
    let n = valid_length(bytes) as int;
    assert(whole.take(n) =~= bytes.take(n));
    length_is_longest(whole, n);
    let m = valid_length(whole) as int;
    let front = whole.take(n);
    let back = whole.subrange(n, m);
    assert(front + back =~= whole.take(m));
    decode_front(front, back);
    assert(decode_utf8(front).is_prefix_of(decode_utf8(front) + decode_utf8(back)));
}

/// What an exchange comes to when these pieces arrive, one read each.
pub open spec fn arriving<D: Decode>(parser: D, before: Seq<u8>, pieces: Seq<Seq<u8>>) -> NextModel
    decreases pieces.len(),
{
    if pieces.len() == 0 {
        NextModel::Read
    } else {
        let now = before + pieces[0];
        match next_after(parser, now) {
            NextModel::Read => arriving(parser, now, pieces.skip(1)),
            done => done,
        }
    }
}

/// The pieces put together.
pub open spec fn joined(pieces: Seq<Seq<u8>>) -> Seq<u8>
    decreases pieces.len(),
{
    if pieces.len() == 0 {
        Seq::empty()
    } else {
        pieces[0] + joined(pieces.skip(1))
    }
}

/// An echo reads the same in whatever pieces it arrives, characters cut in two
/// among them.
pub proof fn an_echo_reads_the_same_in_any_pieces(
    reply: Reply,
    before: Seq<u8>,
    pieces: Seq<Seq<u8>>,
)
    requires
        !(reply is Until),
        pieces.len() > 0,
    ensures
        arriving(reply, before, pieces) == next_after(reply, before + joined(pieces)),
    decreases pieces.len(),
{
    let now = before + pieces[0];
    let rest = pieces.skip(1);
    assert(before + joined(pieces) =~= now + joined(rest));
    if next_after(reply, now) is Read {
        if rest.len() == 0 {
            assert(now + joined(rest) =~= now);
        } else {
            an_echo_reads_the_same_in_any_pieces(reply, now, rest);
        }
    } else {
        text_only_grows(now, joined(rest));
        let head = valid_text(now);
        let whole = valid_text(now + joined(rest));
        assert(whole =~= head + whole.skip(head.len() as int));
        a_complete_echo_is_settled(reply, head, whole.skip(head.len() as int));
    }
}

} // verus!
