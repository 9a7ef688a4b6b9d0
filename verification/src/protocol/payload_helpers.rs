//! Building what is written to a device.

use vstd::prelude::*;
use vstd::string::*;
use crate::text;
use crate::text::{chars_of, copy_range, string_of, to_upper};

verus! {

/// The escape character that opens a command.
pub const ESC: &'static str = "\x1b";

/// The carriage return that closes one.
pub const CR: char = '\r';

/// The suffix of a recorder command.
pub const RCDR: &'static str = "RCDR";

/// The prefix of a recorder's echo.
pub const RCDR_LOWER: &'static str = "Rcdr";

/// The bytes between the escape character and the carriage return.
pub open spec fn framed(body: Seq<char>) -> Seq<char> {
    ESC@ + body + seq![CR]
}

/// A command of the device itself.
pub fn esc_cr(verb: &str) -> (r: String)
    ensures
        r@ == framed(verb@),
{
    let mut out: String = ESC.to_owned();
    out.append(verb);
    out.push(CR);
    proof {
        assert(out@ =~= framed(verb@));
    }
    out
}

/// A command of the recorder.
pub fn esc_rcdr(verb: &str) -> (r: String)
    ensures
        r@ == framed(verb@ + RCDR@),
{
    let body: String = text::join2(verb, RCDR);
    esc_cr(body.as_str())
}

/// The upper case of ASCII, and underscores for hyphens.
pub open spec fn normal(c: char) -> char {
    if text::upper(c) == '-' {
        '_'
    } else {
        text::upper(c)
    }
}

pub open spec fn normal_all(s: Seq<char>) -> Seq<char> {
    s.map_values(|c: char| normal(c))
}

/// A name as the catalog spells it.
pub fn normalize(s: &str) -> (r: String)
    ensures
        r@ == normal_all(s@),
{
    let cs: Vec<char> = chars_of(s);
    let mut out: Vec<char> = Vec::new();
    let mut i: usize = 0;
    while i < cs.len()
        invariant
            i <= cs.len(),
            out@ == normal_all(cs@.take(i as int)),
        decreases cs.len() - i,
    {
        let c: char = to_upper(cs[i]);
        if c == '-' {
            out.push('_');
        } else {
            out.push(c);
        }
        proof {
            assert(cs@.take(i + 1) == cs@.take(i as int).push(cs@[i as int]));
            assert(out@ =~= normal_all(cs@.take(i + 1)));
        }
        i = i + 1;
    }
    proof {
        assert(cs@.take(cs@.len() as int) == cs@);
    }
    string_of(out.as_slice())
}

/// The first characters of a text, at most `max` of them.
pub open spec fn first_chars(s: Seq<char>, max: nat) -> Seq<char> {
    if s.len() <= max {
        s
    } else {
        s.take(max as int)
    }
}

/// Cuts a text to its first `max` characters.
pub fn shorten(s: &str, max: usize) -> (r: String)
    ensures
        r@ == first_chars(s@, max as nat),
{
    let cs: Vec<char> = chars_of(s);
    let end: usize = if cs.len() <= max {
        cs.len()
    } else {
        max
    };
    let cut: Vec<char> = copy_range(cs.as_slice(), 0, end);
    proof {
        assert(cut@ =~= first_chars(s@, max as nat));
    }
    string_of(cut.as_slice())
}

/// Whether a character may stand in a line of a reply.
pub fn is_not_cr(c: char) -> (r: bool)
    ensures
        r == (c != CR),
{
    c != CR
}

} // verus!
