//! Quantities written in words: `30d`, `1h 30min`, `512MiB`, `2026-01-01`.

use vstd::prelude::*;
use vstd::string::*;
use crate::rounding;
use crate::text;
use crate::text::{
    chars_of, copy_range, decimal_string, join3, lower_string, parse_uint, same, string_of, trim,
};
use crate::time;
use crate::time::{human_string, parse_day, parse_human, parse_rfc3339, Duration, Instant};

verus! {

// ---- sizes -----------------------------------------------------------------

/// A character of the number that a size starts with.
pub open spec fn is_number_char(c: char) -> bool {
    text::is_digit(c) || c == '.'
}

/// How many characters the number takes.
pub open spec fn number_len(s: Seq<char>) -> nat
    decreases s.len(),
{
    if s.len() > 0 && is_number_char(s[0]) {
        1 + number_len(s.drop_first())
    } else {
        0
    }
}

/// The bytes that a unit stands for. Bare letters are powers of 1024.
pub open spec fn scale_of(unit: Seq<char>) -> Option<nat> {
    if unit == ""@ || unit == "b"@ {
        Some(1)
    } else if unit == "k"@ || unit == "kib"@ {
        Some(1024)
    } else if unit == "m"@ || unit == "mib"@ {
        Some(1_048_576)
    } else if unit == "g"@ || unit == "gib"@ {
        Some(1_073_741_824)
    } else if unit == "t"@ || unit == "tib"@ {
        Some(1_099_511_627_776)
    } else if unit == "kb"@ {
        Some(1_000)
    } else if unit == "mb"@ {
        Some(1_000_000)
    } else if unit == "gb"@ {
        Some(1_000_000_000)
    } else if unit == "tb"@ {
        Some(1_000_000_000_000)
    } else {
        None
    }
}

/// The bytes of a number without a unit, `scale` times over: a number that is
/// whole, exactly, or one with a point, in double precision and without what is
/// no whole byte.
pub open spec fn scaled(number: Seq<char>, scale: nat) -> Result<nat, Seq<char>> {
    if number.contains('.') {
        let dot = number.index_of_first('.')->0;
        let whole = number.take(dot);
        let part = number.skip(dot + 1);
        if part.contains('.') || whole.len() + part.len() == 0 {
            Err("not a number"@)
        } else {
            rounding::scaled_decimal(
                text::number(whole) * rounding::ten_to(part.len()) + text::number(part),
                part.len(),
                scale,
            )
        }
    } else if number.len() == 0 || text::number(number) > u64::MAX {
        Err("not a number"@)
    } else if text::number(number) * scale > u64::MAX {
        Err("too large"@)
    } else {
        Ok(text::number(number) * scale)
    }
}

/// The unit of a size: what follows the number, trimmed and in lower case.
pub open spec fn unit_of(s: Seq<char>) -> Seq<char> {
    text::lower_all(text::trimmed(s.skip(number_len(s) as int)))
}

/// The bytes that a trimmed text writes, or what is wrong with it.
pub open spec fn size_of_text(s: Seq<char>) -> Result<nat, Seq<char>> {
    match scale_of(unit_of(s)) {
        Some(scale) => scaled(s.take(number_len(s) as int), scale),
        None => Err("unknown unit '"@ + unit_of(s) + "'"@),
    }
}

/// The complaint about a text that is no size.
pub open spec fn size_complaint(s: Seq<char>, what: Seq<char>) -> Seq<char> {
    "'"@ + s + "' is not a size ("@ + what
        + "); write it as e.g. 512MiB, 2GB, or a plain number of bytes; the suffixes are K, M, G, T and KiB, MiB, GiB, TiB for powers of 1024, and KB, MB, GB, TB for powers of 1000"@
}

fn complain(s: &str, what: &str) -> (r: String)
    ensures
        r@ == size_complaint(s@, what@),
{
    let mut out: String = join3("'", s, "' is not a size (");
    out.append(what);
    out.append(
        "); write it as e.g. 512MiB, 2GB, or a plain number of bytes; the suffixes are K, M, G, T and KiB, MiB, GiB, TiB for powers of 1024, and KB, MB, GB, TB for powers of 1000",
    );
    out
}

/// The bytes that a unit stands for.
fn scale(unit: &str) -> (r: Option<u64>)
    ensures
        r is Some <==> scale_of(unit@) is Some,
        r is Some ==> r->0 == scale_of(unit@)->0,
        r is Some ==> 1 <= r->0 <= 1_099_511_627_776,
{
    if same(unit, "") || same(unit, "b") {
        Some(1)
    } else if same(unit, "k") || same(unit, "kib") {
        Some(1024)
    } else if same(unit, "m") || same(unit, "mib") {
        Some(1_048_576)
    } else if same(unit, "g") || same(unit, "gib") {
        Some(1_073_741_824)
    } else if same(unit, "t") || same(unit, "tib") {
        Some(1_099_511_627_776)
    } else if same(unit, "kb") {
        Some(1_000)
    } else if same(unit, "mb") {
        Some(1_000_000)
    } else if same(unit, "gb") {
        Some(1_000_000_000)
    } else if same(unit, "tb") {
        Some(1_000_000_000_000)
    } else {
        None
    }
}

/// Reads a number that has a fraction.
fn scale_number(number: &[char], dot: usize, scale: u64) -> (r: Result<u64, &'static str>)
    requires
        dot < number.len(),
        number@[dot as int] == '.',
        forall|i: int| 0 <= i < dot ==> number@[i] != '.',
        forall|i: int| 0 <= i < number.len() ==> is_number_char(#[trigger] number@[i]),
        1 <= scale <= 1_099_511_627_776,
    ensures
        r is Ok <==> scaled(number@, scale as nat) is Ok,
        r is Ok ==> r->Ok_0 == scaled(number@, scale as nat)->Ok_0,
        r is Err ==> r->Err_0@ == scaled(number@, scale as nat)->Err_0,
{
    let whole: Vec<char> = copy_range(number, 0, dot);
    let part: Vec<char> = copy_range(number, dot + 1, number.len());
    proof {
        assert(number@.contains('.'));
        number@.index_of_first_ensures('.');
        assert(number@.index_of_first('.')->0 == dot);
        assert(whole@ =~= number@.take(dot as int));
        assert(part@ =~= number@.skip(dot + 1));
        assert forall|i: int| 0 <= i < whole@.len() implies text::is_digit(#[trigger] whole@[i]) by {
            assert(whole@[i] == number@[i]);
        }
    }
    let mut i: usize = 0;
    while i < part.len()
        invariant
            i <= part.len(),
            part@ == number@.skip(dot + 1),
            dot < number.len(),
            number@.contains('.'),
            number@.index_of_first('.')->0 == dot,
            forall|j: int| 0 <= j < number.len() ==> is_number_char(#[trigger] number@[j]),
            forall|j: int| 0 <= j < i ==> text::is_digit(#[trigger] part@[j]),
        decreases part.len() - i,
    {
        proof {
            assert(part@[i as int] == number@[dot + 1 + i]);
        }
        if part[i] == '.' {
            proof {
                assert(part@.contains('.'));
            }
            return Err("not a number");
        }
        i = i + 1;
    }
    proof {
        assert(!part@.contains('.')) by {
            if part@.contains('.') {
                let j = choose|j: int| 0 <= j < part@.len() && part@[j] == '.';
                assert(text::is_digit(part@[j]));
            }
        }
    }
    if whole.len() + part.len() == 0 {
        return Err("not a number");
    }
    rounding::scale_decimal(&whole, &part, scale)
}

/// Parses a size in words, or a plain number of bytes.
pub fn bytes(s: &str) -> (r: Result<u64, String>)
    ensures
        ({
            let t = text::trimmed(s@);
            &&& r is Ok <==> size_of_text(t) is Ok
            &&& r is Ok ==> r->Ok_0 == size_of_text(t)->Ok_0
            &&& r is Err ==> r->Err_0@ == size_complaint(t, size_of_text(t)->Err_0)
        }),
{
    let body: String = trim(s);
    let cs: Vec<char> = chars_of(body.as_str());
    let ghost t = body@;
    let mut split: usize = 0;
    let mut dot: Option<usize> = None;
    proof {
        assert(t.skip(0) =~= t);
    }
    while split < cs.len() && ((48 <= cs[split] as u32 && cs[split] as u32 <= 57) || cs[split]
        == '.')
        invariant
            cs@ == t,
            split <= cs.len(),
            number_len(t) == split + number_len(t.skip(split as int)),
            forall|i: int| 0 <= i < split ==> is_number_char(#[trigger] t[i]),
            dot is Some ==> dot->0 < split && t[dot->0 as int] == '.' && forall|i: int|
                0 <= i < dot->0 ==> t[i] != '.',
            dot is None ==> forall|i: int| 0 <= i < split ==> t[i] != '.',
        decreases cs.len() - split,
    {
        proof {
            assert(t.skip(split as int)[0] == t[split as int]);
            assert(t.skip(split as int).drop_first() =~= t.skip(split + 1));
        }
        if dot.is_none() && cs[split] == '.' {
            dot = Some(split);
        }
        split = split + 1;
    }
    proof {
        if split < cs.len() {
            assert(t.skip(split as int)[0] == t[split as int]);
        }
        assert(number_len(t) == split);
    }
    let number: Vec<char> = copy_range(cs.as_slice(), 0, split);
    let after: Vec<char> = copy_range(cs.as_slice(), split, cs.len());
    proof {
        assert(number@ =~= t.take(split as int));
        assert(after@ =~= t.skip(split as int));
    }
    let unit: String = lower_string(trim(string_of(after.as_slice()).as_str()).as_str());
    let scale: u64 = match scale(unit.as_str()) {
        Some(scale) => scale,
        None => {
            let what: String = join3("unknown unit '", unit.as_str(), "'");
            return Err(complain(body.as_str(), what.as_str()));
        },
    };
    match dot {
        Some(dot) => {
            proof {
                assert forall|i: int| 0 <= i < number.len() implies is_number_char(
                    #[trigger] number@[i],
                ) by {
                    assert(number@[i] == t[i]);
                }
            }
            match scale_number(number.as_slice(), dot, scale) {
                Ok(value) => Ok(value),
                Err(what) => Err(complain(body.as_str(), what)),
            }
        },
        None => {
            proof {
                assert forall|i: int| 0 <= i < number@.len() implies text::is_digit(
                    #[trigger] number@[i],
                ) by {
                    assert(number@[i] == t[i]);
                    assert(is_number_char(t[i]));
                }
                assert(!number@.contains('.'));
                if number@.len() > 0 {
                    assert(text::is_digit(number@[0]));
                }
                assert(text::unsigned(number@) == number@);
            }
            match parse_uint(number.as_slice(), u64::MAX) {
                Some(value) => match value.checked_mul(scale) {
                    Some(total) => Ok(total),
                    None => Err(complain(body.as_str(), "too large")),
                },
                None => Err(complain(body.as_str(), "not a number")),
            }
        },
    }
}

/// A size as text: a whole number of the largest binary unit that divides it, or
/// a plain number of bytes.
pub open spec fn size_text(n: nat) -> Seq<char> {
    if n >= 1_099_511_627_776 && n % 1_099_511_627_776 == 0 {
        text::decimal(n / 1_099_511_627_776) + "TiB"@
    } else if n >= 1_073_741_824 && n % 1_073_741_824 == 0 {
        text::decimal(n / 1_073_741_824) + "GiB"@
    } else if n >= 1_048_576 && n % 1_048_576 == 0 {
        text::decimal(n / 1_048_576) + "MiB"@
    } else if n >= 1024 && n % 1024 == 0 {
        text::decimal(n / 1024) + "KiB"@
    } else {
        text::decimal(n)
    }
}

/// A size as text that reads back as the same number.
pub fn format_bytes(n: u64) -> (r: String)
    ensures
        r@ == size_text(n as nat),
{
    if n >= 1_099_511_627_776 && n % 1_099_511_627_776 == 0 {
        let mut out: String = decimal_string(n / 1_099_511_627_776);
        out.append("TiB");
        out
    } else if n >= 1_073_741_824 && n % 1_073_741_824 == 0 {
        let mut out: String = decimal_string(n / 1_073_741_824);
        out.append("GiB");
        out
    } else if n >= 1_048_576 && n % 1_048_576 == 0 {
        let mut out: String = decimal_string(n / 1_048_576);
        out.append("MiB");
        out
    } else if n >= 1024 && n % 1024 == 0 {
        let mut out: String = decimal_string(n / 1024);
        out.append("KiB");
        out
    } else {
        decimal_string(n)
    }
}

/// A text that starts and ends with no white space is trimmed.
pub proof fn trimmed_already(s: Seq<char>)
    requires
        s.len() > 0,
        !text::is_white(s[0]),
        !text::is_white(s.last()),
    ensures
        text::trimmed(s) == s,
{
}

proof fn number_len_of(digits: Seq<char>, rest: Seq<char>)
    requires
        text::all_digits(digits),
        rest.len() > 0 ==> !is_number_char(rest[0]),
    ensures
        number_len(digits + rest) == digits.len(),
    decreases digits.len(),
{
    let s = digits + rest;
    if digits.len() == 0 {
        assert(s =~= rest);
    } else {
        assert(s[0] == digits[0]);
        assert(text::is_digit(digits[0]));
        let d1 = digits.drop_first();
        assert forall|i: int| 0 <= i < d1.len() implies text::is_digit(#[trigger] d1[i]) by {
            assert(d1[i] == digits[i + 1]);
        }
        assert(s.drop_first() =~= d1 + rest);
        number_len_of(d1, rest);
    }
}

/// Digits and a unit read as that many of the unit.
proof fn reads_as(n: nat, unit: Seq<char>, plain: Seq<char>, scale: nat)
    requires
        unit.len() > 0 ==> !is_number_char(unit[0]) && !text::is_white(unit[0])
            && !text::is_white(unit.last()),
        text::lower_all(unit) == plain,
        scale_of(plain) == Some(scale),
        scale >= 1,
        n * scale <= u64::MAX,
    ensures
        text::trimmed(text::decimal(n) + unit) == text::decimal(n) + unit,
        size_of_text(text::decimal(n) + unit) == Ok::<nat, Seq<char>>(n * scale),
{
    let d = text::decimal(n);
    let s = d + unit;
    text::decimal_reads_back(n);
    number_len_of(d, unit);
    assert(s.skip(d.len() as int) =~= unit);
    assert(s.take(d.len() as int) =~= d);
    assert(text::is_digit(d[0]));
    assert(text::is_digit(d.last()));
    assert(s[0] == d[0]);
    if unit.len() > 0 {
        assert(s.last() == unit.last());
        trimmed_already(unit);
    } else {
        assert(s =~= d);
        assert(text::trimmed(unit) =~= unit);
    }
    trimmed_already(s);
    assert(unit_of(s) == plain);
    assert(!d.contains('.')) by {
        if d.contains('.') {
            let i = choose|i: int| 0 <= i < d.len() && d[i] == '.';
            assert(text::is_digit(d[i]));
        }
    }
    assert(n <= n * scale) by (nonlinear_arith)
        requires
            scale >= 1,
    ;
}

/// Every size reads back from its text as itself.
pub proof fn every_rendered_size_reads_back(n: u64)
    ensures
        size_of_text(text::trimmed(size_text(n as nat))) == Ok::<nat, Seq<char>>(n as nat),
{
    reveal_strlit("");
    reveal_strlit("b");
    reveal_strlit("k");
    reveal_strlit("kib");
    reveal_strlit("m");
    reveal_strlit("mib");
    reveal_strlit("g");
    reveal_strlit("gib");
    reveal_strlit("t");
    reveal_strlit("tib");
    reveal_strlit("TiB");
    reveal_strlit("GiB");
    reveal_strlit("MiB");
    reveal_strlit("KiB");
    assert("kib"@.len() == 3 && "kib"@[0] == 'k');
    assert("mib"@.len() == 3 && "mib"@[0] == 'm');
    assert("gib"@.len() == 3 && "gib"@[0] == 'g');
    assert("tib"@.len() == 3 && "tib"@[0] == 't');
    assert(""@.len() == 0 && "b"@.len() == 1);
    assert("k"@.len() == 1 && "m"@.len() == 1 && "g"@.len() == 1 && "t"@.len() == 1);
    let n = n as nat;
    if n >= 1_099_511_627_776 && n % 1_099_511_627_776 == 0 {
        assert(text::lower_all("TiB"@) =~= "tib"@);
        reads_as(n / 1_099_511_627_776, "TiB"@, "tib"@, 1_099_511_627_776);
    } else if n >= 1_073_741_824 && n % 1_073_741_824 == 0 {
        assert(text::lower_all("GiB"@) =~= "gib"@);
        reads_as(n / 1_073_741_824, "GiB"@, "gib"@, 1_073_741_824);
    } else if n >= 1_048_576 && n % 1_048_576 == 0 {
        assert(text::lower_all("MiB"@) =~= "mib"@);
        reads_as(n / 1_048_576, "MiB"@, "mib"@, 1_048_576);
    } else if n >= 1024 && n % 1024 == 0 {
        assert(text::lower_all("KiB"@) =~= "kib"@);
        reads_as(n / 1024, "KiB"@, "kib"@, 1024);
    } else {
        assert(text::lower_all(""@) =~= ""@);
        reads_as(n, ""@, ""@, 1);
        assert(text::decimal(n) + ""@ =~= text::decimal(n));
    }
}

// ---- durations -------------------------------------------------------------

/// The nanoseconds that a trimmed text writes: whole seconds, or words.
pub open spec fn duration_of_text(s: Seq<char>) -> Result<nat, Seq<char>> {
    match text::parsed(s, u64::MAX as nat) {
        Some(secs) => Ok(secs * 1_000_000_000),
        None => time::human_duration(s),
    }
}

/// The complaint about a text that is no duration.
pub open spec fn duration_complaint(s: Seq<char>, what: Seq<char>) -> Seq<char> {
    "'"@ + s + "' is not a duration ("@ + what
        + "); write it as e.g. 30d, 2 weeks, 1h 30min, or a plain number of seconds"@
}

/// Whether a text can be read as a duration or told not to be one.
pub open spec fn duration_readable(s: Seq<char>) -> bool {
    let t = text::trimmed(s);
    text::parsed(t, u64::MAX as nat) is Some || time::modest(t)
}

/// Whether `s` can be given to [`duration`].
pub fn is_duration_readable(s: &str) -> (r: bool)
    ensures
        r == duration_readable(s@),
{
    let body: String = trim(s);
    parse_uint(chars_of(body.as_str()).as_slice(), u64::MAX).is_some() || time::is_modest(
        body.as_str(),
    )
}

/// Reads a duration in words, or a plain number of seconds; an error is in the
/// words of whoever found it.
pub fn read_duration(s: &str) -> (r: Result<Duration, String>)
    requires
        duration_readable(s@),
    ensures
        ({
            let t = text::trimmed(s@);
            &&& r is Ok <==> duration_of_text(t) is Ok
            &&& r is Ok ==> r->Ok_0@ == duration_of_text(t)->Ok_0
            &&& r is Err ==> r->Err_0@ == duration_of_text(t)->Err_0
        }),
{
    let body: String = trim(s);
    match parse_uint(chars_of(body.as_str()).as_slice(), u64::MAX) {
        Some(secs) => Ok(Duration::from_secs(secs)),
        None => parse_human(body.as_str()),
    }
}

/// The complaint about a text that is no duration.
pub fn not_a_duration(s: &str, what: &str) -> (r: String)
    ensures
        r@ == duration_complaint(s@, what@),
{
    let mut out: String = join3("'", s, "' is not a duration (");
    out.append(what);
    out.append("); write it as e.g. 30d, 2 weeks, 1h 30min, or a plain number of seconds");
    out
}

/// Parses a duration in words, or a plain number of seconds.
pub fn duration(s: &str) -> (r: Result<Duration, String>)
    requires
        duration_readable(s@),
    ensures
        ({
            let t = text::trimmed(s@);
            &&& r is Ok <==> duration_of_text(t) is Ok
            &&& r is Ok ==> r->Ok_0@ == duration_of_text(t)->Ok_0
            &&& r is Err ==> r->Err_0@ == duration_complaint(t, duration_of_text(t)->Err_0)
        }),
{
    match read_duration(s) {
        Ok(d) => Ok(d),
        Err(what) => Err(not_a_duration(trim(s).as_str(), what.as_str())),
    }
}

/// A duration in words, which read back as the same duration.
pub fn format_duration(d: Duration) -> (r: String)
    ensures
        r@ == time::human_text(d@),
        r@.len() > 0 && text::is_digit(r@[0]) && text::trimmed(r@) == r@,
        duration_readable(r@),
        duration_of_text(text::trimmed(r@)) == Ok::<nat, Seq<char>>(d@),
{
    let r: String = human_string(d);
    proof {
        let s = r@;
        trimmed_already(s);
        assert(text::parsed(s, u64::MAX as nat) is None) by {
            let body = text::unsigned(s);
            assert(body == s);
            if text::all_digits(body) {
                assert(text::is_digit(s[s.len() - 1]));
            }
        }
    }
    r
}

// ---- instants --------------------------------------------------------------

/// The instant that a trimmed text names: RFC 3339, or a day as its midnight.
pub open spec fn instant_of_text(s: Seq<char>) -> Option<Instant> {
    match time::rfc3339_instant(s) {
        Some(i) => Some(i),
        None => time::midnight_of(s),
    }
}

/// The complaint about a text that is no instant.
pub open spec fn instant_complaint(s: Seq<char>) -> Seq<char> {
    "'"@ + s + "' is not an instant; write it as e.g. 2026-01-01T00:00:00Z or 2026-01-01"@
}

/// Parses an instant: RFC 3339, or a plain day, which is its midnight in UTC.
pub fn instant(s: &str) -> (r: Result<Instant, String>)
    ensures
        ({
            let t = text::trimmed(s@);
            &&& r is Ok <==> instant_of_text(t) is Some
            &&& r is Ok ==> r->Ok_0 == instant_of_text(t)->0 && r->Ok_0.valid()
            &&& r is Err ==> r->Err_0@ == instant_complaint(t)
        }),
{
    let body: String = trim(s);
    match parse_rfc3339(body.as_str()) {
        Some(i) => Ok(i),
        None => match parse_day(body.as_str()) {
            Some(i) => Ok(i),
            None => Err(
                join3(
                    "'",
                    body.as_str(),
                    "' is not an instant; write it as e.g. 2026-01-01T00:00:00Z or 2026-01-01",
                ),
            ),
        },
    }
}

} // verus!
