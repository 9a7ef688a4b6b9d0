//! Durations, instants and time stamps.

use vstd::prelude::*;
use crate::text;
use crate::text::{chars_of, less, white};

verus! {

pub const NANOS_PER_SEC: u64 = 1_000_000_000;

pub const NANOS_PER_MILLI: u64 = 1_000_000;

// ---- durations -------------------------------------------------------------

/// A span of time, to the nanosecond, of at most `u64::MAX` whole seconds.
///
/// Its view is its length in nanoseconds.
#[derive(Debug, Clone, Copy, PartialEq, Eq, Structural)]
pub struct Duration {
    nanos: u128,
}

/// The longest duration: `u64::MAX` seconds and all but one nanosecond more.
pub open spec fn duration_max() -> nat {
    18_446_744_073_709_551_615_999_999_999
}

impl View for Duration {
    type V = nat;

    closed spec fn view(&self) -> nat {
        self.nanos as nat
    }
}

impl Duration {
    #[verifier::type_invariant]
    spec fn wf(self) -> bool {
        self.nanos < 18_446_744_073_709_551_616_000_000_000
    }

    pub fn from_secs(secs: u64) -> (r: Self)
        ensures
            r@ == secs * 1_000_000_000,
    {
        Duration { nanos: secs as u128 * 1_000_000_000 }
    }

    pub fn from_millis(millis: u64) -> (r: Self)
        ensures
            r@ == millis * 1_000_000,
    {
        Duration { nanos: millis as u128 * 1_000_000 }
    }

    /// The duration of `secs` seconds and `nanos` nanoseconds.
    pub fn from_parts(secs: u64, nanos: u32) -> (r: Self)
        requires
            nanos < 1_000_000_000,
        ensures
            r@ == secs * 1_000_000_000 + nanos,
    {
        Duration { nanos: secs as u128 * 1_000_000_000 + nanos as u128 }
    }

    /// The whole seconds.
    pub fn as_secs(&self) -> (r: u64)
        ensures
            r == self@ / 1_000_000_000,
    {
        proof {
            use_type_invariant(self);
        }
        (self.nanos / 1_000_000_000) as u64
    }

    /// The whole length, in nanoseconds.
    pub fn as_nanos(&self) -> (r: u128)
        ensures
            r == self@,
    {
        self.nanos
    }

    /// The whole milliseconds.
    pub fn as_millis(&self) -> (r: u128)
        ensures
            r == self@ / 1_000_000,
    {
        self.nanos / 1_000_000
    }

    /// The nanoseconds past the last whole second.
    pub fn subsec_nanos(&self) -> (r: u32)
        ensures
            r == self@ % 1_000_000_000,
    {
        (self.nanos % 1_000_000_000) as u32
    }

    pub fn is_zero(&self) -> (r: bool)
        ensures
            r == (self@ == 0),
    {
        self.nanos == 0
    }

    /// This duration `n` times over.
    pub fn times(&self, n: u32) -> (r: Self)
        requires
            self@ * n <= duration_max(),
        ensures
            r@ == self@ * n,
    {
        proof {
            use_type_invariant(self);
        }
        assert(self.nanos * n < 0x1_0000_0000_0000_0000_0000_0000_0000_0000) by (nonlinear_arith)
            requires
                self.nanos < 18_446_744_073_709_551_616_000_000_000,
                n <= u32::MAX,
        ;
        assert(0 <= self.nanos * n) by (nonlinear_arith);
        Duration { nanos: self.nanos * (n as u128) }
    }

    /// What is left of this duration after so many nanoseconds, if anything is.
    pub fn less(&self, nanos: u128) -> (r: Option<Duration>)
        ensures
            r is Some <==> nanos < self@,
            r is Some ==> r->0@ == self@ - nanos,
    {
        proof {
            use_type_invariant(self);
        }
        if nanos < self.nanos {
            Some(Duration { nanos: self.nanos - nanos })
        } else {
            None
        }
    }

    /// Whether two durations have the same length.
    pub fn same_as(&self, other: &Duration) -> (r: bool)
        ensures
            r == (self@ == other@),
    {
        self.nanos == other.nanos
    }
}

/// Two durations of the same length are the same duration.
pub broadcast proof fn duration_ext(a: Duration, b: Duration)
    requires
        #[trigger] a@ == #[trigger] b@,
    ensures
        a == b,
{
}

// ---- time stamps -----------------------------------------------------------

/// An instant as text. Two stamps in the one rendering the crate writes compare
/// as plain text.
#[derive(Debug, PartialEq, Eq, PartialOrd, Ord, Hash)]
pub struct Timestamp(pub String);

impl View for Timestamp {
    type V = Seq<char>;

    open spec fn view(&self) -> Seq<char> {
        self.0@
    }
}

impl Clone for Timestamp {
    fn clone(&self) -> (r: Self)
        ensures
            r == *self,
    {
        Timestamp(self.0.clone())
    }
}

impl Timestamp {
    pub fn as_str(&self) -> (r: &str)
        ensures
            r@ == self@,
    {
        self.0.as_str()
    }

    /// Whether this stamp precedes `other` as text.
    pub fn precedes(&self, other: &Timestamp) -> (r: bool)
        ensures
            r == text::lex_lt(self@, other@),
    {
        less(self.0.as_str(), other.0.as_str())
    }
}

// ---- instants --------------------------------------------------------------

/// A point of UTC time: seconds since the epoch and nanoseconds into that
/// second. A leap second carries on the nanoseconds of the second before it, up
/// to two thousand million.
#[derive(Debug, Clone, Copy, PartialEq, Eq, Structural)]
pub struct Instant {
    pub secs: i64,
    pub nanos: u32,
}

/// The first second of the calendar: the start of year -262143.
pub const CALENDAR_START: i64 = -8_334_601_228_800;

/// The last second of the calendar: the end of year 262142.
pub const CALENDAR_END: i64 = 8_210_266_876_799;

/// The longest step through the calendar, in nanoseconds: `i64::MAX` milliseconds.
pub const STEP_MAX: u128 = 9_223_372_036_854_775_807_000_000;

pub open spec fn on_calendar(secs: int) -> bool {
    CALENDAR_START <= secs <= CALENDAR_END
}

impl Instant {
    /// A second of the calendar, and a position in it or in the leap second that
    /// follows the last second of a minute.
    pub open spec fn valid(self) -> bool {
        &&& on_calendar(self.secs as int)
        &&& self.nanos < 1_000_000_000 || (self.nanos < 2_000_000_000 && self.secs % 60 == 59)
    }

    /// Whether the year is written with four digits and no sign, give or take
    /// the day by which an offset moves the instant.
    pub open spec fn four_digit_year(self) -> bool {
        -62_167_305_540 <= self.secs <= 253_402_387_139
    }

    pub open spec fn before(self, other: Instant) -> bool {
        self.secs < other.secs || (self.secs == other.secs && self.nanos < other.nanos)
    }

    /// Order at the millisecond.
    pub open spec fn millis_before(self, other: Instant) -> bool {
        self.secs < other.secs || (self.secs == other.secs && self.nanos / 1_000_000
            < other.nanos / 1_000_000)
    }

    pub fn precedes(&self, other: &Instant) -> (r: bool)
        ensures
            r == self.before(*other),
    {
        self.secs < other.secs || (self.secs == other.secs && self.nanos < other.nanos)
    }
}

/// The instant at a distance of `nanos` nanoseconds from the start of second
/// `secs`, if the calendar reaches it.
pub open spec fn instant_at(secs: int, nanos: int) -> Option<Instant> {
    let s = secs + nanos / 1_000_000_000;
    if on_calendar(s) {
        Some(Instant { secs: s as i64, nanos: (nanos % 1_000_000_000) as u32 })
    } else {
        None
    }
}

/// The instant `d` nanoseconds after `i`. A step that stays within a leap second
/// stays in it; one that leaves it counts the leap second as the second before.
pub open spec fn later_by(i: Instant, d: nat) -> Option<Instant> {
    if i.nanos < 1_000_000_000 {
        instant_at(i.secs as int, i.nanos + d)
    } else if i.nanos + d < 2_000_000_000 && d < 1_000_000_000 {
        Some(Instant { secs: i.secs, nanos: (i.nanos + d) as u32 })
    } else {
        instant_at(i.secs as int, i.nanos - 1_000_000_000 + d)
    }
}

/// The instant `d` nanoseconds before `i`. A step of less than a second from a
/// leap second counts back through it; a longer one starts from the second after.
pub open spec fn earlier_by(i: Instant, d: nat) -> Option<Instant> {
    if i.nanos < 1_000_000_000 {
        instant_at(i.secs as int, i.nanos - d)
    } else if d < 1_000_000_000 {
        Some(Instant { secs: i.secs, nanos: (i.nanos - d) as u32 })
    } else {
        instant_at(i.secs + 1, i.nanos - 1_000_000_000 - d)
    }
}

/// What `chrono::DateTime::parse_from_rfc3339` makes of a text, as seconds and
/// nanoseconds of UTC.
pub uninterp spec fn rfc3339_instant(s: Seq<char>) -> Option<Instant>;

/// `chrono::DateTime::parse_from_rfc3339`: the instant that an RFC 3339 text
/// names, if it is one. A parsed year has four digits, the offset moves it by
/// less than a day, and a second of sixty is held as a leap second.
#[verifier::external_body]
pub(crate) fn parse_rfc3339(s: &str) -> (r: Option<Instant>)
    ensures
        r == rfc3339_instant(s@),
        r is Some ==> r->0.valid() && r->0.four_digit_year(),
{
    let parsed = chrono::DateTime::parse_from_rfc3339(s).ok()?;
    Some(Instant { secs: parsed.timestamp(), nanos: parsed.timestamp_subsec_nanos() })
}

/// What `chrono::NaiveDate::parse_from_str` makes of a text under `%Y-%m-%d`, as
/// the midnight of UTC that starts the day.
pub uninterp spec fn midnight_of(s: Seq<char>) -> Option<Instant>;

/// `chrono::NaiveDate::parse_from_str` with the form `%Y-%m-%d`: the day that
/// the text names, if it is one, as the midnight that starts it.
#[verifier::external_body]
pub(crate) fn parse_day(s: &str) -> (r: Option<Instant>)
    ensures
        r == midnight_of(s@),
        r is Some ==> r->0.valid() && r->0.nanos == 0,
{
    let day = chrono::NaiveDate::parse_from_str(s, "%Y-%m-%d").ok()?;
    let midnight = day.and_time(chrono::NaiveTime::MIN).and_utc();
    Some(Instant { secs: midnight.timestamp(), nanos: 0 })
}

/// `chrono::DateTime::checked_add_signed` on a UTC instant: the instant that
/// much later, or nothing past the end of the calendar.
#[verifier::external_body]
pub(crate) fn later(i: Instant, d: Duration) -> (r: Option<Instant>)
    requires
        i.valid(),
        d@ <= STEP_MAX,
    ensures
        r == later_by(i, d@),
{
    let at = chrono::DateTime::from_timestamp(i.secs, i.nanos)?;
    let step = chrono::TimeDelta::new(d.as_secs() as i64, d.subsec_nanos())?;
    let moved = at.checked_add_signed(step)?;
    Some(Instant { secs: moved.timestamp(), nanos: moved.timestamp_subsec_nanos() })
}

/// `chrono::DateTime::checked_sub_signed` on a UTC instant: the instant that
/// much earlier, or nothing before the start of the calendar.
#[verifier::external_body]
pub(crate) fn earlier(i: Instant, d: Duration) -> (r: Option<Instant>)
    requires
        i.valid(),
        d@ <= STEP_MAX,
    ensures
        r == earlier_by(i, d@),
{
    let at = chrono::DateTime::from_timestamp(i.secs, i.nanos)?;
    let step = chrono::TimeDelta::new(d.as_secs() as i64, d.subsec_nanos())?;
    let moved = at.checked_sub_signed(step)?;
    Some(Instant { secs: moved.timestamp(), nanos: moved.timestamp_subsec_nanos() })
}

/// What `chrono::DateTime::to_rfc3339_opts` writes for an instant of UTC, with
/// milliseconds and a `Z`.
pub uninterp spec fn rfc3339_text(i: Instant) -> Seq<char>;

/// Whether the year of an instant of UTC is one of 0 to 9999.
pub open spec fn plain_year(i: Instant) -> bool {
    -62_167_219_200 <= i.secs <= 253_402_300_799
}

/// `chrono::DateTime::to_rfc3339_opts` with milliseconds and a `Z`. From year 0
/// to 9999 the fields are of fixed width and written from the largest down, so
/// texts compare as the instants do at the millisecond.
#[verifier::external_body]
pub(crate) fn stamp(i: Instant) -> (r: Timestamp)
    requires
        i.valid(),
    ensures
        r@ == rfc3339_text(i),
        plain_year(i) ==> forall|j: Instant| #![trigger rfc3339_text(j)] j.valid() && plain_year(j)
            ==> (text::lex_lt(r@, rfc3339_text(j)) <==> i.millis_before(j)) && (text::lex_lt(
            rfc3339_text(j),
            r@,
        ) <==> j.millis_before(i)),
{
    let at = chrono::DateTime::from_timestamp(i.secs, i.nanos).expect("an instant of the calendar");
    Timestamp(at.to_rfc3339_opts(chrono::SecondsFormat::Millis, true))
}

// ---- durations in words ----------------------------------------------------

/// What `humantime::parse_duration` makes of a text: a number of nanoseconds, or
/// the words of its error.
pub uninterp spec fn human_duration(s: Seq<char>) -> Result<nat, Seq<char>>;

/// The nanoseconds of the longest unit whose name starts with `c`, and goes on
/// with `next` if that is given.
pub open spec fn unit_nanos(c: char, next: Option<char>) -> nat {
    if c == 'n' {
        1
    } else if c == 'u' || c == '\u{b5}' {
        1_000
    } else if c == 'm' && next == Some('s') {
        1_000_000
    } else if c == 's' {
        1_000_000_000
    } else if c == 'm' && next != Some('o') {
        60_000_000_000
    } else if c == 'h' {
        3_600_000_000_000
    } else if c == 'd' {
        86_400_000_000_000
    } else if c == 'w' {
        604_800_000_000_000
    } else if c == 'm' || c == 'M' {
        2_630_016_000_000_000
    } else if c == 'y' {
        31_557_600_000_000_000
    } else {
        1
    }
}

/// What the first `n` characters of a text come to: the nanoseconds of the numbers
/// whose unit has started, the number that is being written, and whether it has
/// come to its fraction. A fraction counts for one more of its unit.
pub open spec fn tally(s: Seq<char>, n: nat) -> (nat, nat, bool)
    decreases n,
{
    if n == 0 {
        (0, 0, false)
    } else {
        let (done, open, part) = tally(s, (n - 1) as nat);
        let c = s[n - 1];
        if text::is_digit(c) {
            if part {
                (done, open, part)
            } else {
                (done, open * 10 + (c as u32 - 48) as nat, part)
            }
        } else if text::is_white(c) {
            (done, open, part)
        } else if c == '.' {
            (done, open + 1, true)
        } else {
            let next = if n < s.len() {
                Some(s[n as int])
            } else {
                None
            };
            (done + open * unit_nanos(c, next), 0, false)
        }
    }
}

/// A length in nanoseconds that the durations of a text do not exceed together.
pub open spec fn reach(s: Seq<char>) -> nat {
    tally(s, s.len()).0 + tally(s, s.len()).1
}

/// Whether a text writes a single number, and no fraction.
pub open spec fn lone(s: Seq<char>) -> bool {
    forall|i: int, j: int|
        0 <= i < j < s.len() && !text::is_digit(#[trigger] s[i]) && !text::is_white(s[i])
            ==> !text::is_digit(#[trigger] s[j])
}

/// Whether a word starts at a position of a text.
pub open spec fn starts_word(s: Seq<char>, i: int) -> bool {
    &&& 0 <= i < s.len()
    &&& !text::is_digit(s[i]) && !text::is_white(s[i])
    &&& i == 0 || text::is_digit(s[i - 1]) || text::is_white(s[i - 1])
}

/// Whether what starts at a position of a text may be a unit of less than a second,
/// or a fraction of one.
pub open spec fn below_seconds(s: Seq<char>, i: int) -> bool {
    let c = s[i];
    ||| c == '.' || c == 'n' || c == 'u' || c == '\u{b5}'
    ||| c == 'm' && i + 1 < s.len() && (s[i + 1] == 's' || (s[i + 1] == 'i' && i + 2 < s.len()
        && s[i + 2] == 'l'))
}

/// Whether a text writes whole seconds alone.
pub open spec fn whole_seconds(s: Seq<char>) -> bool {
    forall|i: int| #[trigger] starts_word(s, i) ==> !below_seconds(s, i)
}

/// The first length past the longest duration, in nanoseconds.
pub const PAST_LONGEST: u128 = 18_446_744_073_709_551_616_000_000_000;

/// Whether a text writes a single number, or whole seconds alone, or durations that
/// do not come to more than the longest one together.
pub open spec fn modest(s: Seq<char>) -> bool {
    lone(s) || whole_seconds(s) || reach(s) < PAST_LONGEST
}

/// `humantime::parse_duration`: the duration that a text writes in words, or the
/// message of its error. Texts of several numbers that come to more than the
/// longest duration are left out where some of it is less than a second: where the
/// sum stands at the last representable second, a carry of exactly one second makes
/// the parser panic. A single number is never carried there, and whole seconds carry
/// nothing.
#[verifier::external_body]
pub(crate) fn parse_human(s: &str) -> (r: Result<Duration, String>)
    requires
        modest(s@),
    ensures
        r is Ok <==> human_duration(s@) is Ok,
        r is Ok ==> r->Ok_0@ == human_duration(s@)->Ok_0,
        r is Err ==> r->Err_0@ == human_duration(s@)->Err_0,
{
    match humantime::parse_duration(s) {
        Ok(d) => Ok(Duration::from_parts(d.as_secs(), d.subsec_nanos())),
        Err(e) => Err(e.to_string()),
    }
}

/// What `humantime::format_duration` writes for a duration in nanoseconds.
pub uninterp spec fn human_text(nanos: nat) -> Seq<char>;

/// `humantime::format_duration`: the duration in words. The text starts with a
/// digit and ends with a letter of ASCII, its numbers and units come to the
/// duration, and `humantime::parse_duration` reads it back from them.
#[verifier::external_body]
fn human_words(d: Duration) -> (r: String)
    ensures
        r@ == human_text(d@),
        r@.len() > 0,
        text::is_digit(r@[0]),
        97 <= r@.last() as u32 <= 122,
        reach(r@) == d@,
        human_duration(r@) is Ok,
        human_duration(r@)->Ok_0 == d@,
{
    let plain = std::time::Duration::new(d.as_secs(), d.subsec_nanos());
    humantime::format_duration(plain).to_string()
}

/// A duration in words, which can be read back.
pub(crate) fn human_string(d: Duration) -> (r: String)
    ensures
        r@ == human_text(d@),
        r@.len() > 0,
        text::is_digit(r@[0]),
        97 <= r@.last() as u32 <= 122,
        modest(r@),
        human_duration(r@) == Ok::<nat, Seq<char>>(d@),
{
    proof {
        use_type_invariant(d);
    }
    human_words(d)
}

fn nanos_of_unit(c: char, next: Option<char>) -> (r: u128)
    ensures
        r == unit_nanos(c, next),
        1 <= r <= 31_557_600_000_000_000,
{
    if c == 'n' {
        1
    } else if c == 'u' || c == '\u{b5}' {
        1_000
    } else if c == 'm' && matches!(next, Some('s')) {
        1_000_000
    } else if c == 's' {
        1_000_000_000
    } else if c == 'm' && !matches!(next, Some('o')) {
        60_000_000_000
    } else if c == 'h' {
        3_600_000_000_000
    } else if c == 'd' {
        86_400_000_000_000
    } else if c == 'w' {
        604_800_000_000_000
    } else if c == 'm' || c == 'M' {
        2_630_016_000_000_000
    } else if c == 'y' {
        31_557_600_000_000_000
    } else {
        1
    }
}

/// What a text comes to does not shrink as it goes on.
proof fn tally_grows(s: Seq<char>, n: nat)
    requires
        0 < n <= s.len(),
    ensures
        tally(s, (n - 1) as nat).0 + tally(s, (n - 1) as nat).1 <= tally(s, n).0 + tally(s, n).1,
{
    let (done, open, part) = tally(s, (n - 1) as nat);
    let c = s[n - 1];
    let next = if n < s.len() {
        Some(s[n as int])
    } else {
        None
    };
    let w = unit_nanos(c, next);
    assert(open * w >= open) by (nonlinear_arith)
        requires
            w >= 1,
            open >= 0,
    ;
}

/// Whether what a text comes to is less than one more than the longest duration.
fn within_reach(cs: &Vec<char>) -> (r: bool)
    ensures
        r == (reach(cs@) < PAST_LONGEST),
{
    let mut done: u128 = 0;
    let mut open: u128 = 0;
    let mut part: bool = false;
    let mut small: bool = true;
    let mut i: usize = 0;
    while i < cs.len()
        invariant
            i <= cs.len(),
            small ==> (done as nat, open as nat, part) == tally(cs@, i as nat) && done + open
                < PAST_LONGEST,
            !small ==> tally(cs@, i as nat).0 + tally(cs@, i as nat).1 >= PAST_LONGEST,
        decreases cs.len() - i,
    {
        proof {
            tally_grows(cs@, (i + 1) as nat);
        }
        let c: char = cs[i];
        let d: u32 = c as u32;
        if !small {
        } else if 48 <= d && d <= 57 {
            if !part {
                open = open * 10 + (d - 48) as u128;
                if done + open >= PAST_LONGEST {
                    small = false;
                }
            }
        } else if white(c) {
        } else if c == '.' {
            open = open + 1;
            part = true;
            if done + open >= PAST_LONGEST {
                small = false;
            }
        } else {
            let next: Option<char> = if i + 1 < cs.len() {
                Some(cs[i + 1])
            } else {
                None
            };
            match open.checked_mul(nanos_of_unit(c, next)) {
                Some(item) => {
                    if item >= PAST_LONGEST || done + item >= PAST_LONGEST {
                        small = false;
                    } else {
                        done = done + item;
                        open = 0;
                        part = false;
                    }
                },
                None => {
                    small = false;
                },
            }
        }
        i = i + 1;
    }
    small
}

/// Whether a text writes a single number, and no fraction.
fn is_lone(cs: &Vec<char>) -> (r: bool)
    ensures
        r == lone(cs@),
{
    let mut word: Option<usize> = None;
    let mut i: usize = 0;
    while i < cs.len()
        invariant
            i <= cs.len(),
            word is Some ==> word->0 < i && !text::is_digit(cs@[word->0 as int]) && !text::is_white(
                cs@[word->0 as int],
            ),
            word is None ==> forall|x: int|
                0 <= x < i ==> text::is_digit(#[trigger] cs@[x]) || text::is_white(cs@[x]),
            forall|x: int, y: int|
                0 <= x < y < i && !text::is_digit(#[trigger] cs@[x]) && !text::is_white(cs@[x])
                    ==> !text::is_digit(#[trigger] cs@[y]),
        decreases cs.len() - i,
    {
        let d: u32 = cs[i] as u32;
        if 48 <= d && d <= 57 {
            if let Some(x) = word {
                proof {
                    assert(!text::is_digit(cs@[x as int]) && text::is_digit(cs@[i as int]));
                }
                return false;
            }
        } else if word.is_none() && !white(cs[i]) {
            word = Some(i);
        }
        i = i + 1;
    }
    true
}

/// Whether a text writes whole seconds alone.
fn is_whole_seconds(cs: &Vec<char>) -> (r: bool)
    ensures
        r == whole_seconds(cs@),
{
    let mut i: usize = 0;
    while i < cs.len()
        invariant
            i <= cs.len(),
            forall|x: int| x < i && #[trigger] starts_word(cs@, x) ==> !below_seconds(cs@, x),
        decreases cs.len() - i,
    {
        let c: char = cs[i];
        let d: u32 = c as u32;
        let inside: bool = (48 <= d && d <= 57) || white(c);
        let opens: bool = !inside && (i == 0 || (48 <= cs[i - 1] as u32 && cs[i - 1] as u32 <= 57)
            || white(cs[i - 1]));
        let small: bool = c == '.' || c == 'n' || c == 'u' || c == '\u{b5}' || (c == 'm' && i + 1
            < cs.len() && (cs[i + 1] == 's' || (cs[i + 1] == 'i' && i + 2 < cs.len() && cs[i + 2]
            == 'l')));
        if opens && small {
            proof {
                assert(starts_word(cs@, i as int) && below_seconds(cs@, i as int));
            }
            return false;
        }
        i = i + 1;
    }
    true
}

/// Whether `s` writes a single number, or whole seconds alone, or durations that
/// come to no more than the longest one together.
pub fn is_modest(s: &str) -> (r: bool)
    ensures
        r == modest(s@),
{
    let cs: Vec<char> = chars_of(s);
    is_lone(&cs) || is_whole_seconds(&cs) || within_reach(&cs)
}

/// What `std::time::Duration`'s `Debug` writes for a duration of so many
/// nanoseconds.
pub uninterp spec fn debug_text(nanos: nat) -> Seq<char>;

/// `std::time::Duration`'s `Debug`, the short form with one unit.
#[verifier::external_body]
pub(crate) fn debug_string(d: Duration) -> (r: String)
    ensures
        r@ == debug_text(d@),
{
    format!("{:?}", std::time::Duration::new(d.as_secs(), d.subsec_nanos()))
}

} // verus!
