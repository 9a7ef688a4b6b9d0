//! How far back recorded reads are kept, and what a sweep has to say.

use vstd::prelude::*;
use vstd::string::*;
use crate::store::lifecycle::{Swept, Usage};
use crate::text;
use crate::text::{decimal_string, join2, join3, same_ignoring_case, trim};
use crate::time;
use crate::time::{earlier, stamp, Duration, Instant, Timestamp};
use crate::units;

verus! {

/// How far back the store keeps recorded reads.
#[derive(Debug, PartialEq, Eq)]
pub enum Retention {
    /// Nothing ever expires.
    Forever,
    /// The last stretch of history, measured back from each sweep.
    Age(Duration),
    /// Everything stamped at or after a fixed instant.
    Since(Timestamp),
}

pub enum RetentionModel {
    Forever,
    Age(nat),
    Since(Seq<char>),
}

impl View for Retention {
    type V = RetentionModel;

    open spec fn view(&self) -> RetentionModel {
        match self {
            Retention::Forever => RetentionModel::Forever,
            Retention::Age(age) => RetentionModel::Age(age@),
            Retention::Since(floor) => RetentionModel::Since(floor@),
        }
    }
}

impl Clone for Retention {
    fn clone(&self) -> (r: Self)
        ensures
            r == *self,
    {
        match self {
            Retention::Forever => Retention::Forever,
            Retention::Age(age) => Retention::Age(*age),
            Retention::Since(floor) => Retention::Since(floor.clone()),
        }
    }
}

/// The oldest stamp worth keeping as of `now`. A window that reaches further back
/// than year 0, where stamps no longer compare as the instants do, keeps
/// everything.
pub open spec fn cutoff_stamp(retention: RetentionModel, now: Instant) -> Option<Seq<char>> {
    match retention {
        RetentionModel::Forever => None,
        RetentionModel::Age(age) => if age > time::STEP_MAX {
            None
        } else {
            match time::earlier_by(now, age) {
                Some(i) => if time::plain_year(i) {
                    Some(time::rfc3339_text(i))
                } else {
                    None
                },
                None => None,
            }
        },
        RetentionModel::Since(floor) => Some(floor),
    }
}

/// The words for a retention.
pub open spec fn retention_text(retention: RetentionModel) -> Seq<char> {
    match retention {
        RetentionModel::Forever => "forever"@,
        RetentionModel::Age(age) => time::human_text(age),
        RetentionModel::Since(floor) => "since "@ + floor,
    }
}

proof fn earlier_is_valid(i: Instant, d: nat)
    requires
        i.valid(),
        time::earlier_by(i, d) is Some,
    ensures
        time::earlier_by(i, d)->0.valid(),
{
}

impl Retention {
    /// The oldest stamp worth keeping as of `now`, or nothing to keep everything. A
    /// read stamped between year 0 and year 9999 falls before the cutoff of a window
    /// if and only if its instant does, at the millisecond: none stamped at the
    /// cutoff or after it ever expires.
    pub fn cutoff(&self, now: Instant) -> (r: Option<Timestamp>)
        requires
            now.valid(),
        ensures
            r is Some <==> cutoff_stamp(self@, now) is Some,
            r is Some ==> r->0@ == cutoff_stamp(self@, now)->0,
            r is Some ==> (self@ matches RetentionModel::Age(age) ==> forall|j: Instant|
                #![trigger time::rfc3339_text(j)]
                j.valid() && time::plain_year(j) ==> (text::lex_lt(time::rfc3339_text(j), r->0@)
                    <==> j.millis_before(time::earlier_by(now, age)->0))),
    {
        match self {
            Retention::Forever => None,
            Retention::Age(age) => {
                if age.as_nanos() > time::STEP_MAX {
                    return None;
                }
                match earlier(now, *age) {
                    Some(i) => {
                        if i.secs < -62_167_219_200 || i.secs > 253_402_300_799 {
                            return None;
                        }
                        proof {
                            earlier_is_valid(now, age@);
                        }
                        Some(stamp(i))
                    },
                    None => None,
                }
            },
            Retention::Since(floor) => Some(floor.clone()),
        }
    }

    /// The retention in words. Keeping forever, and a window of any length, read
    /// back from them as they are.
    pub fn describe(&self) -> (r: String)
        ensures
            r@ == retention_text(self@),
            self@ is Forever ==> retention_of_text(r@) == Ok::<RetentionModel, Seq<char>>(self@),
            self@ matches RetentionModel::Age(age) && 0 < age ==> units::duration_readable(
                text::trimmed(r@),
            ) && retention_of_text(r@) == Ok::<RetentionModel, Seq<char>>(self@),
    {
        match self {
            Retention::Forever => {
                proof {
                    reveal_strlit("forever");
                    units::trimmed_already("forever"@);
                }
                "forever".to_owned()
            },
            Retention::Age(age) => {
                let r: String = units::format_duration(*age);
                proof {
                    reveal_strlit("forever");
                    assert(text::lower_all("forever"@)[0] == 'f');
                    assert(text::lower_all(r@)[0] == r@[0]);
                }
                r
            },
            Retention::Since(floor) => join2("since ", floor.as_str()),
        }
    }
}

/// The complaint about a window of no length.
pub open spec fn zero_complaint() -> Seq<char> {
    "a zero retention window is ambiguous: write 'forever' to keep everything, or a duration such as '1h' to keep almost nothing"@
}

/// The retention of a window of this length, which must have one.
pub open spec fn window(nanos: nat) -> Result<RetentionModel, Seq<char>> {
    if nanos == 0 {
        Err(zero_complaint())
    } else {
        Ok(RetentionModel::Age(nanos))
    }
}

/// The retention that a text writes, with what reading it as a duration came to:
/// the word, that duration, or an instant.
pub open spec fn retention_read(s: Seq<char>, words: Result<nat, Seq<char>>) -> Result<
    RetentionModel,
    Seq<char>,
> {
    let t = text::trimmed(s);
    if text::lower_all(t) == text::lower_all("forever"@) {
        Ok(RetentionModel::Forever)
    } else {
        let u = text::trimmed(t);
        match words {
            Ok(nanos) => window(nanos),
            Err(what) => match units::instant_of_text(u) {
                Some(i) => Ok(RetentionModel::Since(time::rfc3339_text(i))),
                None => Err(
                    "invalid retention: "@ + units::duration_complaint(u, what) + "; and "@
                        + units::instant_complaint(u),
                ),
            },
        }
    }
}

/// The retention that a text writes: the word, a duration, or an instant.
pub open spec fn retention_of_text(s: Seq<char>) -> Result<RetentionModel, Seq<char>> {
    retention_read(s, units::duration_of_text(text::trimmed(text::trimmed(s))))
}

/// What came of reading a duration, as a model.
pub open spec fn words_view(words: Result<Duration, String>) -> Result<nat, Seq<char>> {
    match words {
        Ok(d) => Ok(d@),
        Err(e) => Err(e@),
    }
}

/// What came of reading a retention, as a model.
pub open spec fn reading(r: Result<Retention, String>) -> Result<RetentionModel, Seq<char>> {
    match r {
        Ok(x) => Ok(x@),
        Err(e) => Err(e@),
    }
}

/// The retention of a window, which must have a length: a window of none could
/// mean to keep everything as well as nothing.
pub fn finite(age: Duration) -> (r: Result<Retention, String>)
    ensures
        reading(r) == window(age@),
{
    if age.is_zero() {
        Err(
            "a zero retention window is ambiguous: write 'forever' to keep everything, or a duration such as '1h' to keep almost nothing".to_owned(),
        )
    } else {
        Ok(Retention::Age(age))
    }
}

/// Whether a floor that was read from an instant of a year of four digits divides
/// the stamps of such years as the instant divides theirs, at the millisecond.
pub open spec fn floor_orders(r: Result<Retention, String>, at: Option<Instant>) -> bool {
    r matches Ok(Retention::Since(floor)) ==> at is Some && (time::plain_year(at->0)
        ==> forall|j: Instant|
        #![trigger time::rfc3339_text(j)]
        j.valid() && time::plain_year(j) ==> (text::lex_lt(time::rfc3339_text(j), floor@)
            <==> j.millis_before(at->0)))
}

/// Reads a retention written as text, once it has been read as a duration.
pub fn retention_from_words(s: &str, words: Result<Duration, String>) -> (r: Result<
    Retention,
    String,
>)
    ensures
        reading(r) == retention_read(s@, words_view(words)),
        floor_orders(r, units::instant_of_text(text::trimmed(text::trimmed(s@)))),
{
    let body: String = trim(s);
    if same_ignoring_case(body.as_str(), "forever") {
        return Ok(Retention::Forever);
    }
    match words {
        Ok(age) => finite(age),
        Err(what) => match units::instant(body.as_str()) {
            Ok(floor) => Ok(Retention::Since(stamp(floor))),
            Err(instant_err) => {
                let duration_err: String = units::not_a_duration(
                    trim(body.as_str()).as_str(),
                    what.as_str(),
                );
                let mut out: String = join3(
                    "invalid retention: ",
                    duration_err.as_str(),
                    "; and ",
                );
                out.append(instant_err.as_str());
                Err(out)
            },
        },
    }
}

/// Reads a retention written as text.
pub fn retention_from_text(s: &str) -> (r: Result<Retention, String>)
    requires
        units::duration_readable(text::trimmed(s@)),
    ensures
        reading(r) == retention_of_text(s@),
        floor_orders(r, units::instant_of_text(text::trimmed(text::trimmed(s@)))),
{
    let body: String = trim(s);
    let words: Result<Duration, String> = units::read_duration(body.as_str());
    retention_from_words(s, words)
}

/// Reads a retention written as a number of seconds.
pub fn retention_from_secs(secs: u64) -> (r: Result<Retention, String>)
    ensures
        reading(r) == window((secs * 1_000_000_000) as nat),
{
    finite(Duration::from_secs(secs))
}

/// The decimal form of a number below zero.
pub open spec fn negative_decimal(n: int) -> Seq<char> {
    "-"@ + text::decimal((-n) as nat)
}

/// Reads a retention written as a signed number of seconds.
pub fn retention_from_signed(secs: i64) -> (r: Result<Retention, String>)
    ensures
        secs < 0 ==> reading(r) == Err::<RetentionModel, Seq<char>>(
            "retention cannot be negative: "@ + negative_decimal(secs as int),
        ),
        secs >= 0 ==> reading(r) == window((secs * 1_000_000_000) as nat),
{
    if secs < 0 {
        let size: u64 = if secs == i64::MIN {
            9_223_372_036_854_775_808
        } else {
            (0 - secs) as u64
        };
        let shown: String = join2("-", decimal_string(size).as_str());
        Err(join2("retention cannot be negative: ", shown.as_str()))
    } else {
        retention_from_secs(secs as u64)
    }
}

// ---- laws ------------------------------------------------------------------

/// The cutoff of a rolling window slides with the clock: as much later as the
/// clock is, so much later is the cutoff.
pub proof fn an_age_cutoff_moves_with_the_clock(now: Instant, age: nat, passed: nat)
    requires
        now.valid(),
        now.nanos < 1_000_000_000,
        time::earlier_by(now, age) is Some,
        time::later_by(now, passed) is Some,
    ensures
        time::earlier_by(time::later_by(now, passed)->0, age) == time::later_by(
            time::earlier_by(now, age)->0,
            passed,
        ),
{
}

/// The cutoff of a fixed floor does not move.
pub proof fn a_fixed_floor_does_not_move(floor: Seq<char>, a: Instant, b: Instant)
    ensures
        cutoff_stamp(RetentionModel::Since(floor), a) == cutoff_stamp(
            RetentionModel::Since(floor),
            b,
        ),
{
}

// ---- what a sweep has to say -----------------------------------------------

/// What a reading of the store's usage is worth saying.
#[derive(Debug, Clone, Copy, PartialEq, Eq, Structural)]
pub enum Report {
    /// Within budget, and nothing was evicted since the last reading.
    Quiet,
    /// The budget dropped this many unexpired reads since the last reading.
    Evicting { entries: u64 },
    /// Nothing is left to evict, and the store is still over budget.
    OverBudget,
}

pub open spec fn report_of(usage: Usage, seen_evicted: u64) -> Report {
    if usage.over() {
        Report::OverBudget
    } else if usage.evicted > seen_evicted {
        Report::Evicting { entries: (usage.evicted - seen_evicted) as u64 }
    } else {
        Report::Quiet
    }
}

/// What `usage` is worth saying, with `seen_evicted` what was said before.
pub fn report(usage: &Usage, seen_evicted: u64) -> (r: Report)
    ensures
        r == report_of(*usage, seen_evicted),
{
    if usage.over_budget() {
        Report::OverBudget
    } else if usage.evicted > seen_evicted {
        Report::Evicting { entries: usage.evicted - seen_evicted }
    } else {
        Report::Quiet
    }
}

/// How loudly a notice is given.
#[derive(Debug, Clone, Copy, PartialEq, Eq, Structural)]
pub enum Level {
    Debug,
    Info,
    Warn,
}

/// A line for the log.
#[derive(Debug, Clone, Copy, PartialEq, Eq)]
pub struct Notice {
    pub level: Level,
    pub message: &'static str,
}

/// The line for a report.
pub fn announce(report: Report) -> (r: Notice)
    ensures
        r.level == (if report == Report::Quiet {
            Level::Debug
        } else {
            Level::Warn
        }),
        r.message@ == match report {
            Report::Quiet => "store swept"@,
            Report::Evicting { .. } =>
                "the memory budget is discarding reads the retention window would have kept; raise store.max_memory or shorten store.retain"@,
            Report::OverBudget =>
                "the store cannot fit within store.max_memory even with no history at all; the budget is below what one reading per polled field costs"@,
        },
{
    match report {
        Report::Quiet => Notice { level: Level::Debug, message: "store swept" },
        Report::Evicting { .. } => Notice {
            level: Level::Warn,
            message:
                "the memory budget is discarding reads the retention window would have kept; raise store.max_memory or shorten store.retain",
        },
        Report::OverBudget => Notice {
            level: Level::Warn,
            message:
                "the store cannot fit within store.max_memory even with no history at all; the budget is below what one reading per polled field costs",
        },
    }
}

/// The line for a sweep that worked.
pub fn announce_sweep(swept: &Swept) -> (r: Notice)
    ensures
        r.level == (if swept.entries > 0 {
            Level::Info
        } else {
            Level::Debug
        }),
        r.message@ == (if swept.entries > 0 {
            "expired reads removed from the store"@
        } else {
            "nothing had expired"@
        }),
{
    if swept.entries > 0 {
        Notice { level: Level::Info, message: "expired reads removed from the store" }
    } else {
        Notice { level: Level::Debug, message: "nothing had expired" }
    }
}

/// What the sweeper enforces: how far back to keep, how often to sweep, and the
/// cap on memory.
#[derive(Debug, PartialEq, Eq)]
pub struct StoreConfig {
    pub retain: Retention,
    /// How often to sweep, if at all.
    pub cleanup: Option<Duration>,
    pub max_memory: Option<u64>,
}

impl Clone for StoreConfig {
    fn clone(&self) -> (r: Self)
        ensures
            r == *self,
    {
        StoreConfig {
            retain: self.retain.clone(),
            cleanup: self.cleanup,
            max_memory: self.max_memory,
        }
    }
}

/// The line for a policy that takes effect.
pub fn announce_policy(policy: &StoreConfig) -> (r: Notice)
    ensures
        r.level == (if policy.cleanup is None {
            Level::Warn
        } else {
            Level::Info
        }),
        r.message@ == (if policy.cleanup is None {
            "store cleanup is disabled; recorded history will be bounded by the memory budget alone"@
        } else {
            "store sweeper running"@
        }),
{
    match policy.cleanup {
        None => Notice {
            level: Level::Warn,
            message:
                "store cleanup is disabled; recorded history will be bounded by the memory budget alone",
        },
        Some(_) => Notice { level: Level::Info, message: "store sweeper running" },
    }
}

/// What one pass of the sweeper remembers for the next.
#[derive(Debug, Clone, Copy, PartialEq, Eq, Structural)]
pub struct SweepState {
    pub seen_evicted: u64,
}

impl SweepState {
    pub fn new() -> (r: Self)
        ensures
            r.seen_evicted == 0,
    {
        SweepState { seen_evicted: 0 }
    }

    /// Takes a reading: what it is worth saying since the last.
    pub fn take_reading(&mut self, usage: &Usage) -> (r: Report)
        ensures
            r == report_of(*usage, old(self).seen_evicted),
            final(self).seen_evicted == usage.evicted,
    {
        let r: Report = report(usage, self.seen_evicted);
        self.seen_evicted = usage.evicted;
        r
    }
}

} // verus!
