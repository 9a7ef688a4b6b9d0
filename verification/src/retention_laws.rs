//! What holds of how far back reads are kept, and of what is said about it.

use vstd::prelude::*;
use vstd::string::*;
use crate::api::ReadModel;
use crate::configuration::FieldConfig;
use crate::memory::store_laws::a_sweep_drops_what_is_older_and_nothing_else;
use crate::memory::store_model::StoreModel;
use crate::retention::{
    cutoff_stamp, report_of, retention_read, retention_text, window, Report, RetentionModel,
    StoreConfig,
};
use crate::settings::{is_schedule_of, tells, ConfigRefusal, PatchError};
use crate::store::lifecycle::Usage;
use crate::sweeper::{policy_heard, swept_state, usage_of, SweepNews};
use crate::sync::schedule::FieldSchedule;
use crate::text;
use crate::text_laws;
use crate::time;
use crate::time::Instant;
use crate::time_laws;
use crate::time_laws::{ordinary, position};
use crate::units;

verus! {

// ---- cutoffs ---------------------------------------------------------------

/// The cutoff of a window lies exactly the window's length before the clock; to keep
/// forever has none; and a fixed floor is its own.
pub proof fn a_cutoff_is_a_distance(
    age: nat,
    now: Instant,
    j: Instant,
    floor: Seq<char>,
)
    ensures
        cutoff_stamp(RetentionModel::Forever, now) is None,
        cutoff_stamp(RetentionModel::Since(floor), now) == Some(floor),
        ordinary(now) && ordinary(j) && age <= time::STEP_MAX && position(j) == position(now) - age
            ==> cutoff_stamp(RetentionModel::Age(age), now) == if time::plain_year(j) {
            Some(time::rfc3339_text(j))
        } else {
            None
        },
        age > time::STEP_MAX ==> cutoff_stamp(RetentionModel::Age(age), now) is None,
{
    if ordinary(now) && ordinary(j) && position(j) == position(now) - age {
        time_laws::a_step_back_is_a_distance(now, age);
        time_laws::a_position_is_one_instant(time::earlier_by(now, age)->0, j);
    }
}

/// A year of four digits is one from the start of year 0 to the end of year 9999:
/// 719,528 days before the epoch, and up to 2,932,897 days after it.
pub proof fn a_plain_year_has_four_digits(i: Instant)
    ensures
        time::plain_year(i) <==> -719_528 * 86_400 <= i.secs < 2_932_897 * 86_400,
{
}

/// A pass of the sweeper keeps a read exactly if it is not stamped before the
/// cutoff, and every read where there is no cutoff; the latest reads stay.
pub proof fn a_pass_keeps_what_the_window_keeps(
    m: StoreModel,
    retain: RetentionModel,
    now: Instant,
    r: ReadModel,
)
    ensures
        swept_state(m, retain, now).latest == m.latest,
        swept_state(m, retain, now).entries.contains(r) <==> m.entries.contains(r) && !(
        cutoff_stamp(retain, now) is Some && text::lex_lt(r.at, cutoff_stamp(retain, now)->0)),
{
    if cutoff_stamp(retain, now) is Some {
        a_sweep_drops_what_is_older_and_nothing_else(m, cutoff_stamp(retain, now)->0, r);
    }
}

// ---- retentions in words ---------------------------------------------------

/// A window must have a length, and keeps exactly that.
pub proof fn a_window_has_a_length(nanos: nat)
    ensures
        nanos > 0 ==> window(nanos) == Ok::<RetentionModel, Seq<char>>(RetentionModel::Age(nanos)),
        window(0) is Err,
{
}

/// A retention is the word, in any case; else the window of its duration; else the
/// floor of its instant; else nothing. White space around it does not matter.
pub proof fn a_retention_is_a_word_a_duration_or_an_instant(
    before: Seq<char>,
    core: Seq<char>,
    after: Seq<char>,
    nanos: nat,
    what: Seq<char>,
)
    requires
        forall|k: int| 0 <= k < before.len() ==> text::is_white(#[trigger] before[k]),
        forall|k: int| 0 <= k < after.len() ==> text::is_white(#[trigger] after[k]),
        core.len() > 0 ==> !text::is_white(core[0]) && !text::is_white(core.last()),
        nanos > 0,
    ensures
        ({
            let s = before + core + after;
            let ok = Ok::<nat, Seq<char>>(nanos);
            let no = Err::<nat, Seq<char>>(what);
            let forever = text::lower_all(core) == "forever"@;
            &&& forever ==> retention_read(s, ok) == Ok::<RetentionModel, Seq<char>>(
                RetentionModel::Forever,
            ) && retention_read(s, no) == Ok::<RetentionModel, Seq<char>>(RetentionModel::Forever)
            &&& !forever ==> retention_read(s, ok) == Ok::<RetentionModel, Seq<char>>(
                RetentionModel::Age(nanos),
            )
            &&& !forever && units::instant_of_text(core) is Some ==> retention_read(s, no) == Ok::<
                RetentionModel,
                Seq<char>,
            >(RetentionModel::Since(time::rfc3339_text(units::instant_of_text(core)->0)))
            &&& !forever && units::instant_of_text(core) is None ==> retention_read(s, no) is Err
            &&& !forever ==> retention_read(s, Ok::<nat, Seq<char>>(0)) is Err
        }),
{
    reveal_strlit("forever");
    assert(text::lower_all("forever"@) =~= "forever"@);
    let none = Seq::<char>::empty();
    text_laws::trimming_takes_the_white_space_around(before, core, after);
    text_laws::trimming_takes_the_white_space_around(none, core, none);
    assert(none + core + none =~= core);
}

/// The words for each retention.
pub proof fn each_retention_has_its_words(age: nat, floor: Seq<char>)
    ensures
        retention_text(RetentionModel::Forever) == "forever"@,
        retention_text(RetentionModel::Age(age)) == time::human_text(age),
        retention_text(RetentionModel::Since(floor)) == "since "@ + floor,
{
}

// ---- what is said ----------------------------------------------------------

/// A store is over its cap once it holds a byte more than it; without a cap it
/// never is.
pub proof fn a_store_may_fill_its_cap(usage: Usage, cap: u64)
    ensures
        usage.budget is None ==> !usage.over(),
        usage.budget == Some(cap) ==> (usage.over() <==> usage.bytes >= cap + 1),
{
}

/// A report tells of a store over its cap before all else; else of how many reads
/// were evicted since the last one, if any were; else of nothing.
pub proof fn a_report_tells_what_is_new(usage: Usage, seen: u64, n: u64)
    ensures
        report_of(usage, seen) == Report::OverBudget <==> usage.over(),
        report_of(usage, seen) == (Report::Evicting { entries: n }) <==> !usage.over() && n > 0
            && usage.evicted == seen + n,
        report_of(usage, seen) == Report::Quiet <==> !usage.over() && usage.evicted <= seen,
        !usage.over() ==> report_of(usage, usage.evicted) == Report::Quiet,
{
}

/// What a store reports of itself is what it holds.
pub proof fn a_store_reports_what_it_holds(m: StoreModel)
    requires
        m.used() <= u64::MAX,
        m.entries.len() <= u64::MAX,
        m.evicted <= u64::MAX,
    ensures
        usage_of(m).bytes == m.used(),
        usage_of(m).entries == m.entries.len(),
        usage_of(m).budget == m.budget,
        usage_of(m).evicted == m.evicted,
{
}

// ---- policies and settings -------------------------------------------------

/// A policy is taken over while one can come; nothing else that is heard changes
/// the policy, and only the end of policies ends the wait for one.
pub proof fn a_policy_is_taken_over_while_one_can_come(
    policy: StoreConfig,
    next: StoreConfig,
    watching: bool,
)
    ensures
        policy_heard(policy, true, SweepNews::Policy(next)) == (next, true),
        policy_heard(policy, false, SweepNews::Policy(next)) == (policy, false),
        policy_heard(policy, watching, SweepNews::NoMorePolicies) == (policy, false),
        policy_heard(policy, watching, SweepNews::Tick) == (policy, watching),
{
}

/// A schedule polls exactly the fields of its settings, in their order, each as
/// often as its setting says.
pub proof fn a_schedule_is_that_of_its_settings(
    a: Seq<FieldSchedule>,
    fields: Seq<FieldConfig>,
    i: int,
)
    requires
        is_schedule_of(a, fields),
    ensures
        a.len() == fields.len(),
        0 <= i < fields.len() ==> a[i].name@ == fields[i].name@ && a[i].interval
            == fields[i].interval,
{
}

/// A refused change is told as what it is, in its own words.
pub proof fn a_refused_change_is_told_as_it_is(refusal: ConfigRefusal, msg: String)
    ensures
        tells(refusal, PatchError::Malformed(msg)) ==> refusal is Malformed && refusal->Malformed_0@
            == msg@,
        tells(refusal, PatchError::Fixed(msg)) ==> refusal is Fixed && refusal->Fixed_0@ == msg@,
{
}

} // verus!
