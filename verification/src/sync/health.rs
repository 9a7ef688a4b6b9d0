//! What a run of polls is worth saying.

use vstd::prelude::*;
use crate::devices::device::DeviceError;
use crate::protocol::value::Value;
use crate::retention::{Level, Notice};

verus! {

/// What a poll loop believes of its field on its device.
#[derive(Debug, Clone, Copy, PartialEq, Eq, Structural)]
pub enum Health {
    Up,
    Down,
}

/// The outcome of a poll, as far as health is concerned.
#[derive(Debug, Clone, Copy, PartialEq, Eq, Structural)]
pub enum Contact {
    /// The device answered.
    Reached,
    /// The device answered, and the answer was no.
    Refused,
    /// An attempt to reach it failed.
    Failed,
    /// No attempt was made: a dial has failed only just now.
    Gated,
    /// No attempt was made: the field is vetoed on this device.
    Vetoed,
}

pub open spec fn contact_of(outcome: Result<Value, DeviceError>) -> Contact {
    match outcome {
        Ok(_) => Contact::Reached,
        Err(DeviceError::Cold { .. }) => Contact::Gated,
        Err(DeviceError::Disabled { .. }) => Contact::Vetoed,
        Err(e) => if e.refuses() {
            Contact::Refused
        } else {
            Contact::Failed
        },
    }
}

impl Contact {
    /// Classifies the outcome of a poll.
    pub fn of(outcome: &Result<Value, DeviceError>) -> (r: Self)
        ensures
            r == contact_of(*outcome),
    {
        match outcome {
            Ok(_) => Contact::Reached,
            Err(DeviceError::Cold { .. }) => Contact::Gated,
            Err(DeviceError::Disabled { .. }) => Contact::Vetoed,
            Err(e) => if e.is_refusal() {
                Contact::Refused
            } else {
                Contact::Failed
            },
        }
    }
}

/// What a poll is worth saying.
#[derive(Debug, Clone, Copy, PartialEq, Eq, Structural)]
pub enum Report {
    /// Nothing changed and nothing failed.
    Silent,
    /// The field has just stopped being readable.
    Onset,
    /// It still is not readable.
    Ongoing,
    /// It is readable again.
    Recovery,
    /// The device answered, and refused.
    Refusal,
}

/// The health after a poll.
pub open spec fn health_after(before: Health, contact: Contact) -> Health {
    match contact {
        Contact::Reached => Health::Up,
        Contact::Failed | Contact::Gated => Health::Down,
        Contact::Refused | Contact::Vetoed => before,
    }
}

/// What a poll is worth saying, given the health before it.
pub open spec fn report_on(before: Health, contact: Contact) -> Report {
    match contact {
        Contact::Reached => if before == Health::Down {
            Report::Recovery
        } else {
            Report::Silent
        },
        Contact::Failed => if before == Health::Up {
            Report::Onset
        } else {
            Report::Ongoing
        },
        Contact::Gated => Report::Ongoing,
        Contact::Refused => Report::Refusal,
        Contact::Vetoed => Report::Silent,
    }
}

/// One step of the health machine.
pub fn step(before: Health, contact: Contact) -> (r: (Health, Report))
    ensures
        r == (health_after(before, contact), report_on(before, contact)),
{
    match (before, contact) {
        (Health::Up, Contact::Reached) => (Health::Up, Report::Silent),
        (Health::Up, Contact::Failed) => (Health::Down, Report::Onset),
        (Health::Up, Contact::Gated) => (Health::Down, Report::Ongoing),
        (Health::Down, Contact::Reached) => (Health::Up, Report::Recovery),
        (Health::Down, Contact::Failed) => (Health::Down, Report::Ongoing),
        (Health::Down, Contact::Gated) => (Health::Down, Report::Ongoing),
        (health, Contact::Refused) => (health, Report::Refusal),
        (health, Contact::Vetoed) => (health, Report::Silent),
    }
}

/// The line for a report, where there is one.
pub fn announce(report: Report) -> (r: Option<Notice>)
    ensures
        r is None <==> report == Report::Silent,
        report == Report::Onset ==> r->0.level == Level::Warn && r->0.message@
            == "polling this field started failing"@,
        report == Report::Ongoing ==> r->0.level == Level::Debug && r->0.message@
            == "polling this field is still failing"@,
        report == Report::Recovery ==> r->0.level == Level::Info && r->0.message@
            == "polling this field recovered"@,
        report == Report::Refusal ==> r->0.level == Level::Debug && r->0.message@
            == "the device refused this field"@,
{
    match report {
        Report::Silent => None,
        Report::Onset => Some(
            Notice { level: Level::Warn, message: "polling this field started failing" },
        ),
        Report::Ongoing => Some(
            Notice { level: Level::Debug, message: "polling this field is still failing" },
        ),
        Report::Recovery => Some(
            Notice { level: Level::Info, message: "polling this field recovered" },
        ),
        Report::Refusal => Some(
            Notice { level: Level::Debug, message: "the device refused this field" },
        ),
    }
}

// ---- laws ------------------------------------------------------------------

/// The health after a run of polls.
pub open spec fn health_along(before: Health, run: Seq<Contact>) -> Health
    decreases run.len(),
{
    if run.len() == 0 {
        before
    } else {
        health_after(health_along(before, run.drop_last()), run.last())
    }
}

/// What each poll of a run is worth saying.
pub open spec fn reports_along(before: Health, run: Seq<Contact>) -> Seq<Report> {
    Seq::new(run.len(), |i: int| report_on(health_along(before, run.take(i)), run[i]))
}

proof fn along_step(before: Health, run: Seq<Contact>, i: int)
    requires
        0 <= i < run.len(),
    ensures
        health_along(before, run.take(i + 1)) == health_after(
            health_along(before, run.take(i)),
            run[i],
        ),
{
    let next = run.take(i + 1);
    assert(next.drop_last() =~= run.take(i));
    assert(next.last() == run[i]);
}

/// A field that answers every poll costs no line at all.
pub proof fn a_healthy_field_is_silent(run: Seq<Contact>, i: int)
    requires
        forall|j: int| 0 <= j < run.len() ==> run[j] == Contact::Reached,
        0 <= i < run.len(),
    ensures
        reports_along(Health::Up, run)[i] == Report::Silent,
{
    up_while_reached(run, i);
}

proof fn up_while_reached(run: Seq<Contact>, i: int)
    requires
        forall|j: int| 0 <= j < run.len() ==> run[j] == Contact::Reached,
        0 <= i <= run.len(),
    ensures
        health_along(Health::Up, run.take(i)) == Health::Up,
    decreases i,
{
    if i > 0 {
        up_while_reached(run, i - 1);
        along_step(Health::Up, run, i - 1);
    }
}

proof fn down_until_reached(before: Health, run: Seq<Contact>, i: int, j: int)
    requires
        0 <= i < j <= run.len(),
        run[i] == Contact::Failed || run[i] == Contact::Gated,
        forall|k: int| i < k < j ==> run[k] != Contact::Reached,
    ensures
        health_along(before, run.take(j)) == Health::Down,
    decreases j,
{
    along_step(before, run, j - 1);
    if j > i + 1 {
        down_until_reached(before, run, i, j - 1);
    }
}

/// An outage costs one onset, however long it lasts: between two onsets a poll
/// got through.
pub proof fn an_outage_costs_one_onset(before: Health, run: Seq<Contact>, i: int, j: int)
    requires
        0 <= i < j < run.len(),
        reports_along(before, run)[i] == Report::Onset,
        reports_along(before, run)[j] == Report::Onset,
    ensures
        exists|k: int| i < k < j && run[k] == Contact::Reached,
{
    if forall|k: int| i < k < j ==> run[k] != Contact::Reached {
        down_until_reached(before, run, i, j);
    }
}

/// A recovery is announced once: between two of them a poll failed or was gated.
pub proof fn a_recovery_is_announced_once(before: Health, run: Seq<Contact>, i: int, j: int)
    requires
        0 <= i < j < run.len(),
        reports_along(before, run)[i] == Report::Recovery,
        reports_along(before, run)[j] == Report::Recovery,
    ensures
        exists|k: int| i < k < j && (run[k] == Contact::Failed || run[k] == Contact::Gated),
{
    if forall|k: int| i < k < j ==> run[k] != Contact::Failed && run[k] != Contact::Gated {
        up_until_failed(before, run, i, j);
    }
}

proof fn up_until_failed(before: Health, run: Seq<Contact>, i: int, j: int)
    requires
        0 <= i < j <= run.len(),
        run[i] == Contact::Reached,
        forall|k: int| i < k < j ==> run[k] != Contact::Failed && run[k] != Contact::Gated,
    ensures
        health_along(before, run.take(j)) == Health::Up,
    decreases j,
{
    along_step(before, run, j - 1);
    if j > i + 1 {
        up_until_failed(before, run, i, j - 1);
    }
}

/// A gated poll never announces an onset, whatever came before it.
pub proof fn a_gated_poll_never_announces_an_onset(before: Health, run: Seq<Contact>, i: int)
    requires
        0 <= i < run.len(),
        run[i] == Contact::Gated,
    ensures
        reports_along(before, run)[i] == Report::Ongoing,
{
}

/// A failure after an outage has ended is an onset afresh.
pub proof fn the_machine_rearms(before: Health, run: Seq<Contact>, i: int)
    requires
        0 < i < run.len(),
        run[i - 1] == Contact::Reached,
        run[i] == Contact::Failed,
    ensures
        reports_along(before, run)[i] == Report::Onset,
{
    along_step(before, run, i - 1);
}

/// Refusals and vetoes leave the health where it was, however many there are.
pub proof fn refusals_and_vetoes_leave_health_alone(before: Health, run: Seq<Contact>)
    requires
        forall|j: int|
            0 <= j < run.len() ==> run[j] == Contact::Refused || run[j] == Contact::Vetoed,
    ensures
        health_along(before, run) == before,
    decreases run.len(),
{
    if run.len() > 0 {
        let shorter = run.drop_last();
        assert forall|j: int| 0 <= j < shorter.len() implies shorter[j] == Contact::Refused
            || shorter[j] == Contact::Vetoed by {
            assert(shorter[j] == run[j]);
        }
        refusals_and_vetoes_leave_health_alone(before, shorter);
    }
}

} // verus!
