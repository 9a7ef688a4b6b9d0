//! The decisions of one poll loop.
//!
//! The loop itself, its clock and its exchanges are the caller's. It asks here
//! what a tick calls for, tells what came of the exchange, and is told what to
//! say, what to record and whether to go on.

use vstd::prelude::*;
use crate::api;
use crate::api::{Read, ReadModel};
use crate::devices::device::DeviceError;
use crate::protocol::value::{state_in, Value};
use crate::retention::{Level, Notice};
use crate::store::group::RECORDING_STATE_FIELD;
use crate::sync::auto_disabled::{
    known_of, refused_again, veto_of, AutoDisabled, Off, Watched,
};
use crate::sync::dto;
use crate::sync::dto::{state_to_dto, to_dto};
use crate::sync::health;
use crate::sync::health::{contact_of, step, Contact, Health, Report};
use crate::text::same;
use crate::time::{Duration, Timestamp};

verus! {

/// Whether a field is the one the write side reconciles against.
pub fn is_running_state(field: &str) -> (r: bool)
    ensures
        r == (field@ == RECORDING_STATE_FIELD@),
{
    same(field, RECORDING_STATE_FIELD)
}

/// What a tick calls for.
#[derive(Debug, PartialEq, Eq)]
pub enum Tick {
    /// Ask the device for the field.
    Ask,
    /// Ask nothing. The field is off until so many seconds from now, or for good.
    Skip { retry_in_secs: Option<u64>, notice: Notice },
}

/// What an exchange adds to the count of refusals.
#[derive(Debug, Clone, Copy, PartialEq, Eq, Structural)]
pub enum Count {
    /// One refusal more.
    Refused,
    /// The field answered: start from none.
    Answered,
    /// Neither.
    Unchanged,
}

/// What the count of refusals came to.
#[derive(Debug, Clone, Copy, PartialEq, Eq, Structural)]
pub enum Refusal {
    /// Counted, and still below the threshold.
    Counted { refusals: u32 },
    /// The threshold is reached: the field is off from now on.
    Disabled { refusals: u32 },
    /// The field was off already.
    Still,
}

/// What a poll comes to.
#[derive(Debug, PartialEq, Eq)]
pub struct Followup {
    pub report: Report,
    /// The loop has no work left.
    pub ends: bool,
    /// The recording state to report to the write side.
    pub observed: Option<api::RecordingState>,
    /// The reading to record.
    pub read: Option<Read>,
    /// The line for what was counted, where there is one.
    pub notice: Option<Notice>,
}

/// The count that an outcome calls for.
pub open spec fn count_of(outcome: Result<Value, DeviceError>) -> Count {
    match outcome {
        Ok(_) => Count::Answered,
        Err(e) => if e.refuses() {
            Count::Refused
        } else {
            Count::Unchanged
        },
    }
}

/// What an outcome adds to the count of refusals.
pub fn count(outcome: &Result<Value, DeviceError>) -> (r: Count)
    ensures
        r == count_of(*outcome),
{
    match outcome {
        Ok(_) => Count::Answered,
        Err(e) => if e.is_refusal() {
            Count::Refused
        } else {
            Count::Unchanged
        },
    }
}

/// One field polled on one device.
#[derive(Debug, PartialEq, Eq)]
pub struct PollLoop {
    pub device: String,
    pub field: String,
    /// How long a field that was switched off stays so, or nothing for good.
    pub self_heal: Option<Duration>,
    /// Whether the write side hears of recording states.
    pub reconciled: bool,
    pub health: Health,
}

impl PollLoop {
    /// A loop that takes its device to be up. A field that is not in the catalog
    /// gets none.
    pub fn start(
        device: String,
        field: String,
        self_heal: Option<Duration>,
        reconciled: bool,
        known: bool,
    ) -> (r: Result<PollLoop, Notice>)
        ensures
            r is Ok <==> known,
            r is Ok ==> r->Ok_0 == (PollLoop {
                device,
                field,
                self_heal,
                reconciled,
                health: Health::Up,
            }),
            r is Err ==> r->Err_0.level == Level::Warn && r->Err_0.message@
                == "unknown query field; poll loop not started"@,
    {
        if known {
            Ok(PollLoop { device, field, self_heal, reconciled, health: Health::Up })
        } else {
            Err(
                Notice {
                    level: Level::Warn,
                    message: "unknown query field; poll loop not started",
                },
            )
        }
    }

    /// What a tick calls for, with what is known of the veto on the field: none,
    /// or one that lasts so long, or one for good.
    pub fn tick(&self, veto: Option<Option<Duration>>) -> (r: Tick)
        ensures
            veto is None <==> r is Ask,
            veto matches Some(Some(wait)) ==> r->retry_in_secs == Some(
                (wait@ / 1_000_000_000) as u64,
            ) && r->notice.level == Level::Debug && r->notice.message@
                == "skipping a poll of an auto-disabled field"@,
            veto matches Some(None) ==> r->retry_in_secs is None && r->notice.level == Level::Debug
                && r->notice.message@ == "skipping a poll of a permanently disabled field"@,
    {
        match veto {
            None => Tick::Ask,
            Some(Some(wait)) => {
                let secs: u64 = wait.as_secs();
                Tick::Skip {
                    retry_in_secs: Some(secs),
                    notice: Notice {
                        level: Level::Debug,
                        message: "skipping a poll of an auto-disabled field",
                    },
                }
            },
            Some(None) => Tick::Skip {
                retry_in_secs: None,
                notice: Notice {
                    level: Level::Debug,
                    message: "skipping a poll of a permanently disabled field",
                },
            },
        }
    }

    /// The line for a refusal, where there is one.
    pub fn announce_refusal(&self, refusal: Refusal) -> (r: Option<Notice>)
        ensures
            r is None <==> refusal == Refusal::Still,
            refusal is Counted ==> r->0.level == Level::Debug && r->0.message@
                == "the device refused this field"@,
            refusal is Disabled ==> r->0.level == Level::Info && r->0.message@
                == if self.self_heal is Some {
                "auto-disabling this field after consecutive refusals; it will be tried again"@
            } else {
                "auto-disabling this field after consecutive refusals; add it to this device's `disabled_fields` to make it permanent, or set `self_heal_secs` to retry it"@
            },
    {
        match refusal {
            Refusal::Still => None,
            Refusal::Counted { .. } => Some(
                Notice { level: Level::Debug, message: "the device refused this field" },
            ),
            Refusal::Disabled { .. } => match self.self_heal {
                Some(_) => Some(
                    Notice {
                        level: Level::Info,
                        message:
                            "auto-disabling this field after consecutive refusals; it will be tried again",
                    },
                ),
                None => Some(
                    Notice {
                        level: Level::Info,
                        message:
                            "auto-disabling this field after consecutive refusals; add it to this device's `disabled_fields` to make it permanent, or set `self_heal_secs` to retry it",
                    },
                ),
            },
        }
    }

    /// The line for an answer, where the field had been off.
    pub fn announce_answer(&self, was_off: bool) -> (r: Option<Notice>)
        ensures
            r is Some <==> was_off,
            r is Some ==> r->0.level == Level::Info && r->0.message@
                == "an auto-disabled field answered again and is no longer disabled"@,
    {
        if was_off {
            Some(
                Notice {
                    level: Level::Info,
                    message: "an auto-disabled field answered again and is no longer disabled",
                },
            )
        } else {
            None
        }
    }

    /// Takes in what came of an exchange, at `at`; `vetoed` is whether the field
    /// is off now that it has been counted.
    pub fn absorb(
        &mut self,
        outcome: Result<Value, DeviceError>,
        vetoed: bool,
        at: Timestamp,
    ) -> (r: Followup)
        ensures
            *final(self) == (PollLoop {
                health: health::health_after(old(self).health, contact_of(outcome)),
                ..*old(self)
            }),
            r.report == health::report_on(old(self).health, contact_of(outcome)),
            r.ends == (old(self).self_heal is None && vetoed),
            r.observed == if !r.ends && old(self).reconciled && old(self).field@
                == RECORDING_STATE_FIELD@ && outcome is Ok && state_in(outcome->Ok_0@) is Some {
                Some(dto::wire_state(state_in(outcome->Ok_0@)->0))
            } else {
                None
            },
            r.notice is None,
            r.read is Some <==> !r.ends && outcome is Ok,
            r.read is Some ==> r.read->0@ == (ReadModel {
                device: old(self).device@,
                field: old(self).field@,
                value: dto::wire_value(outcome->Ok_0@),
                at: at@,
            }),
    {
        let (next, report): (Health, Report) = step(self.health, Contact::of(&outcome));
        self.health = next;
        let ends: bool = self.self_heal.is_none() && vetoed;
        if ends {
            return Followup { report, ends, observed: None, read: None, notice: None };
        }
        match outcome {
            Err(_) => Followup { report, ends, observed: None, read: None, notice: None },
            Ok(value) => {
                let mut observed: Option<api::RecordingState> = None;
                if self.reconciled && is_running_state(self.field.as_str()) {
                    match value.as_state() {
                        Some(state) => {
                            observed = Some(state_to_dto(state));
                        },
                        None => {},
                    }
                }
                let read: Read = Read {
                    device: self.device.clone(),
                    field: self.field.clone(),
                    value: to_dto(value),
                    at,
                };
                Followup { report, ends, observed, read: Some(read), notice: None }
            },
        }
    }
}

// ---- polling and counting --------------------------------------------------

/// What is known of a device's fields once one of them was polled at `now`: a
/// refusal counts, an answer clears, and anything else leaves it as it was.
pub open spec fn learned_after(
    fields: Map<Seq<char>, Watched>,
    field: Seq<char>,
    threshold: u32,
    self_heal: Option<Duration>,
    count: Count,
    now: Duration,
) -> Map<Seq<char>, Watched> {
    match count {
        Count::Refused => if threshold == 0 {
            fields
        } else {
            fields.insert(
                field,
                refused_again(known_of(fields, field), threshold, self_heal, now),
            )
        },
        Count::Answered => fields.remove(field),
        Count::Unchanged => fields,
    }
}

/// Whether the field is off once it was polled at `now`.
pub open spec fn vetoed_after(
    fields: Map<Seq<char>, Watched>,
    field: Seq<char>,
    threshold: u32,
    self_heal: Option<Duration>,
    count: Count,
    now: Duration,
) -> bool {
    veto_of(
        known_of(learned_after(fields, field, threshold, self_heal, count, now), field),
        now@,
    ) is Some
}

/// Whether a field was off.
pub open spec fn was_off(fields: Map<Seq<char>, Watched>, field: Seq<char>) -> bool {
    known_of(fields, field) is Some && known_of(fields, field)->0.off is Some
}

/// Whether there is anything to say of what was counted: of a refusal, unless the
/// field was off or refusals do not count; of an answer, if the field was off.
pub open spec fn worth_saying(
    fields: Map<Seq<char>, Watched>,
    field: Seq<char>,
    threshold: u32,
    count: Count,
) -> bool {
    match count {
        Count::Refused => threshold > 0 && !was_off(fields, field),
        Count::Answered => was_off(fields, field),
        Count::Unchanged => false,
    }
}

impl PollLoop {
    /// What a tick calls for at `now`, with what is known of the device's fields.
    pub fn tick_at(&self, learned: &AutoDisabled, now: Duration) -> (r: Tick)
        ensures
            r is Ask <==> veto_of(known_of(learned@, self.field@), now@) is None,
            veto_of(known_of(learned@, self.field@), now@) matches Some(wait)
                ==> r->retry_in_secs == match wait {
                Some(nanos) => Some((nanos / 1_000_000_000) as u64),
                None => None,
            } && r->notice.level == Level::Debug && r->notice.message@ == if wait is Some {
                "skipping a poll of an auto-disabled field"@
            } else {
                "skipping a poll of a permanently disabled field"@
            },
    {
        self.tick(learned.veto(self.field.as_str(), now))
    }

    /// Takes in what came of an exchange: counts it first, in what is known of the
    /// device's fields, and goes by that. A loop whose field is off for good ends.
    pub fn take_in(
        &mut self,
        learned: &mut AutoDisabled,
        threshold: u32,
        outcome: Result<Value, DeviceError>,
        now: Duration,
        at: Timestamp,
    ) -> (r: Followup)
        ensures
            final(learned)@ == learned_after(
                old(learned)@,
                old(self).field@,
                threshold,
                old(self).self_heal,
                count_of(outcome),
                now,
            ),
            *final(self) == (PollLoop {
                health: health::health_after(old(self).health, contact_of(outcome)),
                ..*old(self)
            }),
            r.report == health::report_on(old(self).health, contact_of(outcome)),
            r.ends == (old(self).self_heal is None && veto_of(
                known_of(final(learned)@, old(self).field@),
                now@,
            ) is Some),
            r.observed == if !r.ends && old(self).reconciled && old(self).field@
                == RECORDING_STATE_FIELD@ && outcome is Ok && state_in(outcome->Ok_0@) is Some {
                Some(dto::wire_state(state_in(outcome->Ok_0@)->0))
            } else {
                None
            },
            r.read is Some <==> !r.ends && outcome is Ok,
            r.read is Some ==> r.read->0@ == (ReadModel {
                device: old(self).device@,
                field: old(self).field@,
                value: dto::wire_value(outcome->Ok_0@),
                at: at@,
            }),
            r.notice is Some <==> worth_saying(
                old(learned)@,
                old(self).field@,
                threshold,
                count_of(outcome),
            ),
            r.notice is Some ==> r.notice->0.message@ == match count_of(outcome) {
                Count::Answered => "an auto-disabled field answered again and is no longer disabled"@,
                _ => if !was_off(final(learned)@, old(self).field@) {
                    "the device refused this field"@
                } else if old(self).self_heal is Some {
                    "auto-disabling this field after consecutive refusals; it will be tried again"@
                } else {
                    "auto-disabling this field after consecutive refusals; add it to this device's `disabled_fields` to make it permanent, or set `self_heal_secs` to retry it"@
                },
            },
            r.notice is Some ==> r.notice->0.level == if count_of(outcome) == Count::Refused
                && !was_off(final(learned)@, old(self).field@) {
                Level::Debug
            } else {
                Level::Info
            },
    {
        let notice: Option<Notice> = match count(&outcome) {
            Count::Refused => {
                let refusal: Refusal = learned.refused(
                    self.field.as_str(),
                    threshold,
                    self.self_heal,
                    now,
                );
                self.announce_refusal(refusal)
            },
            Count::Answered => {
                let healed: bool = learned.answered(self.field.as_str());
                self.announce_answer(healed)
            },
            Count::Unchanged => None,
        };
        let vetoed: bool = learned.veto(self.field.as_str(), now).is_some();
        let mut r: Followup = self.absorb(outcome, vetoed, at);
        r.notice = notice;
        r
    }
}

/// What is known of a device's fields after one of them was refused at each of
/// these instants, and nothing else was polled.
pub open spec fn learned_from_refusals(
    fields: Map<Seq<char>, Watched>,
    field: Seq<char>,
    threshold: u32,
    self_heal: Option<Duration>,
    times: Seq<Duration>,
) -> Map<Seq<char>, Watched>
    decreases times.len(),
{
    if times.len() == 0 {
        fields
    } else {
        learned_after(
            learned_from_refusals(fields, field, threshold, self_heal, times.drop_last()),
            field,
            threshold,
            self_heal,
            Count::Refused,
            times.last(),
        )
    }
}

proof fn refusals_add_up(
    fields: Map<Seq<char>, Watched>,
    field: Seq<char>,
    threshold: u32,
    times: Seq<Duration>,
)
    requires
        known_of(fields, field) is None,
        0 < threshold,
        times.len() <= u32::MAX,
    ensures
        known_of(learned_from_refusals(fields, field, threshold, None, times), field)
            == if times.len() == 0 {
            None
        } else {
            Some(
                Watched {
                    refusals: times.len() as u32,
                    off: if times.len() >= threshold {
                        Some(Off::ForGood)
                    } else {
                        None
                    },
                },
            )
        },
    decreases times.len(),
{
    if times.len() > 0 {
        refusals_add_up(fields, field, threshold, times.drop_last());
    }
}

/// A loop whose field is never tried again ends after exactly `threshold` refusals
/// in a row, whenever they came: not before, and at once. A threshold of zero never
/// ends it.
pub proof fn a_loop_ends_at_the_threshold(
    fields: Map<Seq<char>, Watched>,
    field: Seq<char>,
    threshold: u32,
    before: Seq<Duration>,
    now: Duration,
)
    requires
        known_of(fields, field) is None,
        before.len() < u32::MAX,
    ensures
        vetoed_after(
            learned_from_refusals(fields, field, threshold, None, before),
            field,
            threshold,
            None,
            Count::Refused,
            now,
        ) <==> 0 < threshold <= before.len() + 1,
{
    if threshold == 0 {
        nothing_is_counted(fields, field, before);
    } else {
        refusals_add_up(fields, field, threshold, before);
    }
}

proof fn nothing_is_counted(
    fields: Map<Seq<char>, Watched>,
    field: Seq<char>,
    times: Seq<Duration>,
)
    ensures
        learned_from_refusals(fields, field, 0, None, times) == fields,
    decreases times.len(),
{
    if times.len() > 0 {
        nothing_is_counted(fields, field, times.drop_last());
    }
}

/// An answer clears the count: the next refusals start from none. A failed poll
/// leaves it.
pub proof fn an_answer_starts_the_count_over(
    fields: Map<Seq<char>, Watched>,
    field: Seq<char>,
    other: Seq<char>,
    threshold: u32,
    self_heal: Option<Duration>,
    now: Duration,
)
    ensures
        known_of(
            learned_after(fields, field, threshold, self_heal, Count::Answered, now),
            field,
        ) is None,
        other != field ==> known_of(
            learned_after(fields, field, threshold, self_heal, Count::Answered, now),
            other,
        ) == known_of(fields, other),
        learned_after(fields, field, threshold, self_heal, Count::Unchanged, now) == fields,
{
}

} // verus!
