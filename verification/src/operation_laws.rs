//! What each operation that changes something does to it, from the value before to
//! the value after.

use vstd::prelude::*;
use vstd::string::*;
use crate::api::{Acceptance, Read, ReadValue, RecordingState};
use crate::configuration::ServerConfig;
use crate::devices::controller::{
    Controller, ControllerErrorModel, Event, Next, NextModel, Received,
};
use crate::devices::device::{DeviceError, VetoSource};
use crate::devices::transport::TransportError;
use crate::inventory::config::{RawConfig, Resolved};
use crate::inventory::edit::{LiveFleet, Removed, Reset};
use crate::inventory::refusal::{ConfigError, InventoryRefusal, RefusalModel};
use crate::memory::outbox::MemoryOutbox;
use crate::memory::outbox_model;
use crate::memory::outbox_timing;
use crate::memory::store::MemoryStore;
use crate::protocol::instructions::{Instruction, Reply};
use crate::protocol::value::Value;
use crate::retention::{Report, StoreConfig, SweepState};
use crate::settings::{ConfigRefusal, LiveSettings, PatchError, Published};
use crate::sorted::Identified;
use crate::store::error::WriteError;
use crate::store::lifecycle::{Swept, Usage};
use crate::store::outbox::{Claim, Outcome, Submission, SubmitError};
use crate::sweeper::{SweepAction, SweepNews, Sweeper};
use crate::sync::auto_disabled::{veto_of, AutoDisabled, Off};
use crate::sync::poll::{Followup, PollLoop, Refusal};
use crate::text;
use crate::time;
use crate::time::{Duration, Instant, Timestamp};
use crate::time_laws::{ordinary, position};

verus! {

// ---- writes ----------------------------------------------------------------

/// Settling a failure that leaves tries puts the write off to the instant of the
/// failure plus the backoff for each try it has had; it stays pending, and when it
/// was submitted and how often it was tried stay with it.
pub proof fn settling_a_failure_puts_the_write_off(
    before: MemoryOutbox,
    id: &str,
    reason: String,
    at: &Timestamp,
    i: Instant,
    j: Instant,
)
    requires
        before@.records.contains_key(id@),
        before@.records[id@].status == crate::api::StatusModel::InFlight,
        before@.records[id@].attempts < before@.max_attempts,
        time::rfc3339_instant(at@) == Some(i),
        ordinary(i),
        ordinary(j),
        before@.backoff * before@.records[id@].attempts as nat <= time::STEP_MAX,
        position(j) == position(i) + before@.backoff * before@.records[id@].attempts,
    ensures
        forall|x: &mut MemoryOutbox, r: Result<(), WriteError>|
            *x == before && #[trigger] call_ensures(
                MemoryOutbox::settle,
                (x, id, Outcome::Failed(reason), at),
                r,
            ) ==> {
                &&& r is Ok
                &&& final(x)@.records[id@].not_before == time::rfc3339_text(j)
                &&& final(x)@.records[id@].status == crate::api::StatusModel::Pending
                &&& final(x)@.records[id@].attempts == before@.records[id@].attempts
                &&& final(x)@.records[id@].enqueued_at == before@.records[id@].enqueued_at
                &&& final(x)@.log(before@.records[id@].device).queue.contains(id@)
            },
{
    assert(Outcome::Failed(reason)@ == crate::store::outbox::OutcomeModel::Failed(reason@));
    outbox_timing::a_retry_waits_from_its_failure(before@, id@, reason@, at@, i, j, at@);
    outbox_timing::a_failure_is_retried_until_the_tries_are_used(before@, id@, reason@, at@);
}

/// Settling a failure with no tries left, and settling a success, is the end of the
/// write; settling anything that is not in flight is refused and changes nothing.
pub proof fn settling_ends_a_write(
    before: MemoryOutbox,
    id: &str,
    reason: String,
    value: ReadValue,
    at: &Timestamp,
)
    ensures
        forall|x: &mut MemoryOutbox, r: Result<(), WriteError>|
            *x == before && #[trigger] call_ensures(
                MemoryOutbox::settle,
                (x, id, Outcome::Failed(reason), at),
                r,
            ) ==> {
                let flies = before@.records.contains_key(id@) && before@.records[id@].status
                    == crate::api::StatusModel::InFlight;
                &&& r is Ok <==> flies
                &&& !flies ==> final(x)@ == before@
                &&& flies && before@.records[id@].attempts >= before@.max_attempts
                    ==> final(x)@.records[id@].status == (crate::api::StatusModel::Failed {
                    reason: reason@,
                })
            },
        forall|x: &mut MemoryOutbox, r: Result<(), WriteError>|
            *x == before && #[trigger] call_ensures(
                MemoryOutbox::settle,
                (x, id, Outcome::Succeeded(value), at),
                r,
            ) ==> {
                let flies = before@.records.contains_key(id@) && before@.records[id@].status
                    == crate::api::StatusModel::InFlight;
                &&& r is Ok <==> flies
                &&& !flies ==> final(x)@ == before@
                &&& flies ==> final(x)@.records[id@].status == (
                crate::api::StatusModel::Succeeded { value: value@ })
            },
{
    assert(Outcome::Failed(reason)@ == crate::store::outbox::OutcomeModel::Failed(reason@));
    assert(Outcome::Succeeded(value)@ == crate::store::outbox::OutcomeModel::Succeeded(value@));
}

/// Withdrawing what is queued counts what was queued, and forgetting a group counts
/// what it was told of.
pub proof fn what_is_withdrawn_is_counted(
    before: MemoryOutbox,
    device: &str,
    reason: &str,
    at: &Timestamp,
    group: &str,
    tries: u32,
)
    requires
        before@.inv(),
    ensures
        forall|x: &mut MemoryOutbox, r: usize|
            *x == before && #[trigger] call_ensures(
                MemoryOutbox::cancel_queued,
                (x, device, reason, at),
                r,
            ) ==> r == before@.log(device@).queue.len() && final(x)@.log(device@).queue.len() == 0,
        forall|x: &mut MemoryOutbox, r: usize|
            *x == before && #[trigger] call_ensures(MemoryOutbox::forget_group, (x, group), r) ==> {
                &&& !before@.groups.contains_key(group@) ==> r == 0
                &&& before@.groups.contains_key(group@) ==> r == before@.groups[group@].dom().len()
                &&& !final(x)@.groups.contains_key(group@)
            },
        forall|x: &mut MemoryOutbox|
            *x == before && #[trigger] call_ensures(MemoryOutbox::set_max_attempts, (x, tries), ())
                ==> {
                &&& tries > 0 ==> final(x)@.max_attempts == tries
                &&& tries == 0 ==> final(x)@.max_attempts == 1
                &&& final(x)@.backoff == before@.backoff
                &&& final(x)@.records == before@.records
                &&& final(x)@.logs == before@.logs
            },
{
    crate::memory::outbox_order::a_cancellation_withdraws_one_queue(
        before@,
        device@,
        reason@,
        at@,
    );
}

// ---- reads -----------------------------------------------------------------

/// A read that is written is the latest of its field; a sweep counts what it drops;
/// and a budget counts what it evicts.
pub proof fn what_leaves_the_store_is_counted(
    before: MemoryStore,
    read: Read,
    bound: &Timestamp,
    budget: Option<u64>,
    device: &str,
)
    ensures
        forall|x: &mut MemoryStore, r: Result<(), WriteError>|
            *x == before && #[trigger] call_ensures(MemoryStore::upsert_latest, (x, read), r)
                ==> r is Ok && final(x)@.latest_of(read.device@, read.field@) == Some(read@),
        forall|x: &mut MemoryStore, r: Result<Swept, WriteError>|
            *x == before && #[trigger] call_ensures(MemoryStore::prune, (x, bound), r) ==> {
                &&& r is Ok
                &&& r->Ok_0.entries == before@.entries.len() - final(x)@.entries.len()
                &&& r->Ok_0.bytes == before@.used() - final(x)@.used()
                &&& final(x)@.latest == before@.latest
            },
        forall|x: &mut MemoryStore, r: usize|
            *x == before && #[trigger] call_ensures(MemoryStore::set_budget, (x, budget), r) ==> {
                &&& final(x)@.budget == budget
                &&& r == final(x)@.evicted - before@.evicted
                &&& r == before@.entries.len() - final(x)@.entries.len()
            },
        forall|x: &mut MemoryStore, r: usize|
            *x == before && #[trigger] call_ensures(MemoryStore::forget_device, (x, device), r)
                ==> r == before@.entries.len() - final(x)@.entries.len() && final(x)@.evicted
                == before@.evicted,
{
    crate::memory::store_laws::a_sweep_returns_its_bytes(before@, bound@);
    crate::memory::reading_laws::a_device_is_forgotten_by_the_count(before@, device@, read@);
    assert(before@.entries.skip(0) =~= before@.entries);
    if budget is Some {
        crate::memory::store_laws::a_lowered_budget_is_met_at_once(before@, budget->0);
    }
}

// ---- refusals --------------------------------------------------------------

/// A refusal is counted where refusals count, switches the field off where it
/// reaches the threshold, and is neither where the field was off already. An answer
/// clears what was counted, and says whether the field was off.
pub proof fn a_refusal_is_counted_until_the_field_is_off(
    before: AutoDisabled,
    field: &str,
    threshold: u32,
    self_heal: Option<Duration>,
    now: Duration,
)
    ensures
        forall|x: &mut AutoDisabled, r: Refusal|
            *x == before && #[trigger] call_ensures(
                AutoDisabled::refused,
                (x, field, threshold, self_heal, now),
                r,
            ) ==> {
                let known = before@.contains_key(field@);
                let off = known && before@[field@].off is Some;
                let count = if !known {
                    1
                } else if before@[field@].refusals == u32::MAX {
                    u32::MAX
                } else {
                    (before@[field@].refusals + 1) as u32
                };
                &&& threshold == 0 ==> r == Refusal::Still && final(x)@ == before@
                &&& threshold > 0 ==> final(x)@.contains_key(field@) && final(x)@[field@].refusals
                    == count
                &&& threshold > 0 && off ==> r == Refusal::Still
                &&& threshold > 0 && !off && count < threshold ==> r == (Refusal::Counted {
                    refusals: count,
                }) && final(x)@[field@].off is None
                &&& threshold > 0 && !off && count >= threshold ==> r == (Refusal::Disabled {
                    refusals: count,
                }) && final(x)@[field@].off == Some(
                    if self_heal is Some {
                        Off::Until { since: now, wait: self_heal->0 }
                    } else {
                        Off::ForGood
                    },
                )
            },
        forall|x: &mut AutoDisabled, r: bool|
            *x == before && #[trigger] call_ensures(AutoDisabled::answered, (x, field), r) ==> {
                &&& r <==> before@.contains_key(field@) && before@[field@].off is Some
                &&& !final(x)@.contains_key(field@)
            },
{
}

/// A field that the device's own configuration declines is never asked for, and one
/// that it refused too often is not until its time is up; each is told apart.
pub proof fn a_vetoed_field_is_told_by_its_source(
    learned: AutoDisabled,
    declined: Vec<String>,
    field: &str,
    now: Duration,
    r: Result<(), DeviceError>,
)
    requires
        call_ensures(AutoDisabled::admits, (&learned, &declined, field, now), r),
    ensures
        ({
            let listed = text::views(declined@).contains(field@);
            let known = if learned@.contains_key(field@) {
                Some(learned@[field@])
            } else {
                None
            };
            let vetoed = veto_of(known, now@) is Some;
            &&& r is Ok <==> !listed && !vetoed
            &&& r is Err ==> r->Err_0 is Disabled && r->Err_0->field@ == field@
            &&& listed ==> r->Err_0->source == VetoSource::Declared
            &&& !listed && vetoed ==> r->Err_0->source == VetoSource::Inferred
        }),
{
}

// ---- polls -----------------------------------------------------------------

/// A loop ends exactly if its field is off and will not be tried again. While it
/// goes on, a value is recorded for its own device and field at the time of the
/// poll, and a recording state is reported to the write side, where the loop is
/// told to and polls the recording state.
pub proof fn a_poll_is_recorded(
    before: PollLoop,
    outcome: Result<Value, DeviceError>,
    vetoed: bool,
    at: Timestamp,
)
    ensures
        forall|x: &mut PollLoop, r: Followup|
            *x == before && #[trigger] call_ensures(
                PollLoop::absorb,
                (x, outcome, vetoed, at),
                r,
            ) ==> {
                &&& r.ends <==> vetoed && before.self_heal is None
                &&& r.read is Some <==> outcome is Ok && !r.ends
                &&& r.read is Some ==> r.read->0.device@ == before.device@ && r.read->0.field@
                    == before.field@ && r.read->0.at@ == at@ && r.read->0.value@
                    == crate::sync::dto::wire_value(outcome->Ok_0@)
                &&& r.observed is Some ==> before.reconciled && before.field@ == "RUNNING_STATE"@
                    && !r.ends
                &&& !r.ends && before.reconciled && before.field@ == "RUNNING_STATE"@ ==> (
                outcome matches Ok(Value::State(s)) ==> r.observed == Some(
                    crate::sync::dto::wire_state(s),
                ))
                &&& final(x).device == before.device
                &&& final(x).field == before.field
                &&& final(x).self_heal == before.self_heal
                &&& final(x).reconciled == before.reconciled
                &&& outcome is Ok ==> final(x).health == crate::sync::health::Health::Up
            },
{
    if let Ok(Value::State(s)) = outcome {
        assert(Value::State(s)@ == crate::protocol::value::DecodedModel::State(s));
    }
}

// ---- exchanges -------------------------------------------------------------

/// An exchange fails when its time is up, when the channel fails, and when the
/// channel closes, each told apart and by the instruction's name; once it is written
/// it reads on.
pub proof fn an_exchange_fails_as_its_channel_does(
    controller: Controller,
    instruction: Instruction<Reply>,
    before: Received,
    failure: TransportError,
    none: Vec<u8>,
    event: Event,
)
    requires
        none@.len() == 0,
    ensures
        forall|x: &mut Received, r: Next|
            *x == before && #[trigger] call_ensures(
                Controller::advance::<Reply>,
                (&controller, &instruction, x, event),
                r,
            ) ==> {
                &&& event is Elapsed ==> r@ == NextModel::Error(
                    ControllerErrorModel::Timeout {
                        instruction: instruction.name@,
                        after: controller.command_timeout@,
                    },
                )
                &&& event == Event::Written(Err(failure)) ==> r@ == NextModel::Error(
                    ControllerErrorModel::Transport {
                        instruction: instruction.name@,
                        source: failure@,
                    },
                )
                &&& event == Event::Received(Err(failure)) ==> r@ == NextModel::Error(
                    ControllerErrorModel::Transport {
                        instruction: instruction.name@,
                        source: failure@,
                    },
                )
                &&& event == Event::Received(Ok(none)) ==> r@ == NextModel::Error(
                    ControllerErrorModel::ConnectionClosed { instruction: instruction.name@ },
                )
                &&& event == Event::Written(Ok(())) ==> r@ == NextModel::Read
                &&& !(event is Received) ==> final(x).bytes@ == before.bytes@
            },
{
}

// ---- the sweeper -----------------------------------------------------------

/// A sweeper sweeps at each tick of a policy that sweeps, starts over its pace with
/// a policy that it takes over, and else waits.
pub proof fn a_sweeper_sweeps_at_its_ticks(before: Sweeper, policy: StoreConfig)
    ensures
        forall|x: &mut Sweeper, r: SweepAction|
            *x == before && #[trigger] call_ensures(Sweeper::hear, (x, SweepNews::Tick), r) ==> {
                &&& r == SweepAction::Sweep <==> before.policy.cleanup is Some
                &&& r == SweepAction::Wait <==> before.policy.cleanup is None
                &&& final(x).policy == before.policy
            },
        forall|x: &mut Sweeper, r: SweepAction|
            *x == before && #[trigger] call_ensures(
                Sweeper::hear,
                (x, SweepNews::Policy(policy)),
                r,
            ) ==> {
                &&& before.watching ==> r == SweepAction::Repace && final(x).policy == policy
                &&& !before.watching ==> r == SweepAction::Wait && final(x).policy == before.policy
                &&& final(x).state == before.state
            },
        forall|x: &mut Sweeper, r: SweepAction|
            *x == before && #[trigger] call_ensures(
                Sweeper::hear,
                (x, SweepNews::NoMorePolicies),
                r,
            ) ==> {
                &&& r == SweepAction::Wait
                &&& !final(x).watching
                &&& final(x).policy == before.policy
                &&& final(x).state == before.state
            },
{
}

/// A reading remembers how much had been evicted, so that the next one tells of
/// nothing twice.
pub proof fn nothing_is_told_twice(before: SweepState, usage: Usage)
    requires
        !usage.over(),
    ensures
        forall|x: &mut SweepState, r: Report|
            *x == before && #[trigger] call_ensures(SweepState::take_reading, (x, &usage), r)
                ==> final(x).seen_evicted == usage.evicted,
        forall|x: &mut SweepState, r: Report|
            x.seen_evicted == usage.evicted && #[trigger] call_ensures(
                SweepState::take_reading,
                (x, &usage),
                r,
            ) ==> r == Report::Quiet,
{
}

// ---- settings --------------------------------------------------------------

/// Settings that were refused change nothing; settings that were not are taken over
/// whole, told to the tasks that read them, and set where they are enforced.
pub proof fn settings_are_taken_over_whole_or_not_at_all(
    before: LiveSettings,
    stored: MemoryStore,
    queued: MemoryOutbox,
    config: ServerConfig,
    policy: StoreConfig,
    refused: PatchError,
)
    ensures
        forall|
            x: &mut LiveSettings,
            s: &mut MemoryStore,
            o: &mut MemoryOutbox,
            r: Result<Published, ConfigRefusal>,
        |
            *x == before && *s == stored && *o == queued && #[trigger] call_ensures(
                LiveSettings::apply,
                (x, Err(refused), s, o),
                r,
            ) ==> r is Err && *final(x) == before && *final(s) == stored && *final(o) == queued,
        forall|
            x: &mut LiveSettings,
            s: &mut MemoryStore,
            o: &mut MemoryOutbox,
            r: Result<Published, ConfigRefusal>,
        |
            *x == before && *s == stored && *o == queued && #[trigger] call_ensures(
                LiveSettings::apply,
                (x, Ok((config, policy)), s, o),
                r,
            ) ==> {
                &&& r is Ok
                &&& final(x).current == config
                &&& final(x).policy == policy
                &&& r->Ok_0.policy == policy
                &&& r->Ok_0.drain == config.intent_relay.poll
                &&& r->Ok_0.evicted == final(s)@.evicted - stored@.evicted
                &&& final(s)@.budget == policy.max_memory
                &&& config.intent_relay.max_attempts > 0 ==> final(o)@.max_attempts
                    == config.intent_relay.max_attempts
                &&& config.intent_relay.max_attempts == 0 ==> final(o)@.max_attempts == 1
                &&& final(o)@.records == queued@.records
                &&& final(o)@.backoff == queued@.backoff
            },
{
}

// ---- the fleet -------------------------------------------------------------

/// A change of the fleet that does not resolve leaves the fleet as it was. One that
/// does keeps the defaults of the document, takes its groups as edited, and counts
/// as one change.
pub proof fn a_change_is_made_whole_or_not_at_all(
    before: LiveFleet,
    edited: RawConfig,
    resolved: Resolved,
    fault: ConfigError,
)
    ensures
        forall|x: &mut LiveFleet, r: Result<Resolved, InventoryRefusal>|
            *x == before && #[trigger] call_ensures(
                LiveFleet::amend,
                (x, edited, Err(fault)),
                r,
            ) ==> r is Err && *final(x) == before,
        forall|x: &mut LiveFleet, r: Result<Resolved, InventoryRefusal>|
            *x == before && #[trigger] call_ensures(
                LiveFleet::amend,
                (x, edited, Ok(resolved)),
                r,
            ) ==> {
                &&& r is Ok && r->Ok_0 == resolved
                &&& final(x).document@.groups == edited@.groups
                &&& final(x).document@.username == before.document@.username
                &&& final(x).document@.password == before.document@.password
                &&& final(x).document@.devices.len() == resolved.devices@.len()
                &&& final(x).generation != before.generation
                &&& final(x).cleanup_on_remove == before.cleanup_on_remove
            },
{
}

/// A reset takes the document of the file over as it is written there; one whose
/// file cannot be read, or does not resolve, leaves the fleet as it was.
pub proof fn a_reset_takes_the_file_over(
    before: LiveFleet,
    path: &str,
    document: RawConfig,
    resolved: Resolved,
    fault: ConfigError,
    unread: String,
    resolution: Result<Resolved, ConfigError>,
)
    ensures
        forall|x: &mut LiveFleet, r: Result<Reset, InventoryRefusal>|
            *x == before && #[trigger] call_ensures(
                LiveFleet::restore,
                (x, path, Err(unread), resolution),
                r,
            ) ==> r is Err && r->Err_0@ == RefusalModel::Source(
                "reading "@ + path@ + ": "@ + unread@,
            ) && *final(x) == before,
        forall|x: &mut LiveFleet, r: Result<Reset, InventoryRefusal>|
            *x == before && #[trigger] call_ensures(
                LiveFleet::restore,
                (x, path, Ok(document), Err(fault)),
                r,
            ) ==> r is Err && *final(x) == before,
        forall|x: &mut LiveFleet, r: Result<Reset, InventoryRefusal>|
            *x == before && #[trigger] call_ensures(
                LiveFleet::restore,
                (x, path, Ok(document), Ok(resolved)),
                r,
            ) ==> {
                &&& r is Ok
                &&& final(x).document@ == document@
                &&& final(x).generation != before.generation
                &&& r->Ok_0.devices@.len() == resolved.devices@.len()
            },
{
}

/// What a device reports of itself becomes the phase that is asked for, and no
/// write changes.
pub proof fn an_observed_state_becomes_the_phase(before: MemoryOutbox, device: &str)
    ensures
        forall|x: &mut MemoryOutbox, observed: RecordingState, r: Result<(), WriteError>|
            *x == before && #[trigger] call_ensures(
                MemoryOutbox::observe,
                (x, device, observed),
                r,
            ) ==> {
                &&& r is Ok
                &&& observed == RecordingState::Stopped ==> final(x)@.log(device@).phase
                    == crate::api::Phase::Idle
                &&& observed == RecordingState::Started ==> final(x)@.log(device@).phase
                    == crate::api::Phase::Recording
                &&& observed == RecordingState::Paused ==> final(x)@.log(device@).phase
                    == crate::api::Phase::Paused
                &&& observed == RecordingState::Unknown ==> final(x)@.log(device@).phase
                    == before@.log(device@).phase
                &&& final(x)@.records == before@.records
            },
{
}

/// A removed device is gone from the document and from what the fleet shows, its
/// queued writes are withdrawn and counted, and its reads go with it, counted, where
/// the fleet says that reads go. A removal that is refused changes nothing.
pub proof fn a_removal_takes_everything_that_was_owed(
    before: LiveFleet,
    queued: MemoryOutbox,
    stored: MemoryStore,
    id: &str,
    resolution: Result<Resolved, ConfigError>,
    at: &Timestamp,
)
    requires
        queued@.inv(),
    ensures
        forall|
            x: &mut LiveFleet,
            o: &mut MemoryOutbox,
            s: &mut MemoryStore,
            r: Result<Removed, InventoryRefusal>,
        |
            *x == before && *o == queued && *s == stored && #[trigger] call_ensures(
                LiveFleet::remove,
                (x, id, resolution, o, s, at),
                r,
            ) ==> {
                &&& r is Err ==> *final(x) == before && *final(o) == queued && *final(s) == stored
                &&& r is Ok ==> {
                    &&& resolution is Ok
                    &&& forall|k: int|
                        0 <= k < final(x).document.devices@.len() ==> (
                        #[trigger] final(x).document.devices@[k]).id@ != id@
                    &&& forall|k: int|
                        0 <= k < final(x).catalog.all_devices().len() ==> (
                        #[trigger] final(x).catalog.all_devices()[k]).id@ != id@
                    &&& final(x).document@.groups == before.document@.groups
                    &&& final(x).generation != before.generation
                    &&& final(o)@.log(id@).queue.len() == 0
                    &&& r->Ok_0.device@ == id@
                    &&& r->Ok_0.writes_canceled == queued@.log(id@).queue.len()
                    &&& before.cleanup_on_remove ==> r->Ok_0.reads_dropped is Some
                        && r->Ok_0.reads_dropped->0 == stored@.entries.len()
                        - final(s)@.entries.len()
                    &&& !before.cleanup_on_remove ==> r->Ok_0.reads_dropped is None && *final(s)
                        == stored
                }
            },
{
    crate::memory::outbox_order::a_cancellation_withdraws_one_queue(
        queued@,
        id@,
        crate::inventory::removal::removal_reason(),
        at@,
    );
    if stored@.entries.len() > 0 {
        crate::memory::reading_laws::a_device_is_forgotten_by_the_count(
            stored@,
            id@,
            stored@.entries[0],
        );
    } else {
        reveal(Seq::filter);
    }
    assert forall|
        x: &mut LiveFleet,
        o: &mut MemoryOutbox,
        s: &mut MemoryStore,
        r: Result<Removed, InventoryRefusal>,
    |
        *x == before && *o == queued && *s == stored && r is Ok && #[trigger] call_ensures(
            LiveFleet::remove,
            (x, id, resolution, o, s, at),
            r,
        ) implies (forall|k: int|
        0 <= k < final(x).document.devices@.len() ==> (
        #[trigger] final(x).document.devices@[k]).id@ != id@) && (forall|k: int|
        0 <= k < final(x).catalog.all_devices().len() ==> (
        #[trigger] final(x).catalog.all_devices()[k]).id@ != id@) by {
        let d = final(x).document.devices@;
        let c = final(x).catalog.all_devices();
        crate::sorted::first_is_first(d, id@);
        crate::sorted::first_is_first(c, id@);
        assert forall|k: int| 0 <= k < d.len() implies (#[trigger] d[k]).id@ != id@ by {
            assert(d[k].key() != id@);
        }
        assert forall|k: int| 0 <= k < c.len() implies (#[trigger] c[k]).id@ != id@ by {
            assert(c[k].key() != id@);
        }
    }
}

/// A submission that is accepted has every write on record and queued for its
/// target; one that is refused changes nothing.
pub proof fn a_submission_is_recorded_whole_or_not_at_all(
    before: MemoryOutbox,
    s: Submission,
    i: int,
)
    requires
        s@.ids.no_duplicates(),
        s@.idempotency_key is None,
        0 <= i < s@.targets.len(),
    ensures
        forall|x: &mut MemoryOutbox, r: Result<Acceptance, SubmitError>|
            *x == before && #[trigger] call_ensures(MemoryOutbox::submit, (x, s), r) ==> {
                &&& r is Err ==> final(x)@ == before@
                &&& r is Ok ==> {
                    let n = final(x)@;
                    let id = s@.ids[i];
                    &&& n.records.contains_key(id)
                    &&& n.records[id].device == s@.targets[i]
                    &&& n.records[id].intent == s@.intent
                    &&& n.records[id].status == crate::api::StatusModel::Pending
                    &&& n.records[id].attempts == 0
                    &&& n.records[id].not_before == s@.at
                    &&& n.log(s@.targets[i]).queue.contains(id)
                    &&& r->Ok_0.writes@.len() == s@.targets.len()
                    &&& r->Ok_0.writes@[i].id@ == id
                    &&& r->Ok_0.writes@[i].device@ == s@.targets[i]
                }
            },
{
    if outbox_model::submit_result(before@, s@) is Ok {
        outbox_timing::a_submitted_write_is_on_record(before@, s@, i);
        outbox_timing::a_submitted_write_is_queued(before@, s@, i);
    }
    assert forall|x: &mut MemoryOutbox, r: Result<Acceptance, SubmitError>|
        *x == before && r is Ok && #[trigger] call_ensures(
            MemoryOutbox::submit,
            (x, s),
            r,
        ) implies r->Ok_0.writes@.len() == s@.targets.len() && r->Ok_0.writes@[i].id@ == s@.ids[i]
        && r->Ok_0.writes@[i].device@ == s@.targets[i] by {
        let a = r->Ok_0;
        assert(a@ == outbox_model::submit_result(before@, s@)->Ok_0);
        assert(a@.writes.len() == a.writes@.len());
        assert(a@.writes[i] == a.writes@[i]@);
    }
}

/// Claiming hands out nothing before the oldest write is due, and a write that is in
/// no batch once it is, with one try more.
pub proof fn claiming_waits_until_a_write_is_due(
    before: MemoryOutbox,
    device: &str,
    at: &Timestamp,
)
    requires
        before@.head(device@) is Some,
        before@.records[before@.head(device@)->0].batch is None,
        before@.records[before@.head(device@)->0].attempts < u32::MAX,
    ensures
        forall|x: &mut MemoryOutbox, r: Result<Option<Claim>, WriteError>|
            *x == before && #[trigger] call_ensures(MemoryOutbox::claim_next, (x, device, at), r)
                ==> {
                let id = before@.head(device@)->0;
                let early = text::lex_lt(at@, before@.records[id].not_before);
                &&& r is Ok
                &&& early ==> r->Ok_0 is None && final(x)@ == before@
                &&& !early ==> {
                    &&& r->Ok_0 is Some && r->Ok_0->0 is One
                    &&& r->Ok_0->0->One_0@ == final(x)@.records[id]
                    &&& final(x)@.records[id].attempts == before@.records[id].attempts + 1
                    &&& final(x)@.records[id].status == crate::api::StatusModel::InFlight
                    &&& final(x)@.log(device@).queue.len() + 1 == before@.log(device@).queue.len()
                }
            },
{
    if text::lex_lt(at@, before@.records[before@.head(device@)->0].not_before) {
        outbox_timing::nothing_is_handed_out_early(before@, device@, at@);
    } else {
        outbox_timing::a_claim_spends_a_try(before@, device@, at@);
    }
}

} // verus!
