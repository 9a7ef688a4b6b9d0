//! What holds of one poll, of the refusals it counts, and of what the schedule
//! makes of a fleet.

use vstd::prelude::*;
use vstd::string::*;
use crate::devices::controller::{
    controller_message, next_after, ControllerError, ControllerErrorModel,
};
use crate::devices::device::{DeviceError, VetoSource};
use crate::devices::transport::{ConnectError, TransportError};
use crate::protocol::instructions::Decode;
use crate::protocol::value::Value;
use crate::status::RefusedField;
use crate::sync::auto_disabled::{
    known_of, refused_again, tells_of, veto_of, veto_view, Off, Watched,
};
use crate::sync::health::{contact_of, health_after, report_on, Contact, Health, Report};
use crate::sync::pairs::{pair_lt, Pair, Wanted};
use crate::sync::poll::{count_of, learned_after, vetoed_after, was_off, worth_saying, Count};
use crate::sync::schedule::{
    action_for, interval_for, wanted_map, wanted_of, Action, Change, FieldModel, Fleet,
};
use crate::sync::supervisor::never_polled_in;
use crate::text;
use crate::time;
use crate::time::Duration;

verus! {

// ---- what came of a poll ---------------------------------------------------

/// Only an answer that says no is a refusal: neither a failed dial, a failed
/// exchange, a poll that was not made, nor a value is one.
pub proof fn only_an_answer_that_says_no_is_a_refusal(
    value: Value,
    dial: ConnectError,
    instruction: String,
    after: Duration,
    source: TransportError,
    code: u32,
    field: String,
    veto: VetoSource,
    retry_in: Option<Duration>,
)
    ensures
        count_of(Ok(value)) == Count::Answered,
        count_of(Err(DeviceError::Connect(dial))) == Count::Unchanged,
        count_of(Err(DeviceError::Command(ControllerError::Timeout { instruction, after })))
            == Count::Unchanged,
        count_of(Err(DeviceError::Command(ControllerError::ConnectionClosed { instruction })))
            == Count::Unchanged,
        count_of(Err(DeviceError::Command(ControllerError::Transport { instruction, source })))
            == Count::Unchanged,
        count_of(Err(DeviceError::Command(ControllerError::Rejected { instruction, code })))
            == Count::Refused,
        count_of(Err(DeviceError::Cold { retry_in: after })) == Count::Unchanged,
        count_of(Err(DeviceError::Disabled { field, source: veto, retry_in })) == Count::Unchanged,
        contact_of(Ok(value)) == Contact::Reached,
        contact_of(Err(DeviceError::Connect(dial))) == Contact::Failed,
        contact_of(Err(DeviceError::Command(ControllerError::Timeout { instruction, after })))
            == Contact::Failed,
        contact_of(Err(DeviceError::Command(ControllerError::ConnectionClosed { instruction })))
            == Contact::Failed,
        contact_of(Err(DeviceError::Command(ControllerError::Transport { instruction, source })))
            == Contact::Failed,
        contact_of(Err(DeviceError::Command(ControllerError::Rejected { instruction, code })))
            == Contact::Refused,
        contact_of(Err(DeviceError::Cold { retry_in: after })) == Contact::Gated,
        contact_of(Err(DeviceError::Disabled { field, source: veto, retry_in }))
            == Contact::Vetoed,
{
}

/// An answer makes a field healthy and is worth a line after a failure only; a
/// failure makes it unhealthy and is an onset the first time only; a dial that was
/// held back makes it unhealthy without an onset; and no more is said of a veto.
pub proof fn each_contact_has_its_report(before: Health)
    ensures
        health_after(before, Contact::Reached) == Health::Up,
        health_after(before, Contact::Failed) == Health::Down,
        health_after(before, Contact::Gated) == Health::Down,
        health_after(before, Contact::Refused) == before,
        health_after(before, Contact::Vetoed) == before,
        report_on(Health::Up, Contact::Reached) == Report::Silent,
        report_on(Health::Down, Contact::Reached) == Report::Recovery,
        report_on(Health::Up, Contact::Failed) == Report::Onset,
        report_on(Health::Down, Contact::Failed) == Report::Ongoing,
        report_on(before, Contact::Gated) == Report::Ongoing,
        report_on(before, Contact::Refused) == Report::Refusal,
        report_on(before, Contact::Vetoed) == Report::Silent,
{
}

/// The words for each failure of an exchange.
pub proof fn each_failure_has_its_words(instruction: Seq<char>, source: Seq<char>, after: nat, code: u32)
    ensures
        controller_message(ControllerErrorModel::Timeout { instruction, after }) == "`"@ + (
        instruction + ("` timed out after "@ + time::debug_text(after))),
        controller_message(ControllerErrorModel::ConnectionClosed { instruction })
            == "channel closed during `"@ + (instruction + "`"@),
        controller_message(ControllerErrorModel::Transport { instruction, source }) == "`"@ + (
        instruction + ("`: transport i/o error: "@ + source)),
        controller_message(ControllerErrorModel::Rejected { instruction, code }) == "`"@ + (
        instruction + ("` was refused with code "@ + text::decimal(code as nat))),
{
    reveal_strlit("`: ");
    reveal_strlit("transport i/o error: ");
    reveal_strlit("`: transport i/o error: ");
    assert("`: transport i/o error: "@ =~= "`: "@ + "transport i/o error: "@);
    assert(controller_message(ControllerErrorModel::Timeout { instruction, after }) =~= "`"@ + (
    instruction + ("` timed out after "@ + time::debug_text(after))));
    assert(controller_message(ControllerErrorModel::ConnectionClosed { instruction })
        =~= "channel closed during `"@ + (instruction + "`"@));
    assert(controller_message(ControllerErrorModel::Transport { instruction, source }) =~= "`"@ + (
    instruction + ("`: transport i/o error: "@ + source)));
    assert(controller_message(ControllerErrorModel::Rejected { instruction, code }) =~= "`"@ + (
    instruction + ("` was refused with code "@ + text::decimal(code as nat))));
}

/// An exchange is over as soon as its parser finds a complete reply in what has
/// arrived, and reads on until it does.
pub proof fn an_exchange_is_over_with_its_reply<D: Decode>(parser: D, received: Seq<u8>)
    ensures
        next_after(parser, received) is Read <==> parser.decoded(
            crate::devices::controller::valid_text(received),
        ) is None,
        next_after(parser, received) is Value ==> parser.decoded(
            crate::devices::controller::valid_text(received),
        ) == Some(next_after(parser, received)->Value_0),
        !(next_after(parser, received) is Error),
{
}

// ---- refusals --------------------------------------------------------------

/// A refusal adds one to the count, and switches the field off from the threshold
/// on, or where it was off before.
pub proof fn a_refusal_adds_one(
    known: Option<Watched>,
    threshold: u32,
    self_heal: Option<Duration>,
    now: Duration,
)
    ensures
        known is None ==> refused_again(known, threshold, self_heal, now).refusals == 1,
        known is Some && known->0.refusals < u32::MAX ==> refused_again(
            known,
            threshold,
            self_heal,
            now,
        ).refusals == known->0.refusals + 1,
        known is Some && known->0.refusals == u32::MAX ==> refused_again(
            known,
            threshold,
            self_heal,
            now,
        ).refusals == u32::MAX,
        refused_again(known, threshold, self_heal, now).off is Some <==> (known is Some
            && known->0.off is Some) || refused_again(known, threshold, self_heal, now).refusals
            >= threshold,
{
}

/// A field that a refusal switches off is off for the whole time to heal, counted
/// from that refusal, whenever it was first refused; and for good without one. As
/// time passes, what is left of the wait and what has passed come to the whole.
pub proof fn a_refused_field_waits_from_its_last_refusal(
    known: Option<Watched>,
    threshold: u32,
    self_heal: Option<Duration>,
    now: Duration,
    t: nat,
)
    requires
        refused_again(known, threshold, self_heal, now).off is Some,
    ensures
        ({
            let after = Some(refused_again(known, threshold, self_heal, now));
            &&& self_heal is None ==> veto_of(after, t) == Some(None::<nat>)
            &&& self_heal is Some && now@ <= t < now@ + self_heal->0@ ==> {
                &&& veto_of(after, t) is Some && veto_of(after, t)->0 is Some
                &&& veto_of(after, t)->0->0 + (t - now@) == self_heal->0@
            }
            &&& self_heal is Some && t >= now@ + self_heal->0@ ==> veto_of(after, t) is None
            &&& self_heal is Some && t < now@ && self_heal->0@ > 0 ==> veto_of(after, t) == Some(
                Some(self_heal->0@),
            )
        }),
{
}

/// What was never refused, or not often enough, is not vetoed.
pub proof fn what_is_not_off_may_be_asked(refusals: u32, t: nat)
    ensures
        veto_of(None, t) is None,
        veto_of(Some(Watched { refusals, off: None }), t) is None,
        veto_of(Some(Watched { refusals, off: Some(Off::ForGood) }), t) == Some(None::<nat>),
{
}

/// A veto is seen as long as it lasts.
pub proof fn a_veto_is_seen_as_long_as_it_lasts(wait: Duration)
    ensures
        veto_view(None) is None,
        veto_view(Some(None)) == Some(None::<nat>),
        veto_view(Some(Some(wait))) == Some(Some(wait@)),
{
}

/// A poll of one field changes what is known of that field alone: a refusal where
/// refusals count adds to it, an answer clears it, and nothing else touches it.
pub proof fn a_poll_touches_one_field(
    fields: Map<Seq<char>, Watched>,
    field: Seq<char>,
    other: Seq<char>,
    threshold: u32,
    self_heal: Option<Duration>,
    count: Count,
    now: Duration,
)
    ensures
        ({
            let after = learned_after(fields, field, threshold, self_heal, count, now);
            &&& other != field ==> known_of(after, other) == known_of(fields, other)
            &&& count == Count::Answered ==> known_of(after, field) is None
            &&& count == Count::Unchanged || (count == Count::Refused && threshold == 0)
                ==> known_of(after, field) == known_of(fields, field)
            &&& count == Count::Refused && threshold > 0 ==> known_of(after, field) == Some(
                refused_again(known_of(fields, field), threshold, self_heal, now),
            )
        }),
{
}

/// A line is due for the refusal of a field that was not off, where refusals count,
/// and for the answer of one that was; for nothing else.
pub proof fn a_line_is_due_for_what_changed(
    fields: Map<Seq<char>, Watched>,
    field: Seq<char>,
    threshold: u32,
)
    ensures
        worth_saying(fields, field, threshold, Count::Refused) <==> threshold > 0 && !(
        fields.contains_key(field) && fields[field].off is Some),
        worth_saying(fields, field, threshold, Count::Answered) <==> fields.contains_key(field)
            && fields[field].off is Some,
        !worth_saying(fields, field, threshold, Count::Unchanged),
        was_off(fields, field) <==> fields.contains_key(field) && fields[field].off is Some,
{
}

/// A field is vetoed after an answer never, and after a refusal as what is then
/// known of it says.
pub proof fn an_answer_lifts_the_veto(
    fields: Map<Seq<char>, Watched>,
    field: Seq<char>,
    threshold: u32,
    self_heal: Option<Duration>,
    now: Duration,
)
    ensures
        !vetoed_after(fields, field, threshold, self_heal, Count::Answered, now),
        threshold > 0 && self_heal is Some && self_heal->0@ > 0 ==> (vetoed_after(
            fields,
            field,
            threshold,
            self_heal,
            Count::Refused,
            now,
        ) <==> was_off(fields, field) || refused_again(
            known_of(fields, field),
            threshold,
            self_heal,
            now,
        ).refusals >= threshold),
{
}

/// An entry of what a device refused names the field, its refusals, whether it is
/// off, and the time left where there is an end to it.
pub proof fn an_entry_tells_what_is_known(
    entry: RefusedField,
    field: Seq<char>,
    known: Watched,
    now: Duration,
)
    requires
        tells_of(entry, field, known, now),
    ensures
        entry.name@ == field,
        entry.refusals == known.refusals,
        entry.disabled <==> known.off is Some,
        known.off is None || known.off == Some(Off::ForGood) ==> entry.retry_in is None,
        known.off matches Some(Off::Until { since, wait }) ==> (since@ <= now@ ==> (entry.retry_in
            is Some <==> now@ < since@ + wait@) && (entry.retry_in is Some ==> now@
            + entry.retry_in->0@ == since@ + wait@)),
{
}

// ---- the schedule ----------------------------------------------------------

/// Of several entries for a field the last one with an interval counts.
pub proof fn the_last_interval_counts(
    schedule: Seq<FieldModel>,
    entry: FieldModel,
    field: Seq<char>,
)
    ensures
        interval_for(Seq::empty(), field) is None,
        entry.interval is Some ==> interval_for(schedule.push(entry), entry.name)
            == entry.interval,
        entry.interval is None || entry.name != field ==> interval_for(schedule.push(entry), field)
            == interval_for(schedule, field),
{
    assert(schedule.push(entry).drop_last() =~= schedule);
}

/// A pair is polled exactly if its device is in the fleet and does not decline its
/// field, and the field has an interval: at that interval, and on that device.
pub proof fn a_pair_is_polled_as_scheduled(
    schedule: Seq<FieldModel>,
    fleet: Fleet,
    field: Seq<char>,
    device: Seq<char>,
)
    ensures
        ({
            let wanted = wanted_map(schedule, fleet);
            let pair = (field, device);
            &&& wanted.contains_key(pair) <==> fleet.contains_key(device)
                && !fleet[device].disabled_fields.contains(field) && interval_for(
                schedule,
                field,
            ) is Some
            &&& wanted.contains_key(pair) ==> wanted[pair].interval == interval_for(
                schedule,
                field,
            )->0 && wanted[pair].device == fleet[device].uuid
        }),
{
    assert(wanted_of(schedule, fleet, (field, device)) is Some <==> fleet.contains_key(device)
        && !fleet[device].disabled_fields.contains(field) && interval_for(schedule, field)
        is Some);
}

/// What is done for a pair: it is started where it does not run and is wanted,
/// stopped where it runs and is not, bound anew where the device was replaced,
/// whatever its interval, timed anew where only the interval differs, and left
/// alone where nothing does.
pub proof fn each_difference_has_its_action(running: Wanted, wanted: Wanted)
    ensures
        action_for(None, None) == Action::Leave,
        action_for(None, Some(wanted)) == Action::Start,
        action_for(Some(running), None) == Action::Stop,
        running.device != wanted.device ==> action_for(Some(running), Some(wanted))
            == Action::Rebind,
        running.device == wanted.device && running.interval != wanted.interval ==> action_for(
            Some(running),
            Some(wanted),
        ) == Action::Retime,
        running == wanted ==> action_for(Some(running), Some(wanted)) == Action::Leave,
{
}

/// Pairs are ordered by field, and by device within a field.
pub proof fn pairs_are_ordered_by_field_first(a: Pair, b: Pair)
    ensures
        text::lex_lt(a.0, b.0) ==> pair_lt(a, b) && !pair_lt(b, a),
        a.0 == b.0 ==> (pair_lt(a, b) <==> text::lex_lt(a.1, b.1)),
{
    text::lex_irreflexive(a.0);
    if text::lex_lt(a.0, b.0) && text::lex_lt(b.0, a.0) {
        text::lex_transitive(a.0, b.0, a.0);
    }
}

/// A pass that moved nothing has no loop started, stopped, retimed or rebound; what
/// is declined is no change.
pub proof fn what_is_declined_is_no_change(change: Change, declined: usize)
    ensures
        change.nothing() <==> change.started as int + change.stopped + change.retimed
            + change.rebound == 0,
        (Change { declined, ..change }).nothing() == change.nothing(),
{
}

/// The fields that are listed and never polled are those without an interval, in
/// the order of the list.
pub proof fn what_is_never_polled_has_no_interval(a: Seq<FieldModel>, b: Seq<FieldModel>)
    ensures
        never_polled_in(a + b) == never_polled_in(a) + never_polled_in(b),
        a.len() == 1 ==> never_polled_in(a) == if a[0].interval is None {
            seq![a[0].name]
        } else {
            Seq::empty()
        },
    decreases b.len(),
{
    if a.len() == 1 {
        reveal_with_fuel(never_polled_in, 2);
        assert(never_polled_in(a.drop_last()) =~= Seq::<Seq<char>>::empty());
        assert(never_polled_in(a) =~= if a[0].interval is None {
            seq![a[0].name]
        } else {
            Seq::empty()
        });
    }
    if b.len() == 0 {
        assert(a + b =~= a);
        assert(never_polled_in(a) + never_polled_in(b) =~= never_polled_in(a));
    } else {
        what_is_never_polled_has_no_interval(a, b.drop_last());
        assert((a + b).drop_last() =~= a + b.drop_last());
        assert(never_polled_in(a + b) =~= never_polled_in(a) + never_polled_in(b));
    }
}

} // verus!
