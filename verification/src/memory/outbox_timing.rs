//! When a write can be handed out, how often it is tried, and how long a group
//! waits for its members.

use vstd::prelude::*;
use crate::api::{Barrier, Phase, StatusModel};
use crate::memory::outbox_model;
use crate::memory::outbox_model::{Gate, OutboxModel, StepModel};
use crate::ordered;
use crate::store::outbox;
use crate::store::outbox::{ClaimModel, OutcomeModel, SubmissionModel};
use crate::text;
use crate::time;
use crate::time::Instant;
use crate::time_laws;
use crate::time_laws::{ordinary, position};

verus! {

// ---- stamps and delays -----------------------------------------------------

/// A delayed stamp is the text of the instant that many nanoseconds after the one
/// the stamp names. A stamp that names no instant, and a delay that leads off the
/// calendar or is no step of it, leave the stamp as it was.
pub proof fn a_delay_is_a_distance(at: Seq<char>, delay: nat, j: Instant)
    ensures
        time::rfc3339_instant(at) is None ==> outbox_model::delayed(at, delay) == at,
        delay > time::STEP_MAX ==> outbox_model::delayed(at, delay) == at,
        match time::rfc3339_instant(at) {
            Some(i) => ordinary(i) && ordinary(j) && delay <= time::STEP_MAX && position(j)
                == position(i) + delay ==> outbox_model::delayed(at, delay) == time::rfc3339_text(
                j,
            ),
            None => true,
        },
{
    if let Some(i) = time::rfc3339_instant(at) {
        if ordinary(i) && ordinary(j) && position(j) == position(i) + delay {
            time_laws::a_step_forward_is_a_distance(i, delay);
            time_laws::a_position_is_one_instant(time::later_by(i, delay)->0, j);
        }
    }
}

/// After a failure that leaves tries, a write cannot be handed out before the
/// instant of the failure plus the backoff for each try it has had, whenever it
/// was submitted; from that instant on it can.
pub proof fn a_retry_waits_from_its_failure(
    m: OutboxModel,
    id: Seq<char>,
    reason: Seq<char>,
    at: Seq<char>,
    i: Instant,
    j: Instant,
    t: Seq<char>,
)
    requires
        outbox_model::settle_complaint(m, id) is None,
        m.records[id].attempts < m.max_attempts,
        time::rfc3339_instant(at) == Some(i),
        ordinary(i),
        ordinary(j),
        m.backoff * m.records[id].attempts as nat <= time::STEP_MAX,
        position(j) == position(i) + m.backoff * m.records[id].attempts,
    ensures
        ({
            let n = outbox_model::settle_state(m, id, OutcomeModel::Failed(reason), at);
            let device = m.records[id].device;
            &&& n.records[id].not_before == time::rfc3339_text(j)
            &&& n.head(device) == Some(id) && text::lex_lt(t, time::rfc3339_text(j)) ==> {
                &&& outbox_model::claim_result(n, device, t) is None
                &&& outbox_model::claim_state(n, device, t) == n
            }
            &&& n.head(device) == Some(id) && !text::lex_lt(t, time::rfc3339_text(j))
                && m.records[id].batch is None ==> outbox_model::claim_result(n, device, t) is Some
        }),
{
    a_delay_is_a_distance(at, m.backoff * m.records[id].attempts as nat, j);
}

/// A failure whose stamp names no instant is retried from that stamp on.
pub proof fn a_retry_without_an_instant_waits_from_its_stamp(
    m: OutboxModel,
    id: Seq<char>,
    reason: Seq<char>,
    at: Seq<char>,
)
    requires
        outbox_model::settle_complaint(m, id) is None,
        m.records[id].attempts < m.max_attempts,
        time::rfc3339_instant(at) is None,
    ensures
        outbox_model::settle_state(m, id, OutcomeModel::Failed(reason), at).records[id].not_before
            == at,
{
}

// ---- tries -----------------------------------------------------------------

/// A failed write is queued again while it has had fewer tries than there are, and
/// failed for good once it has had them all. Either way nothing of the write changes
/// but where it has got to, when it was touched and when it may go.
pub proof fn a_failure_is_retried_until_the_tries_are_used(
    m: OutboxModel,
    id: Seq<char>,
    reason: Seq<char>,
    at: Seq<char>,
)
    requires
        outbox_model::settle_complaint(m, id) is None,
    ensures
        ({
            let before = m.records[id];
            let n = outbox_model::settle_state(m, id, OutcomeModel::Failed(reason), at);
            let after = n.records[id];
            &&& after.status == StatusModel::Pending <==> before.attempts < m.max_attempts
            &&& after.status == (StatusModel::Failed { reason }) <==> before.attempts
                >= m.max_attempts
            &&& after.updated_at == at
            &&& after.id == before.id
            &&& after.device == before.device
            &&& after.intent == before.intent
            &&& after.batch == before.batch
            &&& after.epoch == before.epoch
            &&& after.attempts == before.attempts
            &&& after.enqueued_at == before.enqueued_at
            &&& before.attempts >= m.max_attempts ==> after.not_before == before.not_before
            &&& before.attempts >= m.max_attempts ==> n.log(before.device).queue == m.log(
                before.device,
            ).queue
            &&& before.attempts < m.max_attempts ==> {
                &&& n.log(before.device).queue.len() == m.log(before.device).queue.len() + 1
                &&& n.log(before.device).queue.contains(id)
                &&& n.log(before.device).phase == m.log(before.device).phase
            }
            &&& n.log(before.device).epoch == m.log(before.device).epoch
            &&& n.log(before.device).history == m.log(before.device).history
            &&& n.log(before.device).keys == m.log(before.device).keys
        }),
{
    let before = m.records[id];
    let log = m.log(before.device);
    place_fits(log.queue, log.history, id);
    let p = outbox_model::place(log.queue, log.history, id) as int;
    assert(log.queue.insert(p, id)[p] == id);
}

proof fn place_fits(queue: Seq<Seq<char>>, history: Seq<Seq<char>>, id: Seq<char>)
    ensures
        outbox_model::place(queue, history, id) <= queue.len(),
    decreases queue.len(),
{
    if queue.len() > 0 {
        place_fits(queue.drop_first(), history, id);
    }
}

/// A success is recorded with what the device reported and when, and changes
/// nothing else: no phase, no queue, no batch, and no other write.
pub proof fn a_success_is_recorded(
    m: OutboxModel,
    id: Seq<char>,
    value: crate::api::ValueModel,
    at: Seq<char>,
)
    requires
        outbox_model::settle_complaint(m, id) is None,
    ensures
        ({
            let n = outbox_model::settle_state(m, id, OutcomeModel::Succeeded(value), at);
            let before = m.records[id];
            let after = n.records[id];
            &&& after.status == (StatusModel::Succeeded { value })
            &&& after.updated_at == at
            &&& after.not_before == before.not_before
            &&& after.enqueued_at == before.enqueued_at
            &&& after.attempts == before.attempts
            &&& after.epoch == before.epoch
            &&& after.batch == before.batch
            &&& n.logs == m.logs
            &&& n.batches == m.batches
            &&& n.groups == m.groups
            &&& n.records.remove(id) =~= m.records.remove(id)
        }),
{
}

/// Only a write that is in flight can be settled, and one that is not is told so
/// in words that say which.
pub proof fn only_a_write_in_flight_settles(m: OutboxModel, id: Seq<char>)
    ensures
        outbox_model::settle_complaint(m, id) is None <==> m.records.contains_key(id)
            && m.records[id].status == StatusModel::InFlight,
        !m.records.contains_key(id) ==> outbox_model::settle_complaint(m, id) == Some(
            "settling an unknown write"@,
        ),
        m.records.contains_key(id) && m.records[id].status != StatusModel::InFlight
            ==> outbox_model::settle_complaint(m, id) == Some(
            "settling a write that was not in flight"@,
        ),
{
}

/// A claimed write is in flight since the claim, with one try more; when it was
/// submitted, and everything else it is, stays.
pub proof fn a_claim_spends_a_try(m: OutboxModel, device: Seq<char>, at: Seq<char>)
    requires
        m.head(device) is Some,
        !text::lex_lt(at, m.records[m.head(device)->0].not_before),
        m.records[m.head(device)->0].batch is None,
        m.records[m.head(device)->0].attempts < u32::MAX,
    ensures
        ({
            let id = m.head(device)->0;
            let before = m.records[id];
            let n = outbox_model::claim_state(m, device, at);
            let after = n.records[id];
            &&& outbox_model::claim_result(m, device, at) == Some(ClaimModel::One(after))
            &&& after.status == StatusModel::InFlight
            &&& after.attempts == before.attempts + 1
            &&& after.updated_at == at
            &&& after.id == before.id
            &&& after.device == before.device
            &&& after.intent == before.intent
            &&& after.batch == before.batch
            &&& after.epoch == before.epoch
            &&& after.enqueued_at == before.enqueued_at
            &&& after.not_before == before.not_before
            &&& n.log(device).phase == m.log(device).phase
            &&& n.log(device).epoch == m.log(device).epoch
            &&& n.log(device).history == m.log(device).history
            &&& n.log(device).queue.len() + 1 == m.log(device).queue.len()
            &&& n.batches == m.batches
        }),
{
}

/// A device whose queue is empty, or whose oldest write is not due, hands out
/// nothing, and asking it changes nothing.
pub proof fn nothing_is_handed_out_early(m: OutboxModel, device: Seq<char>, at: Seq<char>)
    requires
        m.head(device) is None || text::lex_lt(at, m.records[m.head(device)->0].not_before),
    ensures
        outbox_model::claim_result(m, device, at) is None,
        outbox_model::claim_state(m, device, at) == m,
{
}

// ---- submitting ------------------------------------------------------------

proof fn recorded_record(m: OutboxModel, s: SubmissionModel, n: nat, i: int)
    requires
        n <= s.targets.len(),
        s.ids.len() == s.targets.len(),
        s.ids.no_duplicates(),
        0 <= i < n,
    ensures
        outbox_model::recorded(m, s, n).records.contains_key(s.ids[i]),
        outbox_model::recorded(m, s, n).records[s.ids[i]] == outbox_model::new_record(m, s, i),
    decreases n,
{
    if i < n - 1 {
        recorded_record(m, s, (n - 1) as nat, i);
        assert(s.ids[i] != s.ids[n - 1]);
    }
}

/// Each write of an admitted submission is on record under its own id, for its own
/// target, as submitted: pending, untried, due from the stamp of the submission on,
/// and in the batch of the submission.
pub proof fn a_submitted_write_is_on_record(m: OutboxModel, s: SubmissionModel, i: int)
    requires
        outbox_model::submit_result(m, s) is Ok,
        outbox_model::replay(m, s) is None,
        s.ids.no_duplicates(),
        0 <= i < s.targets.len(),
    ensures
        ({
            let n = outbox_model::submit_state(m, s);
            let r = n.records[s.ids[i]];
            let before = m.log(s.targets[i]);
            &&& n.records.contains_key(s.ids[i])
            &&& r.id == s.ids[i]
            &&& r.device == s.targets[i]
            &&& r.intent == s.intent
            &&& r.batch == s.batch
            &&& r.status == StatusModel::Pending
            &&& r.attempts == 0
            &&& r.enqueued_at == s.at
            &&& r.updated_at == s.at
            &&& r.not_before == s.at
            &&& before.epoch < u64::MAX ==> r.epoch == before.epoch + if before.phase
                == crate::api::Phase::Idle {
                1int
            } else {
                0
            }
            &&& outbox_model::submit_result(m, s)->Ok_0.batch == s.batch
            &&& outbox_model::submit_result(m, s)->Ok_0.writes.len() == s.targets.len()
            &&& outbox_model::submit_result(m, s)->Ok_0.writes[i].id == s.ids[i]
            &&& outbox_model::submit_result(m, s)->Ok_0.writes[i].device == s.targets[i]
            &&& outbox_model::submit_result(m, s)->Ok_0.writes[i].epoch == r.epoch
        }),
{
    recorded_record(m, s, s.targets.len(), i);
}

proof fn recorded_queue(m: OutboxModel, s: SubmissionModel, n: nat)
    requires
        n <= s.targets.len(),
        s.ids.len() == s.targets.len(),
    ensures
        forall|d: Seq<char>, i: int|
            #![trigger outbox_model::recorded(m, s, n).log(d), s.ids[i]]
            0 <= i < n && s.targets[i] == d ==> outbox_model::recorded(m, s, n).log(
                d,
            ).queue.contains(s.ids[i]) && outbox_model::recorded(m, s, n).log(d).history.contains(
                s.ids[i],
            ),
    decreases n,
{
    if n > 0 {
        recorded_queue(m, s, (n - 1) as nat);
        let prev = outbox_model::recorded(m, s, (n - 1) as nat);
        let now = outbox_model::recorded(m, s, n);
        assert forall|d: Seq<char>, i: int|
            #![trigger now.log(d), s.ids[i]]
            0 <= i < n && s.targets[i] == d implies now.log(d).queue.contains(s.ids[i]) && now.log(
            d,
        ).history.contains(s.ids[i]) by {
            let before = prev.log(d);
            if d == s.targets[n - 1] {
                assert(now.log(d).queue == before.queue.push(s.ids[n - 1]));
                assert(now.log(d).history == before.history.push(s.ids[n - 1]));
                assert(now.log(d).queue.last() == s.ids[n - 1]);
                assert(now.log(d).history.last() == s.ids[n - 1]);
                if i < n - 1 {
                    assert(before.queue.contains(s.ids[i]) && before.history.contains(s.ids[i]));
                    let x = choose|x: int| 0 <= x < before.queue.len() && before.queue[x] == s.ids[i];
                    let y = choose|y: int|
                        0 <= y < before.history.len() && before.history[y] == s.ids[i];
                    assert(now.log(d).queue[x] == s.ids[i]);
                    assert(now.log(d).history[y] == s.ids[i]);
                }
            } else {
                assert(now.log(d) == before);
            }
        }
    }
}

/// Each write of an admitted submission waits in the queue of its target and
/// stands in the target's history.
pub proof fn a_submitted_write_is_queued(m: OutboxModel, s: SubmissionModel, i: int)
    requires
        outbox_model::submit_result(m, s) is Ok,
        outbox_model::replay(m, s) is None,
        0 <= i < s.targets.len(),
    ensures
        outbox_model::submit_state(m, s).log(s.targets[i]).queue.contains(s.ids[i]),
        outbox_model::submit_state(m, s).log(s.targets[i]).history.contains(s.ids[i]),
{
    recorded_queue(m, s, s.targets.len());
    let made = outbox_model::recorded(m, s, s.targets.len());
    assert(outbox_model::submit_state(m, s).logs == made.logs);
    assert(outbox_model::submit_state(m, s).log(s.targets[i]) == made.log(s.targets[i]));
}

/// What a submission without targets, or with another number of ids, is told.
pub proof fn a_malformed_submission_is_told_why(m: OutboxModel, s: SubmissionModel)
    ensures
        s.targets.len() == 0 ==> outbox_model::submit_result(m, s) == Err::<
            crate::api::AcceptanceModel,
            outbox::SubmitErrorModel,
        >(outbox::SubmitErrorModel::Malformed("no targets"@)),
        s.targets.len() > 0 && s.ids.len() != s.targets.len() ==> outbox_model::submit_result(m, s)
            == Err::<crate::api::AcceptanceModel, outbox::SubmitErrorModel>(
            outbox::SubmitErrorModel::Malformed(
                text::decimal(s.ids.len()) + (" ids for "@ + (text::decimal(s.targets.len())
                    + " targets"@)),
            ),
        ),
{
    assert(text::decimal(s.ids.len()) + " ids for "@ + text::decimal(s.targets.len()) + " targets"@
        =~= text::decimal(s.ids.len()) + (" ids for "@ + (text::decimal(s.targets.len())
        + " targets"@)));
}

proof fn first_refused(m: OutboxModel, s: SubmissionModel, from: int, i: int)
    requires
        0 <= from <= i < s.targets.len(),
        forall|k: int|
            from <= k < i ==> outbox::admission(
                m.log(#[trigger] s.targets[k]).phase,
                outbox::verb_of(s.intent),
            ) is Ok,
        outbox::admission(m.log(s.targets[i]).phase, outbox::verb_of(s.intent)) is Err,
    ensures
        outbox_model::refusal(m, s, from) == Some(
            outbox::SubmitErrorModel::Rejected {
                device: s.targets[i],
                rejection: outbox::admission(
                    m.log(s.targets[i]).phase,
                    outbox::verb_of(s.intent),
                )->Err_0,
                desired_recording_state: m.log(s.targets[i]).phase,
            },
        ),
    decreases i - from,
{
    if from < i {
        assert(outbox::admission(m.log(s.targets[from]).phase, outbox::verb_of(s.intent)) is Ok);
        first_refused(m, s, from + 1, i);
    }
}

/// One target that the admission table refuses refuses the whole submission, and
/// the first of them is the one named, with the phase that it is in.
pub proof fn the_first_refused_target_is_named(m: OutboxModel, s: SubmissionModel, i: int)
    requires
        s.ids.len() == s.targets.len(),
        outbox_model::replay(m, s) is None,
        0 <= i < s.targets.len(),
        forall|k: int|
            0 <= k < i ==> outbox::admission(
                m.log(#[trigger] s.targets[k]).phase,
                outbox::verb_of(s.intent),
            ) is Ok,
        outbox::admission(m.log(s.targets[i]).phase, outbox::verb_of(s.intent)) is Err,
    ensures
        outbox_model::submit_result(m, s) == Err::<
            crate::api::AcceptanceModel,
            outbox::SubmitErrorModel,
        >(
            outbox::SubmitErrorModel::Rejected {
                device: s.targets[i],
                rejection: outbox::admission(
                    m.log(s.targets[i]).phase,
                    outbox::verb_of(s.intent),
                )->Err_0,
                desired_recording_state: m.log(s.targets[i]).phase,
            },
        ),
{
    first_refused(m, s, 0, i);
}

proof fn none_refused(m: OutboxModel, s: SubmissionModel, from: int)
    requires
        0 <= from <= s.targets.len(),
        forall|k: int|
            from <= k < s.targets.len() ==> outbox::admission(
                m.log(#[trigger] s.targets[k]).phase,
                outbox::verb_of(s.intent),
            ) is Ok,
    ensures
        outbox_model::refusal(m, s, from) is None,
    decreases s.targets.len() - from,
{
    if from < s.targets.len() {
        assert(outbox::admission(m.log(s.targets[from]).phase, outbox::verb_of(s.intent)) is Ok);
        none_refused(m, s, from + 1);
    }
}

/// A submission whose every target the admission table admits is admitted.
pub proof fn a_submission_is_admitted_when_every_target_is(m: OutboxModel, s: SubmissionModel)
    requires
        s.targets.len() > 0,
        s.ids.len() == s.targets.len(),
        forall|k: int|
            0 <= k < s.targets.len() ==> outbox::admission(
                m.log(#[trigger] s.targets[k]).phase,
                outbox::verb_of(s.intent),
            ) is Ok,
    ensures
        outbox_model::submit_result(m, s) is Ok,
{
    none_refused(m, s, 0);
}

// ---- batches ---------------------------------------------------------------

/// A batch is armed when it is submitted, waits for exactly its targets, and has
/// fifteen seconds before it fails as a whole, unless it was given a barrier.
pub proof fn a_batch_is_armed_at_submission(m: OutboxModel, s: SubmissionModel, b: Seq<char>)
    requires
        outbox_model::submit_result(m, s) is Ok,
        outbox_model::replay(m, s) is None,
        s.batch == Some(b),
    ensures
        ({
            let batch = outbox_model::submit_state(m, s).batches[b];
            &&& outbox_model::submit_state(m, s).batches.contains_key(b)
            &&& batch.armed_at == s.at
            &&& batch.gate == Gate::Waiting
            &&& batch.ready == Seq::<Seq<char>>::empty()
            &&& ordered::in_order(batch.members)
            &&& forall|k: Seq<char>| batch.members.contains(k) <==> s.targets.contains(k)
            &&& s.barrier is Some ==> batch.barrier == s.barrier->0
            &&& s.barrier is None ==> batch.barrier.timeout == 15 * 1_000_000_000
                && batch.barrier.on_timeout == Barrier::FailBatch
        }),
{
    outbox_model::sorted_set_is(s.targets);
}

/// A group has waited long enough from the first nanosecond past its timeout on,
/// counted from when it was armed, and not at the timeout itself.
pub proof fn a_timeout_is_a_distance(
    armed: Seq<char>,
    timeout: nat,
    now: Seq<char>,
    i: Instant,
    j: Instant,
)
    requires
        time::rfc3339_instant(armed) == Some(i),
        time::rfc3339_instant(now) == Some(j),
        ordinary(i),
        ordinary(j),
        timeout <= time::STEP_MAX,
    ensures
        outbox_model::elapsed(armed, timeout, now) <==> position(j) > position(i) + timeout,
{
    time_laws::a_step_forward_is_a_distance(i, timeout);
    if let Some(deadline) = time::later_by(i, timeout) {
        time_laws::order_is_order_of_positions(deadline, j);
    }
}

/// A stamp that names no instant, and a timeout that is no step of the calendar,
/// keep a group waiting.
pub proof fn an_unreadable_wait_goes_on(armed: Seq<char>, timeout: nat, now: Seq<char>)
    requires
        time::rfc3339_instant(armed) is None || time::rfc3339_instant(now) is None || timeout
            > time::STEP_MAX,
    ensures
        !outbox_model::elapsed(armed, timeout, now),
{
}

/// A member is ready when the oldest write in its queue is of the batch and due.
pub proof fn a_member_is_ready_at_its_head(
    m: OutboxModel,
    member: Seq<char>,
    batch: Seq<char>,
    at: Seq<char>,
)
    ensures
        outbox_model::ready_for(m, member, batch, at) <==> {
            &&& m.log(member).queue.len() > 0
            &&& m.records[m.log(member).queue[0]].batch == Some(batch)
            &&& at == m.records[m.log(member).queue[0]].not_before || text::lex_lt(
                m.records[m.log(member).queue[0]].not_before,
                at,
            )
        },
{
    if m.log(member).queue.len() > 0 {
        let due = m.records[m.log(member).queue[0]].not_before;
        if at != due {
            text::lex_total(at, due);
            if text::lex_lt(at, due) && text::lex_lt(due, at) {
                text::lex_transitive(at, due, at);
                text::lex_irreflexive(at);
            }
        } else {
            text::lex_irreflexive(at);
        }
    }
}

/// The members that were ready, each once and in the order of the batch.
proof fn ready_are_members(
    m: OutboxModel,
    members: Seq<Seq<char>>,
    batch: Seq<char>,
    at: Seq<char>,
    d: Seq<char>,
)
    ensures
        outbox_model::ready_members(m, members, batch, at).contains(d) <==> members.contains(d)
            && outbox_model::ready_for(m, d, batch, at),
    decreases members.len(),
{
    reveal(Seq::filter);
    let ready = outbox_model::ready_members(m, members, batch, at);
    if members.len() > 0 {
        let shorter = members.drop_last();
        ready_are_members(m, shorter, batch, at, d);
        let before = outbox_model::ready_members(m, shorter, batch, at);
        if before.contains(d) {
            let x = choose|x: int| 0 <= x < before.len() && before[x] == d;
            assert(ready[x] == d);
        }
        if shorter.contains(d) {
            let x = choose|x: int| 0 <= x < shorter.len() && shorter[x] == d;
            assert(members[x] == d);
        }
        if members.last() == d && outbox_model::ready_for(m, d, batch, at) {
            assert(ready.last() == d);
        }
        if members.contains(d) && members.last() != d {
            let x = choose|x: int| 0 <= x < members.len() && members[x] == d;
            assert(shorter[x] == d);
        }
        if ready.contains(d) {
            let x = choose|x: int| 0 <= x < ready.len() && ready[x] == d;
            if x < before.len() {
                assert(before[x] == d);
            }
        }
    }
}

proof fn all_ready(m: OutboxModel, members: Seq<Seq<char>>, batch: Seq<char>, at: Seq<char>)
    requires
        forall|i: int|
            0 <= i < members.len() ==> outbox_model::ready_for(
                m,
                #[trigger] members[i],
                batch,
                at,
            ),
    ensures
        outbox_model::ready_members(m, members, batch, at) == members,
    decreases members.len(),
{
    reveal(Seq::filter);
    if members.len() > 0 {
        let shorter = members.drop_last();
        assert forall|i: int| 0 <= i < shorter.len() implies outbox_model::ready_for(
            m,
            #[trigger] shorter[i],
            batch,
            at,
        ) by {
            assert(members[i] == shorter[i]);
        }
        all_ready(m, shorter, batch, at);
        assert(outbox_model::ready_for(m, members[members.len() - 1], batch, at));
        assert(shorter.push(members.last()) =~= members);
    }
    assert(outbox_model::ready_members(m, members, batch, at) =~= members);
}

/// What a group that is still filling does. With everyone there it goes out as one,
/// at any time. Before its time is up it waits while anyone is missing. After that
/// it goes out with those who are there, or fails them, as its barrier says.
pub proof fn a_filling_batch_is_decided(
    m: OutboxModel,
    batch: Seq<char>,
    device: Seq<char>,
    at: Seq<char>,
    d: Seq<char>,
)
    requires
        m.batches.contains_key(batch),
        m.batches[batch].gate == Gate::Waiting,
    ensures
        ({
            let b = m.batches[batch];
            let step = outbox_model::batch_step(m, batch, device, at);
            let late = outbox_model::elapsed(b.armed_at, b.barrier.timeout, at);
            let everyone = forall|i: int|
                0 <= i < b.members.len() ==> outbox_model::ready_for(
                    m,
                    #[trigger] b.members[i],
                    batch,
                    at,
                );
            let here = b.members.contains(d) && outbox_model::ready_for(m, d, batch, at);
            &&& everyone ==> step == StepModel::Release(b.members)
            &&& !everyone && !late ==> step == StepModel::Wait
            &&& !everyone && late && b.barrier.on_timeout == Barrier::FailBatch ==> {
                &&& step is Fail
                &&& step->Fail_0.contains(d) <==> here
            }
            &&& !everyone && late && b.barrier.on_timeout == Barrier::DispatchReady ==> {
                &&& step is Release
                &&& step->Release_0.contains(d) <==> here
            }
        }),
{
    let b = m.batches[batch];
    let ready = outbox_model::ready_members(m, b.members, batch, at);
    ready_are_members(m, b.members, batch, at, d);
    let everyone = forall|i: int|
        0 <= i < b.members.len() ==> outbox_model::ready_for(m, #[trigger] b.members[i], batch, at);
    if everyone {
        all_ready(m, b.members, batch, at);
    } else if ready == b.members {
        let i = choose|i: int|
            0 <= i < b.members.len() && !outbox_model::ready_for(
                m,
                #[trigger] b.members[i],
                batch,
                at,
            );
        ready_are_members(m, b.members, batch, at, b.members[i]);
        assert(b.members.contains(b.members[i]));
        assert(false);
    }
}

/// What a decided group does: once it went out, a late member goes out alone; once
/// it failed, a late member fails; and a write of a batch that is not known waits.
pub proof fn a_decided_batch_stays_decided(
    m: OutboxModel,
    batch: Seq<char>,
    device: Seq<char>,
    at: Seq<char>,
)
    ensures
        !m.batches.contains_key(batch) ==> outbox_model::batch_step(m, batch, device, at)
            == StepModel::Wait,
        m.batches.contains_key(batch) && m.batches[batch].gate == Gate::Open
            ==> outbox_model::batch_step(m, batch, device, at) == StepModel::Alone
            && outbox_model::batch_evaluated(m, batch, device, at) == m,
        m.batches.contains_key(batch) && m.batches[batch].gate == Gate::Abandoned
            ==> outbox_model::batch_step(m, batch, device, at) == StepModel::Fail(seq![device])
            && outbox_model::batch_evaluated(m, batch, device, at) == m,
{
}

/// Evaluating a group that is still filling notes who is there and what was
/// decided, and keeps its members, its barrier and when it was armed.
pub proof fn evaluating_notes_the_decision(
    m: OutboxModel,
    batch: Seq<char>,
    device: Seq<char>,
    at: Seq<char>,
    d: Seq<char>,
)
    requires
        m.batches.contains_key(batch),
        m.batches[batch].gate == Gate::Waiting,
    ensures
        ({
            let before = m.batches[batch];
            let n = outbox_model::batch_evaluated(m, batch, device, at);
            let after = n.batches[batch];
            let step = outbox_model::batch_step(m, batch, device, at);
            &&& after.members == before.members
            &&& after.armed_at == before.armed_at
            &&& after.barrier == before.barrier
            &&& after.ready.contains(d) <==> before.members.contains(d)
                && outbox_model::ready_for(m, d, batch, at)
            &&& after.gate == Gate::Waiting <==> step is Wait
            &&& after.gate == Gate::Open <==> step is Release
            &&& after.gate == Gate::Abandoned <==> step is Fail
            &&& n.logs == m.logs
            &&& n.records == m.records
            &&& n.groups == m.groups
        }),
{
    ready_are_members(m, m.batches[batch].members, batch, at, d);
}

proof fn without_keeps_the_rest(s: Seq<Seq<char>>, key: Seq<char>, d: Seq<char>)
    ensures
        outbox_model::without(s, key).contains(d) <==> s.contains(d) && d != key,
    decreases s.len(),
{
    reveal(Seq::filter);
    let kept = outbox_model::without(s, key);
    if s.len() > 0 {
        let shorter = s.drop_last();
        without_keeps_the_rest(shorter, key, d);
        let before = outbox_model::without(shorter, key);
        if before.contains(d) {
            let x = choose|x: int| 0 <= x < before.len() && before[x] == d;
            assert(kept[x] == d);
        }
        if shorter.contains(d) {
            let x = choose|x: int| 0 <= x < shorter.len() && shorter[x] == d;
            assert(s[x] == d);
        }
        if s.last() == d && d != key {
            assert(kept.last() == d);
        }
        if s.contains(d) && s.last() != d {
            let x = choose|x: int| 0 <= x < s.len() && s[x] == d;
            assert(shorter[x] == d);
        }
        if kept.contains(d) {
            let x = choose|x: int| 0 <= x < kept.len() && kept[x] == d;
            if x < before.len() {
                assert(before[x] == d);
            }
        }
    }
}

/// A member whose write failed is no longer ready. While it has tries left its
/// group goes on waiting for it; once it has none, the group no longer does. Every
/// other member stays, and so do the barrier and what was decided.
pub proof fn a_group_waits_for_a_retry_and_not_for_a_loss(
    m: OutboxModel,
    id: Seq<char>,
    reason: Seq<char>,
    at: Seq<char>,
    b: Seq<char>,
    d: Seq<char>,
)
    requires
        outbox_model::settle_complaint(m, id) is None,
        m.records[id].batch == Some(b),
        m.batches.contains_key(b),
    ensures
        ({
            let r = m.records[id];
            let before = m.batches[b];
            let after = outbox_model::settle_state(
                m,
                id,
                OutcomeModel::Failed(reason),
                at,
            ).batches[b];
            &&& after.ready.contains(d) <==> before.ready.contains(d) && d != r.device
            &&& r.attempts < m.max_attempts ==> after.members == before.members
            &&& r.attempts >= m.max_attempts ==> (after.members.contains(d)
                <==> before.members.contains(d) && d != r.device)
            &&& after.armed_at == before.armed_at
            &&& after.barrier == before.barrier
            &&& after.gate == before.gate
        }),
{
    let r = m.records[id];
    without_keeps_the_rest(m.batches[b].ready, r.device, d);
    without_keeps_the_rest(m.batches[b].members, r.device, d);
}

/// A write that fails with its group was never tried: it keeps its tries, leaves
/// its queue, says why it failed, and the phase that it moved is moved back.
pub proof fn a_write_that_fails_with_its_group(m: OutboxModel, device: Seq<char>, at: Seq<char>)
    requires
        m.head(device) is Some,
    ensures
        ({
            let id = m.head(device)->0;
            let before = m.records[id];
            let n = outbox_model::head_failed(m, device, at);
            let after = n.records[id];
            &&& after.status == (StatusModel::Failed {
                reason: "the group barrier expired before every member was ready"@,
            })
            &&& after.updated_at == at
            &&& after.attempts == before.attempts
            &&& after.enqueued_at == before.enqueued_at
            &&& after.not_before == before.not_before
            &&& after.epoch == before.epoch
            &&& n.log(device).queue.len() + 1 == m.log(device).queue.len()
            &&& n.log(device).history == m.log(device).history
            &&& n.log(device).epoch == m.log(device).epoch
            &&& n.log(device).phase == outbox::rolled_back(
                m.log(device).phase,
                outbox::verb_of(before.intent),
            )
            &&& n.batches == m.batches
        }),
{
}

/// A failed write's phase is moved back once there are no tries left, as the table
/// says for its verb, and no earlier.
pub proof fn a_phase_is_moved_back_with_the_last_try(
    m: OutboxModel,
    id: Seq<char>,
    reason: Seq<char>,
    at: Seq<char>,
)
    requires
        outbox_model::settle_complaint(m, id) is None,
    ensures
        ({
            let r = m.records[id];
            let before = m.log(r.device).phase;
            let after = outbox_model::settle_state(m, id, OutcomeModel::Failed(reason), at).log(
                r.device,
            ).phase;
            &&& r.attempts < m.max_attempts ==> after == before
            &&& r.attempts >= m.max_attempts ==> after == outbox::rolled_back(
                before,
                outbox::verb_of(r.intent),
            )
        }),
{
}

// ---- observing -------------------------------------------------------------

/// What a device reports of itself becomes its phase, opens a take where it went
/// from idle to recording, and touches no queue, no history and no other device.
pub proof fn an_observation_touches_one_phase(
    m: OutboxModel,
    device: Seq<char>,
    observed: crate::api::RecordingState,
    other: Seq<char>,
)
    requires
        m.log(device).epoch < u64::MAX,
    ensures
        ({
            let before = m.log(device);
            let n = outbox_model::observe_state(m, device, observed);
            let after = n.log(device);
            &&& after.phase == outbox::reconciled(before.phase, observed)
            &&& after.epoch == before.epoch + if before.phase == crate::api::Phase::Idle
                && after.phase == crate::api::Phase::Recording {
                1int
            } else {
                0
            }
            &&& after.queue == before.queue
            &&& after.history == before.history
            &&& after.keys == before.keys
            &&& other != device ==> n.log(other) == m.log(other)
            &&& n.records == m.records
            &&& n.batches == m.batches
        }),
{
}

/// A device that was never asked anything is idle, before its first take, with
/// nothing queued and nothing behind it.
pub proof fn an_unknown_device_is_idle(m: OutboxModel, device: Seq<char>)
    requires
        !m.logs.contains_key(device),
    ensures
        m.log(device).phase == crate::api::Phase::Idle,
        m.log(device).epoch == 0,
        m.log(device).queue.len() == 0,
        m.log(device).history.len() == 0,
        forall|k: Seq<char>| !m.log(device).keys.contains_key(k),
        m.head(device) is None,
{
}

// ---- batches that are handed out -------------------------------------------

/// Devices, each once, each with a queue whose oldest write is its own.
pub open spec fn heads_apart(m: OutboxModel, devices: Seq<Seq<char>>) -> bool {
    &&& devices.no_duplicates()
    &&& forall|i: int| 0 <= i < devices.len() ==> m.head(#[trigger] devices[i]) is Some
    &&& forall|i: int, j: int|
        #![trigger devices[i], devices[j]]
        0 <= i < devices.len() && 0 <= j < devices.len() && i != j ==> m.head(devices[i])->0
            != m.head(devices[j])->0
}

proof fn heads_apart_shorter(m: OutboxModel, devices: Seq<Seq<char>>)
    requires
        heads_apart(m, devices),
        devices.len() > 0,
    ensures
        heads_apart(m, devices.drop_last()),
{
    let shorter = devices.drop_last();
    assert forall|i: int| 0 <= i < shorter.len() implies m.head(#[trigger] shorter[i]) is Some by {
        assert(shorter[i] == devices[i]);
    }
    assert forall|i: int, j: int|
        #![trigger shorter[i], shorter[j]]
        0 <= i < shorter.len() && 0 <= j < shorter.len() && i != j implies m.head(shorter[i])->0
        != m.head(shorter[j])->0 && shorter[i] != shorter[j] by {
        assert(shorter[i] == devices[i] && shorter[j] == devices[j]);
    }
}

proof fn heads_claimed_one_by_one(
    m: OutboxModel,
    devices: Seq<Seq<char>>,
    at: Seq<char>,
    d: Seq<char>,
    x: Seq<char>,
)
    requires
        heads_apart(m, devices),
    ensures
        ({
            let n = outbox_model::heads_claimed(m, devices, at);
            &&& !devices.contains(d) ==> n.log(d) == m.log(d)
            &&& devices.contains(d) ==> n.log(d).queue == m.log(d).queue.drop_first()
                && n.log(d).phase == m.log(d).phase
            &&& devices.contains(d) ==> n.records[m.head(d)->0] == outbox_model::in_flight(
                m.records[m.head(d)->0],
                at,
            )
            &&& (forall|i: int| 0 <= i < devices.len() ==> m.head(#[trigger] devices[i])->0 != x)
                ==> n.records[x] == m.records[x]
        }),
    decreases devices.len(),
{
    if devices.len() > 0 {
        let shorter = devices.drop_last();
        let last = devices.last();
        heads_apart_shorter(m, devices);
        heads_claimed_one_by_one(m, shorter, at, d, x);
        let p = outbox_model::heads_claimed(m, shorter, at);
        let n = outbox_model::heads_claimed(m, devices, at);
        if shorter.contains(last) {
            let i = choose|i: int| 0 <= i < shorter.len() && shorter[i] == last;
            assert(devices[i] == devices[devices.len() - 1]);
        }
        let id = m.head(last)->0;
        assert forall|i: int| 0 <= i < shorter.len() implies m.head(#[trigger] shorter[i])->0
            != id by {
            assert(shorter[i] == devices[i]);
            assert(devices[devices.len() - 1] == last);
        }
        heads_claimed_one_by_one(m, shorter, at, last, id);
        assert(m.head(devices[devices.len() - 1]) is Some);
        assert(p.log(last) == m.log(last));
        assert(p.head(last) == Some(id));
        assert(p.records[id] == m.records[id]);
        if devices.contains(d) && d != last {
            let i = choose|i: int| 0 <= i < devices.len() && devices[i] == d;
            assert(shorter[i] == d);
            assert(m.head(devices[i])->0 != m.head(devices[devices.len() - 1])->0);
        }
        if shorter.contains(d) {
            let i = choose|i: int| 0 <= i < shorter.len() && shorter[i] == d;
            assert(devices[i] == d);
        }
        if d == last {
            assert(devices[devices.len() - 1] == d);
        }
        if forall|i: int| 0 <= i < devices.len() ==> m.head(#[trigger] devices[i])->0 != x {
            assert forall|i: int| 0 <= i < shorter.len() implies m.head(#[trigger] shorter[i])->0
                != x by {
                assert(shorter[i] == devices[i]);
            }
            assert(m.head(devices[devices.len() - 1])->0 != x);
        }
    }
}

proof fn rows_one_by_one(m: OutboxModel, devices: Seq<Seq<char>>, at: Seq<char>, i: int)
    requires
        heads_apart(m, devices),
    ensures
        outbox_model::head_rows(m, devices, at).len() == devices.len(),
        0 <= i < devices.len() ==> outbox_model::head_rows(m, devices, at)[i]
            == outbox_model::in_flight(m.records[m.head(devices[i])->0], at),
    decreases devices.len(),
{
    if devices.len() > 0 {
        let shorter = devices.drop_last();
        let last = devices.last();
        heads_apart_shorter(m, devices);
        rows_one_by_one(m, shorter, at, i);
        if shorter.contains(last) {
            let j = choose|j: int| 0 <= j < shorter.len() && shorter[j] == last;
            assert(devices[j] == devices[devices.len() - 1]);
        }
        let id = m.head(last)->0;
        assert forall|j: int| 0 <= j < shorter.len() implies m.head(#[trigger] shorter[j])->0
            != id by {
            assert(shorter[j] == devices[j]);
            assert(devices[devices.len() - 1] == last);
        }
        heads_claimed_one_by_one(m, shorter, at, last, id);
        assert(m.head(devices[devices.len() - 1]) is Some);
    }
}

/// A group that goes out hands out the oldest write of each member that goes with
/// it, in the order of the members: each is in flight with one try more, and has
/// left its queue. No other queue changes.
pub proof fn a_released_batch_hands_out_each_head(
    m: OutboxModel,
    device: Seq<char>,
    at: Seq<char>,
    b: Seq<char>,
    i: int,
    d: Seq<char>,
)
    requires
        outbox_model::due(m, device, at),
        m.records[m.head(device)->0].batch == Some(b),
        outbox_model::batch_step(m, b, device, at) is Release,
        heads_apart(m, outbox_model::batch_step(m, b, device, at)->Release_0),
        0 <= i < outbox_model::batch_step(m, b, device, at)->Release_0.len(),
        m.records[m.head(
            outbox_model::batch_step(m, b, device, at)->Release_0[i],
        )->0].attempts < u32::MAX,
    ensures
        ({
            let members = outbox_model::batch_step(m, b, device, at)->Release_0;
            let claim = outbox_model::claim_result(m, device, at);
            let n = outbox_model::claim_state(m, device, at);
            let id = m.head(members[i])->0;
            &&& claim is Some && claim->0 is Batch
            &&& claim->0->id == b
            &&& claim->0->records.len() == members.len()
            &&& claim->0->records[i] == n.records[id]
            &&& n.records[id].status == StatusModel::InFlight
            &&& n.records[id].attempts == m.records[id].attempts + 1
            &&& n.records[id].updated_at == at
            &&& n.records[id].enqueued_at == m.records[id].enqueued_at
            &&& n.records[id].not_before == m.records[id].not_before
            &&& n.log(members[i]).queue == m.log(members[i]).queue.drop_first()
            &&& !members.contains(d) ==> n.log(d) == m.log(d)
        }),
{
    let members = outbox_model::batch_step(m, b, device, at)->Release_0;
    let e = outbox_model::batch_evaluated(m, b, device, at);
    assert(e.logs == m.logs && e.records == m.records);
    assert forall|k: Seq<char>| #[trigger] e.head(k) == m.head(k) && e.log(k) == m.log(k) by {}
    assert forall|x: int, y: int|
        #![trigger members[x], members[y]]
        0 <= x < members.len() && 0 <= y < members.len() && x != y implies e.head(members[x])->0
        != e.head(members[y])->0 by {
        assert(m.head(members[x])->0 != m.head(members[y])->0);
    }
    assert forall|x: int| 0 <= x < members.len() implies e.head(#[trigger] members[x]) is Some by {
        assert(m.head(members[x]) is Some);
    }
    assert(heads_apart(e, members));
    rows_one_by_one(e, members, at, i);
    let id = m.head(members[i])->0;
    heads_claimed_one_by_one(e, members, at, members[i], id);
    heads_claimed_one_by_one(e, members, at, d, id);
    assert(members.contains(members[i]));
}

/// A member that comes late to a group that went out goes out on its own.
pub proof fn a_late_member_goes_out_alone(
    m: OutboxModel,
    device: Seq<char>,
    at: Seq<char>,
    b: Seq<char>,
)
    requires
        outbox_model::due(m, device, at),
        m.records[m.head(device)->0].batch == Some(b),
        m.batches.contains_key(b),
        m.batches[b].gate == Gate::Open,
        m.records[m.head(device)->0].attempts < u32::MAX,
    ensures
        ({
            let id = m.head(device)->0;
            let n = outbox_model::claim_state(m, device, at);
            &&& outbox_model::claim_result(m, device, at) == Some(ClaimModel::One(n.records[id]))
            &&& n.records[id].status == StatusModel::InFlight
            &&& n.records[id].attempts == m.records[id].attempts + 1
            &&& n.records[id].updated_at == at
            &&& n.log(device).queue == m.log(device).queue.drop_first()
            &&& n.batches == m.batches
        }),
{
}

/// A group that has waited in vain hands out nothing.
pub proof fn a_failed_batch_hands_out_nothing(
    m: OutboxModel,
    device: Seq<char>,
    at: Seq<char>,
    b: Seq<char>,
)
    requires
        outbox_model::due(m, device, at),
        m.records[m.head(device)->0].batch == Some(b),
        outbox_model::batch_step(m, b, device, at) is Fail,
    ensures
        outbox_model::claim_result(m, device, at) is None,
        outbox_model::claim_state(m, device, at) == outbox_model::heads_failed(
            outbox_model::batch_evaluated(m, b, device, at),
            outbox_model::batch_step(m, b, device, at)->Fail_0,
            at,
        ),
{
}

/// Failing several heads fails one after the other, each as it is failed alone.
pub proof fn heads_fail_one_after_the_other(
    m: OutboxModel,
    devices: Seq<Seq<char>>,
    last: Seq<char>,
    at: Seq<char>,
)
    ensures
        outbox_model::heads_failed(m, Seq::empty(), at) == m,
        outbox_model::heads_failed(m, devices.push(last), at) == outbox_model::head_failed(
            outbox_model::heads_failed(m, devices, at),
            last,
            at,
        ),
{
    assert(devices.push(last).drop_last() =~= devices);
}

/// A delay that the outbox can add leads from any instant of a year of four digits
/// to an instant of the calendar, or is no step of the calendar at all.
pub proof fn a_tolerable_delay_stays_on_the_calendar(i: Instant, delay: nat)
    requires
        i.valid(),
        i.four_digit_year(),
        outbox_model::tolerable(delay),
        delay <= time::STEP_MAX,
    ensures
        time::later_by(i, delay) is Some,
{
    let n = i.nanos + delay;
    assert(n / 1_000_000_000 <= (delay + 2_000_000_000) / 1_000_000_000);
}

// ---- canceling -------------------------------------------------------------

/// The phase that these writes lead to from a phase, one after the other, where
/// each is admitted and none of them resumes or stops a paused recording.
pub open spec fn led_to(m: OutboxModel, from: Phase, ids: Seq<Seq<char>>) -> Option<Phase>
    decreases ids.len(),
{
    if ids.len() == 0 {
        Some(from)
    } else {
        match led_to(m, from, ids.drop_last()) {
            Some(phase) => {
                let verb = outbox::verb_of(m.records[ids.last()].intent);
                let paused = phase == Phase::Paused && (verb == outbox::Verb::Start || verb
                    == outbox::Verb::Stop);
                match outbox::admission(phase, verb) {
                    Ok(next) => if paused {
                        None
                    } else {
                        Some(next)
                    },
                    Err(_) => None,
                }
            },
            None => None,
        }
    }
}

proof fn led_to_same(m: OutboxModel, n: OutboxModel, from: Phase, ids: Seq<Seq<char>>)
    requires
        forall|i: int|
            0 <= i < ids.len() ==> n.records[#[trigger] ids[i]].intent == m.records[ids[i]].intent,
    ensures
        led_to(n, from, ids) == led_to(m, from, ids),
    decreases ids.len(),
{
    if ids.len() > 0 {
        let shorter = ids.drop_last();
        assert forall|i: int| 0 <= i < shorter.len() implies n.records[#[trigger] shorter[i]].intent
            == m.records[shorter[i]].intent by {
            assert(shorter[i] == ids[i]);
        }
        led_to_same(m, n, from, shorter);
        assert(n.records[ids[ids.len() - 1]].intent == m.records[ids[ids.len() - 1]].intent);
    }
}

/// Withdrawing everything that is queued for a device takes its phase back to what
/// it was before the first of them: each is undone in turn, the newest first.
pub proof fn withdrawing_everything_restores_the_phase(
    m: OutboxModel,
    device: Seq<char>,
    reason: Seq<char>,
    at: Seq<char>,
    from: Phase,
)
    requires
        led_to(m, from, m.log(device).queue) == Some(m.log(device).phase),
    ensures
        outbox_model::cancel_state(m, device, reason, at).log(device).phase == from,
    decreases m.log(device).queue.len(),
{
    let queue = m.log(device).queue;
    if queue.len() > 0 {
        let n = outbox_model::last_canceled(m, device, reason, at);
        let id = queue.last();
        let verb = outbox::verb_of(m.records[id].intent);
        let before = led_to(m, from, queue.drop_last())->0;
        outbox::rollback_undoes_admission(before, verb);
        assert(n.log(device).queue == queue.drop_last());
        assert(n.log(device).phase == before);
        led_to_same(m, n, from, queue.drop_last());
        withdrawing_everything_restores_the_phase(n, device, reason, at, from);
    }
}

/// Whether one of these writes is of a batch and for a device.
pub open spec fn one_is_of(
    m: OutboxModel,
    ids: Seq<Seq<char>>,
    batch: Seq<char>,
    d: Seq<char>,
) -> bool {
    exists|i: int|
        0 <= i < ids.len() && m.records[#[trigger] ids[i]].batch == Some(batch)
            && m.records[ids[i]].device == d
}

proof fn one_is_of_same(
    m: OutboxModel,
    n: OutboxModel,
    ids: Seq<Seq<char>>,
    batch: Seq<char>,
    d: Seq<char>,
)
    requires
        forall|i: int|
            0 <= i < ids.len() ==> n.records[#[trigger] ids[i]].batch == m.records[ids[i]].batch
                && n.records[ids[i]].device == m.records[ids[i]].device,
    ensures
        one_is_of(n, ids, batch, d) <==> one_is_of(m, ids, batch, d),
{
    if one_is_of(m, ids, batch, d) {
        let i = choose|i: int|
            0 <= i < ids.len() && m.records[#[trigger] ids[i]].batch == Some(batch)
                && m.records[ids[i]].device == d;
        assert(n.records[ids[i]].batch == Some(batch) && n.records[ids[i]].device == d);
    }
    if one_is_of(n, ids, batch, d) {
        let i = choose|i: int|
            0 <= i < ids.len() && n.records[#[trigger] ids[i]].batch == Some(batch)
                && n.records[ids[i]].device == d;
        assert(m.records[ids[i]].batch == Some(batch) && m.records[ids[i]].device == d);
    }
}

/// No group waits for a write that was withdrawn: the device leaves every batch
/// that a withdrawn write of its was in, and every other member, the barriers, and
/// what was decided stay.
pub proof fn no_group_waits_for_what_was_withdrawn(
    m: OutboxModel,
    device: Seq<char>,
    reason: Seq<char>,
    at: Seq<char>,
    batch: Seq<char>,
    d: Seq<char>,
)
    ensures
        ({
            let n = outbox_model::cancel_state(m, device, reason, at);
            let leaves = one_is_of(m, m.log(device).queue, batch, d);
            &&& n.batches.contains_key(batch) <==> m.batches.contains_key(batch)
            &&& m.batches.contains_key(batch) ==> {
                &&& n.batches[batch].members.contains(d) <==> m.batches[batch].members.contains(d)
                    && !leaves
                &&& n.batches[batch].ready.contains(d) <==> m.batches[batch].ready.contains(d)
                    && !leaves
                &&& n.batches[batch].armed_at == m.batches[batch].armed_at
                &&& n.batches[batch].barrier == m.batches[batch].barrier
                &&& n.batches[batch].gate == m.batches[batch].gate
            }
        }),
    decreases m.log(device).queue.len(),
{
    let queue = m.log(device).queue;
    if queue.len() > 0 {
        let p = outbox_model::last_canceled(m, device, reason, at);
        let id = queue.last();
        let r = m.records[id];
        let rest = queue.drop_last();
        no_group_waits_for_what_was_withdrawn(p, device, reason, at, batch, d);
        assert(p.log(device).queue == rest);
        one_is_of_same(m, p, rest, batch, d);
        if m.batches.contains_key(batch) {
            without_keeps_the_rest(m.batches[batch].members, r.device, d);
            without_keeps_the_rest(m.batches[batch].ready, r.device, d);
        }
        if one_is_of(m, rest, batch, d) {
            let i = choose|i: int|
                0 <= i < rest.len() && m.records[#[trigger] rest[i]].batch == Some(batch)
                    && m.records[rest[i]].device == d;
            assert(queue[i] == rest[i]);
            assert(one_is_of(m, queue, batch, d));
        }
        if r.batch == Some(batch) && r.device == d {
            assert(queue[queue.len() - 1] == id);
            assert(one_is_of(m, queue, batch, d));
        }
        if one_is_of(m, queue, batch, d) {
            let i = choose|i: int|
                0 <= i < queue.len() && m.records[#[trigger] queue[i]].batch == Some(batch)
                    && m.records[queue[i]].device == d;
            if i < rest.len() {
                assert(rest[i] == queue[i]);
                assert(one_is_of(m, rest, batch, d));
            }
        }
    }
}

} // verus!
