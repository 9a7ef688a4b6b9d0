//! What holds of the outbox across its operations.

use vstd::prelude::*;
use crate::api::{IntentModel, Phase, RecordingState, Rejection};
use crate::memory::outbox_model;
use crate::memory::outbox_model::{Gate, OutboxModel, StepModel};
use crate::ordered;
use crate::store::outbox;
use crate::store::outbox::{OutcomeModel, SubmissionModel, SubmitErrorModel, Verb};
use crate::api::Barrier;

verus! {

/// A submission that is refused, for whatever reason and by whichever target,
/// leaves the outbox as it was.
pub proof fn a_refused_submission_leaves_no_trace(m: OutboxModel, s: SubmissionModel)
    requires
        outbox_model::submit_result(m, s) is Err,
    ensures
        outbox_model::submit_state(m, s) == m,
{
}

/// A submission whose key was seen before produces nothing new.
pub proof fn a_replay_changes_nothing(m: OutboxModel, s: SubmissionModel)
    requires
        s.targets.len() > 0,
        s.ids.len() == s.targets.len(),
        outbox_model::replay(m, s) is Some,
    ensures
        outbox_model::submit_state(m, s) == m,
        outbox_model::submit_result(m, s) is Ok,
{
}

/// What recording the first `n` writes of an admitted submission makes of the log
/// of one device.
proof fn recorded_log(m: OutboxModel, s: SubmissionModel, n: nat, d: Seq<char>)
    requires
        n <= s.targets.len(),
        s.ids.len() == s.targets.len(),
    ensures
        ({
            let log = outbox_model::recorded(m, s, n).log(d);
            let before = m.log(d);
            let after = outbox::admission(before.phase, outbox::verb_of(s.intent))->Ok_0;
            &&& before.queue.len() <= log.queue.len()
            &&& log.queue.take(before.queue.len() as int) == before.queue
            &&& before.history.len() <= log.history.len()
            &&& log.history.take(before.history.len() as int) == before.history
            &&& if s.targets.take(n as int).contains(d) {
                &&& log.phase == after
                &&& log.epoch == if outbox::opens(before.phase, after) {
                    outbox::take_of(before.phase, before.epoch)
                } else {
                    before.epoch
                }
            } else {
                log == before
            }
        }),
    decreases n,
{
    if n == 0 {
        assert(s.targets.take(0).len() == 0);
        assert(m.log(d).queue.take(m.log(d).queue.len() as int) =~= m.log(d).queue);
        assert(m.log(d).history.take(m.log(d).history.len() as int) =~= m.log(d).history);
    } else {
        let i = n - 1;
        recorded_log(m, s, i as nat, d);
        let part = s.targets.take(i);
        let next = s.targets.take(n as int);
        assert(next =~= part.push(s.targets[i]));
        let prev = outbox_model::recorded(m, s, i as nat).log(d);
        let now = outbox_model::recorded(m, s, n).log(d);
        if s.targets[i] == d {
            assert(next[i] == d);
            assert(now.queue.take(m.log(d).queue.len() as int) =~= prev.queue.take(
                m.log(d).queue.len() as int,
            ));
            assert(now.history.take(m.log(d).history.len() as int) =~= prev.history.take(
                m.log(d).history.len() as int,
            ));
        } else {
            assert(now == prev);
            if next.contains(d) {
                let x = choose|x: int| 0 <= x < next.len() && next[x] == d;
                assert(part[x] == d);
            }
            if part.contains(d) {
                let x = choose|x: int| 0 <= x < part.len() && part[x] == d;
                assert(next[x] == d);
            }
        }
    }
}

/// The phase a submission leaves a device in, the take, and what was queued before
/// it: a target moves as the admission table says, every other device stays, and
/// no queue or history is reordered.
pub proof fn an_admitted_submission_moves_its_targets_and_nothing_else(
    m: OutboxModel,
    s: SubmissionModel,
    d: Seq<char>,
)
    requires
        outbox_model::submit_result(m, s) is Ok,
        outbox_model::replay(m, s) is None,
    ensures
        ({
            let before = m.log(d);
            let log = outbox_model::submit_state(m, s).log(d);
            let after = outbox::admission(before.phase, outbox::verb_of(s.intent))->Ok_0;
            &&& before.queue.is_prefix_of(log.queue)
            &&& before.history.is_prefix_of(log.history)
            &&& s.targets.contains(d) ==> log.phase == after && log.epoch == if outbox::opens(
                before.phase,
                after,
            ) {
                outbox::take_of(before.phase, before.epoch)
            } else {
                before.epoch
            }
            &&& !s.targets.contains(d) ==> log == before
        }),
{
    recorded_log(m, s, s.targets.len(), d);
    assert(s.targets.take(s.targets.len() as int) =~= s.targets);
    let made = outbox_model::recorded(m, s, s.targets.len());
    assert(outbox_model::submit_state(m, s).logs == made.logs);
    let before = m.log(d);
    let log = outbox_model::submit_state(m, s).log(d);
    assert(log == made.log(d));
    assert(before.queue =~= log.queue.subrange(0, before.queue.len() as int));
    assert(before.history =~= log.history.subrange(0, before.history.len() as int));
}

/// The admission table admits every target of an admitted submission.
proof fn admitted_targets(m: OutboxModel, s: SubmissionModel, from: int, i: int)
    requires
        0 <= from <= i < s.targets.len(),
        outbox_model::refusal(m, s, from) is None,
    ensures
        outbox::admission(m.log(s.targets[i]).phase, outbox::verb_of(s.intent)) is Ok,
    decreases i - from,
{
    if from < i {
        admitted_targets(m, s, from + 1, i);
    }
}

/// From the moment a start is admitted, metadata for its device is refused as
/// frozen; a setting is not.
pub proof fn a_start_freezes_metadata(m: OutboxModel, s: SubmissionModel, t: SubmissionModel)
    requires
        s.intent == IntentModel::StartRecording,
        outbox_model::submit_result(m, s) is Ok,
        outbox_model::replay(m, s) is None,
        t.targets.len() == 1,
        t.ids.len() == 1,
        s.targets.contains(t.targets[0]),
        outbox_model::replay(outbox_model::submit_state(m, s), t) is None,
    ensures
        t.intent is SetMetadata ==> outbox_model::submit_result(
            outbox_model::submit_state(m, s),
            t,
        ) == Err::<crate::api::AcceptanceModel, SubmitErrorModel>(
            SubmitErrorModel::Rejected {
                device: t.targets[0],
                rejection: Rejection::MetadataFrozen,
                desired_recording_state: Phase::Recording,
            },
        ),
        t.intent is SetSetting ==> outbox_model::submit_result(
            outbox_model::submit_state(m, s),
            t,
        ) is Ok,
{
    let d = t.targets[0];
    let n = outbox_model::submit_state(m, s);
    an_admitted_submission_moves_its_targets_and_nothing_else(m, s, d);
    let i = choose|i: int| 0 <= i < s.targets.len() && s.targets[i] == d;
    admitted_targets(m, s, 0, i);
    assert(n.log(d).phase == Phase::Recording);
    assert(outbox_model::refusal(n, t, 1) is None);
}

/// Metadata admitted while a device is idle carries the take of the start that
/// follows it.
pub proof fn metadata_shares_the_take_of_the_next_start(
    m: OutboxModel,
    s: SubmissionModel,
    t: SubmissionModel,
    i: int,
    j: int,
)
    requires
        s.intent is SetMetadata,
        outbox_model::submit_result(m, s) is Ok,
        outbox_model::replay(m, s) is None,
        0 <= i < s.targets.len(),
        0 <= j < t.targets.len(),
        s.targets[i] == t.targets[j],
    ensures
        outbox_model::new_record(m, s, i).epoch == outbox_model::new_record(
            outbox_model::submit_state(m, s),
            t,
            j,
        ).epoch,
{
    admitted_targets(m, s, 0, i);
    an_admitted_submission_moves_its_targets_and_nothing_else(m, s, s.targets[i]);
}

/// What a group was told outlives the writes that told it: nothing but a
/// submission changes it.
pub proof fn what_a_group_was_told_stands(
    m: OutboxModel,
    device: Seq<char>,
    id: Seq<char>,
    outcome: OutcomeModel,
    observed: RecordingState,
    reason: Seq<char>,
    at: Seq<char>,
)
    ensures
        outbox_model::claim_state(m, device, at).groups == m.groups,
        outbox_model::settle_state(m, id, outcome, at).groups == m.groups,
        outbox_model::observe_state(m, device, observed).groups == m.groups,
        outbox_model::cancel_state(m, device, reason, at).groups == m.groups,
{
    canceling_touches_no_group(m, device, reason, at);
    if outbox_model::due(m, device, at) {
        if let Some(b) = m.records[m.head(device)->0].batch {
            let e = outbox_model::batch_evaluated(m, b, device, at);
            match outbox_model::batch_step(m, b, device, at) {
                StepModel::Release(members) => {
                    claims_touch_no_group(e, members, at);
                },
                StepModel::Fail(members) => {
                    failures_touch_no_group(e, members, at);
                },
                _ => {},
            }
        }
    }
}

proof fn canceling_touches_no_group(
    m: OutboxModel,
    device: Seq<char>,
    reason: Seq<char>,
    at: Seq<char>,
)
    ensures
        outbox_model::cancel_state(m, device, reason, at).groups == m.groups,
    decreases m.log(device).queue.len(),
{
    if m.log(device).queue.len() > 0 {
        canceling_touches_no_group(
            outbox_model::last_canceled(m, device, reason, at),
            device,
            reason,
            at,
        );
    }
}

proof fn claims_touch_no_group(m: OutboxModel, devices: Seq<Seq<char>>, at: Seq<char>)
    ensures
        outbox_model::heads_claimed(m, devices, at).groups == m.groups,
    decreases devices.len(),
{
    if devices.len() > 0 {
        claims_touch_no_group(m, devices.drop_last(), at);
    }
}

proof fn failures_touch_no_group(m: OutboxModel, devices: Seq<Seq<char>>, at: Seq<char>)
    ensures
        outbox_model::heads_failed(m, devices, at).groups == m.groups,
    decreases devices.len(),
{
    if devices.len() > 0 {
        failures_touch_no_group(m, devices.drop_last(), at);
    }
}

/// A group that was addressed by an admitted submission was told what it asks,
/// at the instant of the submission; every other field of every group stands.
pub proof fn an_admitted_submission_tells_its_group(
    m: OutboxModel,
    s: SubmissionModel,
    g: Seq<char>,
    f: Seq<char>,
)
    requires
        outbox_model::submit_result(m, s) is Ok,
        outbox_model::replay(m, s) is None,
    ensures
        ({
            let (field, value) = crate::store::group::expectation(s.intent);
            if s.group == Some(g) && f == field {
                outbox_model::submit_state(m, s).told(g, f) == Some(
                    crate::api::ExpectationModel { field, value, since: s.at },
                )
            } else {
                outbox_model::submit_state(m, s).told(g, f) == m.told(g, f)
            }
        }),
{
    recorded_touches_no_group(m, s, s.targets.len());
}

proof fn recorded_touches_no_group(m: OutboxModel, s: SubmissionModel, n: nat)
    ensures
        outbox_model::recorded(m, s, n).groups == m.groups,
    decreases n,
{
    if n > 0 {
        recorded_touches_no_group(m, s, (n - 1) as nat);
    }
}

/// Writes without a batch leave a queue in the order they entered it, each once.
pub proof fn claiming_follows_submission_order(m: OutboxModel, device: Seq<char>, at: Seq<char>)
    requires
        outbox_model::due(m, device, at),
        m.records[m.head(device)->0].batch is None,
    ensures
        outbox_model::claim_state(m, device, at).log(device).queue == m.log(
            device,
        ).queue.drop_first(),
        outbox_model::claim_result(m, device, at) == Some(
            outbox::ClaimModel::One(outbox_model::in_flight(m.records[m.head(device)->0], at)),
        ),
{
}

/// A write that is not due, or whose batch is still waiting, holds its queue: the
/// claim hands out nothing, and no queue and no record changes.
pub proof fn a_waiting_write_is_not_overtaken(m: OutboxModel, device: Seq<char>, at: Seq<char>)
    requires
        !outbox_model::due(m, device, at) || match m.records[m.head(device)->0].batch {
            Some(b) => outbox_model::batch_step(m, b, device, at) is Wait,
            None => false,
        },
    ensures
        outbox_model::claim_result(m, device, at) is None,
        outbox_model::claim_state(m, device, at).logs == m.logs,
        outbox_model::claim_state(m, device, at).records == m.records,
{
}

/// A batch goes out in device order; before its time is up, only when every
/// member is ready, and under `FailBatch` never otherwise.
pub proof fn a_batch_goes_out_whole(
    m: OutboxModel,
    batch: Seq<char>,
    device: Seq<char>,
    at: Seq<char>,
)
    requires
        m.inv(),
        outbox_model::batch_step(m, batch, device, at) is Release,
    ensures
        ({
            let b = m.batches[batch];
            let out = outbox_model::batch_step(m, batch, device, at)->Release_0;
            &&& ordered::in_order(out)
            &&& out != b.members ==> b.barrier.on_timeout == Barrier::DispatchReady
                && outbox_model::elapsed(b.armed_at, b.barrier.timeout, at)
            &&& outbox_model::batch_evaluated(m, batch, device, at).batches[batch].gate == Gate::Open
        }),
{
    outbox_model::filter_keeps_order(
        m.batches[batch].members,
        outbox_model::readiness(m, batch, at),
    );
}

/// Once a batch is abandoned, a member that arrives later is failed and never
/// dispatched.
pub proof fn an_abandoned_batch_starts_nobody(m: OutboxModel, device: Seq<char>, at: Seq<char>)
    requires
        outbox_model::due(m, device, at),
        match m.records[m.head(device)->0].batch {
            Some(b) => m.batches.contains_key(b) && m.batches[b].gate == Gate::Abandoned,
            None => false,
        },
    ensures
        outbox_model::claim_result(m, device, at) is None,
        outbox_model::claim_state(m, device, at) == outbox_model::head_failed(m, device, at),
        outbox_model::claim_state(m, device, at).records[m.head(device)->0].status is Failed,
{
    reveal_with_fuel(outbox_model::heads_failed, 2);
    let only = seq![device];
    assert(only.drop_last() =~= Seq::<Seq<char>>::empty());
    assert(only.last() == device);
}

/// A start that fails for good stops freezing its device's metadata.
pub proof fn a_start_that_failed_for_good_unfreezes_metadata(
    m: OutboxModel,
    id: Seq<char>,
    reason: Seq<char>,
    at: Seq<char>,
)
    requires
        outbox_model::settle_complaint(m, id) is None,
        m.records[id].intent == IntentModel::StartRecording,
        m.records[id].attempts >= m.max_attempts,
        m.log(m.records[id].device).phase == Phase::Recording,
    ensures
        ({
            let n = outbox_model::settle_state(m, id, OutcomeModel::Failed(reason), at);
            outbox::admission(n.log(m.records[id].device).phase, Verb::WriteMetadata) is Ok
        }),
{
}

/// A settled write cannot be settled again before it is handed out again.
pub proof fn a_write_settles_once(
    m: OutboxModel,
    id: Seq<char>,
    outcome: OutcomeModel,
    at: Seq<char>,
)
    requires
        outbox_model::settle_complaint(m, id) is None,
    ensures
        outbox_model::settle_complaint(outbox_model::settle_state(m, id, outcome, at), id) is Some,
{
}

/// Settling touches the log of the write's device and the write's record, and no
/// other.
pub proof fn settling_touches_one_write(
    m: OutboxModel,
    id: Seq<char>,
    outcome: OutcomeModel,
    at: Seq<char>,
    other: Seq<char>,
)
    ensures
        other != id ==> {
            let n = outbox_model::settle_state(m, id, outcome, at);
            n.records.contains_key(other) == m.records.contains_key(other) && n.records[other]
                == m.records[other]
        },
        m.records.contains_key(id) && other != m.records[id].device
            ==> outbox_model::settle_state(m, id, outcome, at).log(other) == m.log(other),
{
}

/// A recording that a device started on its own opens a take and freezes its
/// metadata, whatever the outbox believed.
pub proof fn an_observed_recording_freezes_metadata(m: OutboxModel, device: Seq<char>)
    ensures
        ({
            let n = outbox_model::observe_state(m, device, RecordingState::Started);
            outbox::admission(n.log(device).phase, Verb::WriteMetadata) is Err
        }),
        m.log(device).phase == Phase::Idle && m.log(device).epoch < u64::MAX
            ==> outbox_model::observe_state(m, device, RecordingState::Started).log(device).epoch
            == m.log(device).epoch + 1,
        outbox_model::observe_state(m, device, RecordingState::Unknown).log(device) == m.log(device),
{
}

/// Forgetting a group forgets everything it was told, and nothing else: every
/// other group, every queue and every write stay as they were.
pub proof fn forgetting_a_group_touches_nothing_else(
    m: OutboxModel,
    group: Seq<char>,
    g: Seq<char>,
    f: Seq<char>,
)
    ensures
        outbox_model::forget_group_state(m, group).told(g, f) == if g == group {
            None
        } else {
            m.told(g, f)
        },
        outbox_model::forget_group_state(m, group).logs == m.logs,
        outbox_model::forget_group_state(m, group).records == m.records,
        outbox_model::forget_group_state(m, group).batches == m.batches,
{
}

} // verus!
