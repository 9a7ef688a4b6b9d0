//! What the outbox is: per device a phase, a queue and a history; per batch a
//! rendezvous; per group what it was told; and every write by its id.

use vstd::prelude::*;
use crate::api::{
    AcceptanceModel, AcceptedModel, Barrier, ExpectationModel, Phase, RecordModel, RecordingState,
    StatusModel,
};
use crate::ordered;
use crate::store::group;
use crate::store::outbox;
use crate::store::outbox::{
    BarrierModel, ClaimModel, OutcomeModel, SubmissionModel, SubmitErrorModel,
};
use crate::text;
use crate::time;

verus! {

/// Where a batch's rendezvous has got to.
#[derive(Debug, Clone, Copy, PartialEq, Eq, Structural)]
pub enum Gate {
    /// Still filling.
    Waiting,
    /// Resolved by dispatch: later arrivals go out alone.
    Open,
    /// Resolved by timeout: later arrivals are failed.
    Abandoned,
}

#[verifier::ext_equal]
pub struct LogModel {
    pub phase: Phase,
    pub epoch: u64,
    /// Ids awaiting dispatch, oldest first.
    pub queue: Seq<Seq<char>>,
    /// Every id ever admitted, in submission order.
    pub history: Seq<Seq<char>>,
    /// Idempotency key to the answer that was given under it.
    pub keys: Map<Seq<char>, AcceptanceModel>,
}

#[verifier::ext_equal]
pub struct BatchModel {
    /// The devices the batch waits for, in order.
    pub members: Seq<Seq<char>>,
    /// The members that were ready when last asked, in order.
    pub ready: Seq<Seq<char>>,
    pub armed_at: Seq<char>,
    pub barrier: BarrierModel,
    pub gate: Gate,
}

#[verifier::ext_equal]
pub struct OutboxModel {
    pub logs: Map<Seq<char>, LogModel>,
    pub batches: Map<Seq<char>, BatchModel>,
    pub groups: Map<Seq<char>, Map<Seq<char>, ExpectationModel>>,
    pub records: Map<Seq<char>, RecordModel>,
    pub max_attempts: u32,
    pub backoff: nat,
}

/// A device that was never asked anything: idle, before its first take.
pub open spec fn empty_log() -> LogModel {
    LogModel {
        phase: Phase::Idle,
        epoch: 0,
        queue: Seq::empty(),
        history: Seq::empty(),
        keys: Map::empty(),
    }
}

/// A delay that the calendar can hold after any written instant, or one so long
/// that it is no step of the calendar at all.
pub open spec fn tolerable(delay: nat) -> bool {
    delay <= 7_956_864_489_660_000_000_000 || delay > time::STEP_MAX
}

impl OutboxModel {
    pub open spec fn log(self, device: Seq<char>) -> LogModel {
        if self.logs.contains_key(device) {
            self.logs[device]
        } else {
            empty_log()
        }
    }

    pub open spec fn with_log(self, device: Seq<char>, log: LogModel) -> OutboxModel {
        OutboxModel { logs: self.logs.insert(device, log), ..self }
    }

    pub open spec fn with_record(self, id: Seq<char>, record: RecordModel) -> OutboxModel {
        OutboxModel { records: self.records.insert(id, record), ..self }
    }

    pub open spec fn with_batch(self, id: Seq<char>, batch: BatchModel) -> OutboxModel {
        OutboxModel { batches: self.batches.insert(id, batch), ..self }
    }

    /// The write at the head of a device's queue.
    pub open spec fn head(self, device: Seq<char>) -> Option<Seq<char>> {
        if self.log(device).queue.len() > 0 {
            Some(self.log(device).queue[0])
        } else {
            None
        }
    }

    /// What a group was told of `field`.
    pub open spec fn told(self, group: Seq<char>, field: Seq<char>) -> Option<ExpectationModel> {
        if self.groups.contains_key(group) && self.groups[group].contains_key(field) {
            Some(self.groups[group][field])
        } else {
            None
        }
    }

    /// Every id in a queue or a history names a record, and every record's device
    /// has a log.
    pub open spec fn backed(self) -> bool {
        &&& forall|d: Seq<char>, i: int|
            self.logs.contains_key(d) && 0 <= i < self.logs[d].queue.len()
                ==> self.records.contains_key(#[trigger] self.logs[d].queue[i])
        &&& forall|d: Seq<char>, i: int|
            self.logs.contains_key(d) && 0 <= i < self.logs[d].history.len()
                ==> self.records.contains_key(#[trigger] self.logs[d].history[i])
        &&& forall|id: Seq<char>| #[trigger]
            self.records.contains_key(id) ==> self.logs.contains_key(self.records[id].device)
                && self.records[id].id == id
    }

    /// Every batch lists its members in order.
    pub open spec fn batches_sound(self) -> bool {
        forall|b: Seq<char>| #[trigger]
            self.batches.contains_key(b) ==> ordered::in_order(self.batches[b].members)
    }

    /// There is at least one attempt, and the delay after each can be added.
    pub open spec fn spacing_sound(self) -> bool {
        &&& self.max_attempts >= 1
        &&& forall|n: nat| n < self.max_attempts ==> #[trigger] spaced(self.backoff, n)
    }

    /// What every operation keeps.
    pub open spec fn inv(self) -> bool {
        &&& self.backed()
        &&& self.batches_sound()
        &&& self.spacing_sound()
    }
}

/// A multiple of the backoff that is a duration, and a delay the outbox can add.
pub open spec fn spaced(backoff: nat, n: nat) -> bool {
    backoff * n <= time::duration_max() && tolerable(backoff * n)
}

// ---- submitting ------------------------------------------------------------

/// The record of the `i`th write of a submission, as admitted in state `m`.
pub open spec fn new_record(m: OutboxModel, s: SubmissionModel, i: int) -> RecordModel {
    let log = m.log(s.targets[i]);
    RecordModel {
        id: s.ids[i],
        device: s.targets[i],
        intent: s.intent,
        batch: s.batch,
        epoch: outbox::take_of(log.phase, log.epoch),
        status: StatusModel::Pending,
        attempts: 0,
        enqueued_at: s.at,
        updated_at: s.at,
        not_before: s.at,
    }
}

/// A device's log with the `i`th write of a submission appended, as admitted in
/// state `m`.
pub open spec fn log_with(m: OutboxModel, log: LogModel, s: SubmissionModel, i: int) -> LogModel {
    let before = m.log(s.targets[i]);
    let after = outbox::admission(before.phase, outbox::verb_of(s.intent))->Ok_0;
    LogModel {
        phase: after,
        epoch: if outbox::opens(before.phase, after) {
            outbox::take_of(before.phase, before.epoch)
        } else {
            log.epoch
        },
        queue: log.queue.push(s.ids[i]),
        history: log.history.push(s.ids[i]),
        keys: match s.idempotency_key {
            Some(k) => log.keys.insert(k, first_answer(m, s)),
            None => log.keys,
        },
    }
}

/// State `m` with the first `n` writes of an admitted submission recorded.
pub open spec fn recorded(m: OutboxModel, s: SubmissionModel, n: nat) -> OutboxModel
    decreases n,
{
    if n == 0 {
        m
    } else {
        let i = n - 1;
        let prev = recorded(m, s, i as nat);
        prev.with_record(s.ids[i], new_record(m, s, i)).with_log(
            s.targets[i],
            log_with(m, prev.log(s.targets[i]), s, i),
        )
    }
}

/// The refusal of the first target from `i` on that the admission table refuses.
pub open spec fn refusal(m: OutboxModel, s: SubmissionModel, i: int) -> Option<SubmitErrorModel>
    decreases s.targets.len() - i,
{
    if i >= s.targets.len() {
        None
    } else {
        let phase = m.log(s.targets[i]).phase;
        match outbox::admission(phase, outbox::verb_of(s.intent)) {
            Err(rejection) => Some(
                SubmitErrorModel::Rejected {
                    device: s.targets[i],
                    rejection,
                    desired_recording_state: phase,
                },
            ),
            Ok(_) => refusal(m, s, i + 1),
        }
    }
}

pub open spec fn acceptance_of(r: RecordModel) -> AcceptedModel {
    AcceptedModel { id: r.id, device: r.device, epoch: r.epoch }
}

/// The answer to a repeat of a keyed submission: the one that was given first,
/// whatever has become of its writes.
pub open spec fn replay(m: OutboxModel, s: SubmissionModel) -> Option<AcceptanceModel> {
    match s.idempotency_key {
        Some(k) => {
            let log = m.log(s.targets[0]);
            if log.keys.contains_key(k) {
                Some(log.keys[k])
            } else {
                None
            }
        },
        None => None,
    }
}

/// The keys of `s` in order, each once.
pub open spec fn sorted_set(s: Seq<Seq<char>>) -> Seq<Seq<char>> {
    choose|t: Seq<Seq<char>>|
        ordered::in_order(t) && forall|k: Seq<char>| t.contains(k) <==> s.contains(k)
}

/// The barrier of a batch that was given none.
pub open spec fn default_barrier() -> BarrierModel {
    BarrierModel { timeout: 15_000_000_000, on_timeout: Barrier::FailBatch }
}

/// State `m` with what a group was told of one field.
pub open spec fn with_told(m: OutboxModel, group: Seq<char>, e: ExpectationModel) -> OutboxModel {
    let fields = if m.groups.contains_key(group) {
        m.groups[group]
    } else {
        Map::empty()
    };
    OutboxModel { groups: m.groups.insert(group, fields.insert(e.field, e)), ..m }
}

/// What the addressed group is told, if a group was addressed.
pub open spec fn group_told(m: OutboxModel, s: SubmissionModel) -> OutboxModel {
    match s.group {
        Some(g) => {
            let (field, value) = group::expectation(s.intent);
            with_told(m, g, ExpectationModel { field, value, since: s.at })
        },
        None => m,
    }
}

/// The batch of a submission, armed, if it acts as one.
pub open spec fn batch_armed(m: OutboxModel, s: SubmissionModel) -> OutboxModel {
    match s.batch {
        Some(b) => m.with_batch(
            b,
            BatchModel {
                members: sorted_set(s.targets),
                ready: Seq::empty(),
                armed_at: s.at,
                barrier: match s.barrier {
                    Some(p) => p,
                    None => default_barrier(),
                },
                gate: Gate::Waiting,
            },
        ),
        None => m,
    }
}

/// State `m` once an admitted submission is recorded in full.
pub open spec fn accepted_state(m: OutboxModel, s: SubmissionModel) -> OutboxModel {
    batch_armed(group_told(recorded(m, s, s.targets.len()), s), s)
}

/// The writes that an admitted submission becomes.
pub open spec fn accepted_writes(m: OutboxModel, s: SubmissionModel) -> Seq<AcceptedModel> {
    Seq::new(s.targets.len(), |i: int| acceptance_of(new_record(m, s, i)))
}

/// What an admitted submission is answered.
pub open spec fn first_answer(m: OutboxModel, s: SubmissionModel) -> AcceptanceModel {
    AcceptanceModel { batch: s.batch, writes: accepted_writes(m, s) }
}

/// The complaint about a submission whose ids and targets differ in number.
pub open spec fn count_complaint(s: SubmissionModel) -> Seq<char> {
    text::decimal(s.ids.len()) + " ids for "@ + text::decimal(s.targets.len()) + " targets"@
}

/// What a submission is answered.
pub open spec fn submit_result(m: OutboxModel, s: SubmissionModel) -> Result<
    AcceptanceModel,
    SubmitErrorModel,
> {
    if s.targets.len() == 0 {
        Err(SubmitErrorModel::Malformed("no targets"@))
    } else if s.ids.len() != s.targets.len() {
        Err(SubmitErrorModel::Malformed(count_complaint(s)))
    } else if replay(m, s) is Some {
        Ok(replay(m, s)->0)
    } else if refusal(m, s, 0) is Some {
        Err(refusal(m, s, 0)->0)
    } else {
        Ok(first_answer(m, s))
    }
}

/// What a submission makes of the state: nothing, unless it is admitted anew.
pub open spec fn submit_state(m: OutboxModel, s: SubmissionModel) -> OutboxModel {
    if submit_result(m, s) is Ok && replay(m, s) is None {
        accepted_state(m, s)
    } else {
        m
    }
}

// ---- claiming --------------------------------------------------------------

/// A record as it is handed out.
pub open spec fn in_flight(r: RecordModel, at: Seq<char>) -> RecordModel {
    RecordModel {
        status: StatusModel::InFlight,
        attempts: (r.attempts + 1) as u32,
        updated_at: at,
        ..r
    }
}

/// State `m` with the head of one device's queue handed out, if there is one.
pub open spec fn head_claimed(m: OutboxModel, device: Seq<char>, at: Seq<char>) -> OutboxModel {
    match m.head(device) {
        Some(id) => m.with_record(id, in_flight(m.records[id], at)).with_log(
            device,
            LogModel { queue: m.log(device).queue.drop_first(), ..m.log(device) },
        ),
        None => m,
    }
}

/// The records that claiming the head of one device hands out: one, or none.
pub open spec fn head_row(m: OutboxModel, device: Seq<char>, at: Seq<char>) -> Seq<RecordModel> {
    match m.head(device) {
        Some(id) => seq![in_flight(m.records[id], at)],
        None => Seq::empty(),
    }
}

/// The heads of several devices handed out, one after the other.
pub open spec fn heads_claimed(
    m: OutboxModel,
    devices: Seq<Seq<char>>,
    at: Seq<char>,
) -> OutboxModel
    decreases devices.len(),
{
    if devices.len() == 0 {
        m
    } else {
        head_claimed(heads_claimed(m, devices.drop_last(), at), devices.last(), at)
    }
}

pub open spec fn head_rows(
    m: OutboxModel,
    devices: Seq<Seq<char>>,
    at: Seq<char>,
) -> Seq<RecordModel>
    decreases devices.len(),
{
    if devices.len() == 0 {
        Seq::empty()
    } else {
        head_rows(m, devices.drop_last(), at) + head_row(
            heads_claimed(m, devices.drop_last(), at),
            devices.last(),
            at,
        )
    }
}

/// Why a write of an abandoned batch failed.
pub open spec fn expiry_reason() -> Seq<char> {
    "the group barrier expired before every member was ready"@
}

/// State `m` with the head of one device's queue failed without a dispatch.
pub open spec fn head_failed(m: OutboxModel, device: Seq<char>, at: Seq<char>) -> OutboxModel {
    match m.head(device) {
        Some(id) => m.with_record(
            id,
            RecordModel {
                status: StatusModel::Failed { reason: expiry_reason() },
                updated_at: at,
                ..m.records[id]
            },
        ).with_log(
            device,
            LogModel {
                queue: m.log(device).queue.drop_first(),
                phase: outbox::rolled_back(
                    m.log(device).phase,
                    outbox::verb_of(m.records[id].intent),
                ),
                ..m.log(device)
            },
        ),
        None => m,
    }
}

/// The heads of several devices failed, one after the other.
pub open spec fn heads_failed(
    m: OutboxModel,
    devices: Seq<Seq<char>>,
    at: Seq<char>,
) -> OutboxModel
    decreases devices.len(),
{
    if devices.len() == 0 {
        m
    } else {
        head_failed(heads_failed(m, devices.drop_last(), at), devices.last(), at)
    }
}

/// Whether a member's batched write is at the head of its queue and due.
pub open spec fn ready_for(
    m: OutboxModel,
    member: Seq<char>,
    batch: Seq<char>,
    at: Seq<char>,
) -> bool {
    match m.head(member) {
        Some(id) => m.records[id].batch == Some(batch) && !text::lex_lt(
            at,
            m.records[id].not_before,
        ),
        None => false,
    }
}

pub open spec fn readiness(m: OutboxModel, batch: Seq<char>, at: Seq<char>) -> spec_fn(
    Seq<char>,
) -> bool {
    |d: Seq<char>| ready_for(m, d, batch, at)
}

/// The members of a list that are ready, in its order.
pub open spec fn ready_members(
    m: OutboxModel,
    members: Seq<Seq<char>>,
    batch: Seq<char>,
    at: Seq<char>,
) -> Seq<Seq<char>> {
    members.filter(readiness(m, batch, at))
}

/// Whether more than `timeout` has passed since `armed` by `now`. A stamp that is
/// no instant, or a timeout that is no step of the calendar, has not passed.
pub open spec fn elapsed(armed: Seq<char>, timeout: nat, now: Seq<char>) -> bool {
    match (time::rfc3339_instant(armed), time::rfc3339_instant(now)) {
        (Some(a), Some(n)) => timeout <= time::STEP_MAX && match time::later_by(a, timeout) {
            Some(deadline) => deadline.before(n),
            None => false,
        },
        _ => false,
    }
}

/// What evaluating a batched head decides.
pub enum StepModel {
    /// Not everyone is here: leave the write where it is.
    Wait,
    /// Dispatch these members as one.
    Release(Seq<Seq<char>>),
    /// Dispatch this member on its own.
    Alone,
    /// Fail the writes of these members without a dispatch.
    Fail(Seq<Seq<char>>),
}

/// What the rendezvous of `batch` decides for `device` at `at`.
pub open spec fn batch_step(
    m: OutboxModel,
    batch: Seq<char>,
    device: Seq<char>,
    at: Seq<char>,
) -> StepModel {
    if !m.batches.contains_key(batch) {
        StepModel::Wait
    } else {
        let b = m.batches[batch];
        match b.gate {
            Gate::Open => StepModel::Alone,
            Gate::Abandoned => StepModel::Fail(seq![device]),
            Gate::Waiting => {
                let ready = ready_members(m, b.members, batch, at);
                if ready == b.members {
                    StepModel::Release(ready)
                } else if !elapsed(b.armed_at, b.barrier.timeout, at) {
                    StepModel::Wait
                } else {
                    match b.barrier.on_timeout {
                        Barrier::DispatchReady => StepModel::Release(ready),
                        Barrier::FailBatch => StepModel::Fail(ready),
                    }
                }
            },
        }
    }
}

/// Whether a batch has to be asked how long it has waited: it is still filling,
/// and not everyone is there.
pub open spec fn still_filling(m: OutboxModel, batch: Seq<char>, at: Seq<char>) -> bool {
    m.batches.contains_key(batch) && m.batches[batch].gate == Gate::Waiting && ready_members(
        m,
        m.batches[batch].members,
        batch,
        at,
    ) != m.batches[batch].members
}

/// Whether the calendar can tell how long the batch at the head of a device's
/// queue has to wait, where that is asked.
pub open spec fn wait_tolerable(m: OutboxModel, device: Seq<char>, at: Seq<char>) -> bool {
    match m.head(device) {
        Some(id) => match m.records[id].batch {
            Some(b) => still_filling(m, b, at) ==> tolerable(m.batches[b].barrier.timeout),
            None => true,
        },
        None => true,
    }
}

/// The rendezvous of `batch` once it has been evaluated.
pub open spec fn batch_evaluated(
    m: OutboxModel,
    batch: Seq<char>,
    device: Seq<char>,
    at: Seq<char>,
) -> OutboxModel {
    if m.batches.contains_key(batch) && m.batches[batch].gate == Gate::Waiting {
        let b = m.batches[batch];
        m.with_batch(
            batch,
            BatchModel {
                ready: ready_members(m, b.members, batch, at),
                gate: match batch_step(m, batch, device, at) {
                    StepModel::Wait => Gate::Waiting,
                    StepModel::Release(_) => Gate::Open,
                    StepModel::Alone => Gate::Open,
                    StepModel::Fail(_) => Gate::Abandoned,
                },
                ..b
            },
        )
    } else {
        m
    }
}

/// The batch of the write at the head of a device's queue, if that write is due
/// and batched.
pub open spec fn due(m: OutboxModel, device: Seq<char>, at: Seq<char>) -> bool {
    m.head(device) is Some && !text::lex_lt(at, m.records[m.head(device)->0].not_before)
}

pub open spec fn claim_state(m: OutboxModel, device: Seq<char>, at: Seq<char>) -> OutboxModel {
    if !due(m, device, at) {
        m
    } else {
        match m.records[m.head(device)->0].batch {
            None => head_claimed(m, device, at),
            Some(b) => {
                let e = batch_evaluated(m, b, device, at);
                match batch_step(m, b, device, at) {
                    StepModel::Wait => e,
                    StepModel::Alone => head_claimed(e, device, at),
                    StepModel::Release(members) => heads_claimed(e, members, at),
                    StepModel::Fail(members) => heads_failed(e, members, at),
                }
            },
        }
    }
}

pub open spec fn claim_result(
    m: OutboxModel,
    device: Seq<char>,
    at: Seq<char>,
) -> Option<ClaimModel> {
    if !due(m, device, at) {
        None
    } else {
        let r = m.records[m.head(device)->0];
        match r.batch {
            None => Some(ClaimModel::One(in_flight(r, at))),
            Some(b) => {
                let e = batch_evaluated(m, b, device, at);
                match batch_step(m, b, device, at) {
                    StepModel::Wait => None,
                    StepModel::Alone => Some(ClaimModel::One(in_flight(r, at))),
                    StepModel::Release(members) => Some(
                        ClaimModel::Batch { id: b, records: head_rows(e, members, at) },
                    ),
                    StepModel::Fail(_) => None,
                }
            },
        }
    }
}

/// How many writes one claim for a device may hand out.
pub open spec fn claim_width(m: OutboxModel, device: Seq<char>) -> nat {
    match m.head(device) {
        Some(id) => match m.records[id].batch {
            Some(b) => if m.batches.contains_key(b) {
                m.batches[b].members.len() + 1
            } else {
                1
            },
            None => 1,
        },
        None => 1,
    }
}

// ---- settling --------------------------------------------------------------

/// `at` and `delay` more, as a stamp. A stamp that is no instant, or a delay that
/// is no step of the calendar, leaves it as it is.
pub open spec fn delayed(at: Seq<char>, delay: nat) -> Seq<char> {
    match time::rfc3339_instant(at) {
        Some(i) => if delay <= time::STEP_MAX && time::later_by(i, delay) is Some {
            time::rfc3339_text(time::later_by(i, delay)->0)
        } else {
            at
        },
        None => at,
    }
}

pub open spec fn other_than(key: Seq<char>) -> spec_fn(Seq<char>) -> bool {
    |x: Seq<char>| x != key
}

pub open spec fn without(s: Seq<Seq<char>>, key: Seq<char>) -> Seq<Seq<char>> {
    s.filter(other_than(key))
}

/// The batch of a record without its device among the ready, and without it
/// among the members too where `gone`.
pub open spec fn batch_left(m: OutboxModel, r: RecordModel, gone: bool) -> OutboxModel {
    match r.batch {
        Some(b) => if m.batches.contains_key(b) {
            let batch = m.batches[b];
            m.with_batch(
                b,
                BatchModel {
                    ready: without(batch.ready, r.device),
                    members: if gone {
                        without(batch.members, r.device)
                    } else {
                        batch.members
                    },
                    ..batch
                },
            )
        } else {
            m
        },
        None => m,
    }
}

/// The complaint about a settlement, if there is one.
pub open spec fn settle_complaint(m: OutboxModel, id: Seq<char>) -> Option<Seq<char>> {
    if !m.records.contains_key(id) {
        Some("settling an unknown write"@)
    } else if m.records[id].status != StatusModel::InFlight {
        Some("settling a write that was not in flight"@)
    } else {
        None
    }
}

/// Whether `a` stands before `b` in `history`.
pub open spec fn earlier(history: Seq<Seq<char>>, a: Seq<char>, b: Seq<char>) -> bool {
    exists|i: int, j: int|
        0 <= i < j < history.len() && #[trigger] history[i] == a && #[trigger] history[j] == b
}

/// How many of the first of `queue` stand before `id` in `history`.
pub open spec fn place(queue: Seq<Seq<char>>, history: Seq<Seq<char>>, id: Seq<char>) -> nat
    decreases queue.len(),
{
    if queue.len() == 0 || !earlier(history, queue[0], id) {
        0
    } else {
        1 + place(queue.drop_first(), history, id)
    }
}

/// A queue with a write put back at its place in the order of submission.
pub open spec fn requeued(
    queue: Seq<Seq<char>>,
    history: Seq<Seq<char>>,
    id: Seq<char>,
) -> Seq<Seq<char>> {
    queue.insert(place(queue, history, id) as int, id)
}

/// State `m` once the outcome of a write in flight is recorded. A failure is
/// retried while there are attempts left, from its place in the order of
/// submission; after that it is final, and the phase that the write moved is
/// moved back.
pub open spec fn settle_state(
    m: OutboxModel,
    id: Seq<char>,
    outcome: OutcomeModel,
    at: Seq<char>,
) -> OutboxModel {
    if settle_complaint(m, id) is Some {
        m
    } else {
        let r = m.records[id];
        let log = m.log(r.device);
        match outcome {
            OutcomeModel::Succeeded(value) => m.with_record(
                id,
                RecordModel { status: StatusModel::Succeeded { value }, updated_at: at, ..r },
            ),
            OutcomeModel::Failed(reason) => if r.attempts < m.max_attempts {
                batch_left(m, r, false).with_record(
                    id,
                    RecordModel {
                        status: StatusModel::Pending,
                        not_before: delayed(at, m.backoff * r.attempts as nat),
                        updated_at: at,
                        ..r
                    },
                ).with_log(
                    r.device,
                    LogModel { queue: requeued(log.queue, log.history, id), ..log },
                )
            } else {
                batch_left(m, r, true).with_record(
                    id,
                    RecordModel { status: StatusModel::Failed { reason }, updated_at: at, ..r },
                ).with_log(
                    r.device,
                    LogModel {
                        phase: outbox::rolled_back(log.phase, outbox::verb_of(r.intent)),
                        ..log
                    },
                )
            },
        }
    }
}

// ---- canceling -------------------------------------------------------------

/// State `m` with the newest write of one device's queue withdrawn, if there is
/// one: nobody waits for it any more, and the phase that it moved is moved back.
pub open spec fn last_canceled(
    m: OutboxModel,
    device: Seq<char>,
    reason: Seq<char>,
    at: Seq<char>,
) -> OutboxModel {
    let log = m.log(device);
    if log.queue.len() == 0 {
        m
    } else {
        let id = log.queue.last();
        let r = m.records[id];
        batch_left(m, r, true).with_record(
            id,
            RecordModel { status: StatusModel::Canceled { reason }, updated_at: at, ..r },
        ).with_log(
            device,
            LogModel {
                queue: log.queue.drop_last(),
                phase: outbox::rolled_back(log.phase, outbox::verb_of(r.intent)),
                ..log
            },
        )
    }
}

/// State `m` with every queued write of one device withdrawn, newest first.
pub open spec fn cancel_state(
    m: OutboxModel,
    device: Seq<char>,
    reason: Seq<char>,
    at: Seq<char>,
) -> OutboxModel
    decreases m.log(device).queue.len(),
{
    if m.log(device).queue.len() == 0 {
        m
    } else {
        cancel_state(last_canceled(m, device, reason, at), device, reason, at)
    }
}

// ---- forgetting ------------------------------------------------------------

/// State `m` without anything that a group was told.
pub open spec fn forget_group_state(m: OutboxModel, group: Seq<char>) -> OutboxModel {
    OutboxModel { groups: m.groups.remove(group), ..m }
}

/// How many fields a group was told of.
pub open spec fn told_count(m: OutboxModel, group: Seq<char>) -> nat {
    if m.groups.contains_key(group) {
        m.groups[group].dom().len()
    } else {
        0
    }
}

// ---- observing -------------------------------------------------------------

/// State `m` once a device has reported its recording state.
pub open spec fn observe_state(
    m: OutboxModel,
    device: Seq<char>,
    observed: RecordingState,
) -> OutboxModel {
    let log = m.log(device);
    let after = outbox::reconciled(log.phase, observed);
    m.with_log(
        device,
        LogModel {
            phase: after,
            epoch: if outbox::opens(log.phase, after) {
                (log.epoch + 1) as u64
            } else {
                log.epoch
            },
            ..log
        },
    )
}

// ---- what every operation keeps --------------------------------------------

/// Whether a log speaks of recorded writes only, `id` counted among them.
spec fn backed(m: OutboxModel, log: LogModel, id: Seq<char>) -> bool {
    &&& forall|i: int|
        0 <= i < log.queue.len() ==> m.records.contains_key(#[trigger] log.queue[i])
            || log.queue[i] == id
    &&& forall|i: int|
        0 <= i < log.history.len() ==> m.records.contains_key(#[trigger] log.history[i])
            || log.history[i] == id
}

proof fn inv_with(
    m: OutboxModel,
    id: Seq<char>,
    r: RecordModel,
    device: Seq<char>,
    log: LogModel,
)
    requires
        m.inv(),
        r.id == id,
        r.device == device || m.logs.contains_key(r.device),
        backed(m, log, id),
    ensures
        m.with_record(id, r).with_log(device, log).inv(),
{
    let n = m.with_record(id, r).with_log(device, log);
    assert forall|d: Seq<char>, i: int|
        n.logs.contains_key(d) && 0 <= i < n.logs[d].queue.len() implies n.records.contains_key(
        #[trigger] n.logs[d].queue[i],
    ) by {
        if d != device {
            assert(m.records.contains_key(m.logs[d].queue[i]));
        }
    }
    assert forall|d: Seq<char>, i: int|
        n.logs.contains_key(d) && 0 <= i < n.logs[d].history.len() implies n.records.contains_key(
        #[trigger] n.logs[d].history[i],
    ) by {
        if d != device {
            assert(m.records.contains_key(m.logs[d].history[i]));
        }
    }
    assert forall|x: Seq<char>| #[trigger] n.records.contains_key(x) implies n.logs.contains_key(
        n.records[x].device,
    ) && n.records[x].id == x by {
        if x != id {
            assert(m.records.contains_key(x));
        }
    }
}

proof fn inv_with_batch(m: OutboxModel, b: Seq<char>, batch: BatchModel)
    requires
        m.inv(),
        ordered::in_order(batch.members),
    ensures
        m.with_batch(b, batch).inv(),
{
    let n = m.with_batch(b, batch);
    assert(n.backed()) by {
        assert(n.logs == m.logs && n.records == m.records);
    }
    assert forall|x: Seq<char>| #[trigger] n.batches.contains_key(x) implies ordered::in_order(
        n.batches[x].members,
    ) by {
        if x != b {
            assert(m.batches.contains_key(x));
        }
    }
}

proof fn log_backed(m: OutboxModel, device: Seq<char>, id: Seq<char>)
    requires
        m.inv(),
    ensures
        backed(m, m.log(device), id),
{
    let log = m.log(device);
    if m.logs.contains_key(device) {
        assert forall|i: int| 0 <= i < log.queue.len() implies m.records.contains_key(
            #[trigger] log.queue[i],
        ) by {
            assert(m.records.contains_key(m.logs[device].queue[i]));
        }
        assert forall|i: int| 0 <= i < log.history.len() implies m.records.contains_key(
            #[trigger] log.history[i],
        ) by {
            assert(m.records.contains_key(m.logs[device].history[i]));
        }
    }
}

/// The head of a queue names a record.
pub proof fn head_is_recorded(m: OutboxModel, device: Seq<char>)
    requires
        m.inv(),
        m.head(device) is Some,
    ensures
        m.records.contains_key(m.head(device)->0),
        m.logs.contains_key(device),
{
    assert(m.records.contains_key(m.logs[device].queue[0]));
}

pub proof fn recorded_keeps_inv(m: OutboxModel, s: SubmissionModel, n: nat)
    requires
        m.inv(),
        n <= s.targets.len(),
        s.ids.len() == s.targets.len(),
    ensures
        recorded(m, s, n).inv(),
    decreases n,
{
    if n > 0 {
        let i = n - 1;
        recorded_keeps_inv(m, s, i as nat);
        let prev = recorded(m, s, i as nat);
        let d = s.targets[i];
        let id = s.ids[i];
        let log = log_with(m, prev.log(d), s, i);
        log_backed(prev, d, id);
        assert(backed(prev, log, id)) by {
            let old_log = prev.log(d);
            assert forall|j: int| 0 <= j < log.queue.len() implies prev.records.contains_key(
                #[trigger] log.queue[j],
            ) || log.queue[j] == id by {
                if j < old_log.queue.len() {
                    assert(log.queue[j] == old_log.queue[j]);
                }
            }
            assert forall|j: int| 0 <= j < log.history.len() implies prev.records.contains_key(
                #[trigger] log.history[j],
            ) || log.history[j] == id by {
                if j < old_log.history.len() {
                    assert(log.history[j] == old_log.history[j]);
                }
            }
        }
        inv_with(prev, id, new_record(m, s, i), d, log);
    }
}

proof fn put_in_order(t: Seq<Seq<char>>, k: Seq<char>) -> (u: Seq<Seq<char>>)
    requires
        ordered::in_order(t),
    ensures
        ordered::in_order(u),
        forall|x: Seq<char>| u.contains(x) <==> t.contains(x) || x == k,
    decreases t.len(),
{
    if t.len() == 0 {
        let u = seq![k];
        assert forall|x: Seq<char>| u.contains(x) <==> t.contains(x) || x == k by {
            if x == k {
                assert(u[0] == x);
            }
        }
        u
    } else if t.last() == k {
        assert forall|x: Seq<char>| t.contains(x) <==> t.contains(x) || x == k by {
            assert(t[t.len() - 1] == k);
        }
        t
    } else if text::lex_lt(t.last(), k) {
        let u = t.push(k);
        assert forall|i: int, j: int| 0 <= i < j < u.len() implies text::lex_lt(
            #[trigger] u[i],
            #[trigger] u[j],
        ) by {
            if j == t.len() && i < t.len() - 1 {
                assert(text::lex_lt(t[i], t[t.len() - 1]));
                text::lex_transitive(t[i], t.last(), k);
            }
        }
        assert forall|x: Seq<char>| u.contains(x) <==> t.contains(x) || x == k by {
            if t.contains(x) {
                let i = choose|i: int| 0 <= i < t.len() && t[i] == x;
                assert(u[i] == x);
            }
            if x == k {
                assert(u[t.len() as int] == x);
            }
        }
        u
    } else {
        let last = t.last();
        let rest = t.drop_last();
        text::lex_total(last, k);
        let v = put_in_order(rest, k);
        let u = v.push(last);
        assert forall|i: int, j: int| 0 <= i < j < u.len() implies text::lex_lt(
            #[trigger] u[i],
            #[trigger] u[j],
        ) by {
            if j == v.len() {
                assert(v.contains(v[i]));
                if v[i] != k {
                    let x = choose|x: int| 0 <= x < rest.len() && rest[x] == v[i];
                    assert(text::lex_lt(t[x], t[t.len() - 1]));
                }
            }
        }
        assert forall|x: Seq<char>| u.contains(x) <==> t.contains(x) || x == k by {
            if u.contains(x) && x != last {
                let i = choose|i: int| 0 <= i < u.len() && u[i] == x;
                assert(v[i] == x);
                assert(v.contains(x));
                if x != k {
                    let y = choose|y: int| 0 <= y < rest.len() && rest[y] == x;
                    assert(t[y] == x);
                }
            }
            if x == last {
                assert(u[v.len() as int] == x);
                assert(t[t.len() - 1] == x);
            }
            if (t.contains(x) || x == k) && x != last {
                if t.contains(x) {
                    let y = choose|y: int| 0 <= y < t.len() && t[y] == x;
                    assert(rest[y] == x);
                }
                assert(v.contains(x));
                let i = choose|i: int| 0 <= i < v.len() && v[i] == x;
                assert(u[i] == x);
            }
        }
        u
    }
}

proof fn in_order_form(s: Seq<Seq<char>>) -> (t: Seq<Seq<char>>)
    ensures
        ordered::in_order(t),
        forall|k: Seq<char>| t.contains(k) <==> s.contains(k),
    decreases s.len(),
{
    if s.len() == 0 {
        s
    } else {
        let t = in_order_form(s.drop_last());
        let u = put_in_order(t, s.last());
        assert forall|k: Seq<char>| u.contains(k) <==> s.contains(k) by {
            if s.contains(k) && k != s.last() {
                let i = choose|i: int| 0 <= i < s.len() && s[i] == k;
                assert(s.drop_last()[i] == k);
                assert(s.drop_last().contains(k));
            }
            if t.contains(k) {
                assert(s.drop_last().contains(k));
                let i = choose|i: int| 0 <= i < s.drop_last().len() && s.drop_last()[i] == k;
                assert(s[i] == k);
            }
            if k == s.last() {
                assert(s[s.len() - 1] == k);
            }
        }
        u
    }
}

/// The members of a batch are the targets, in order, each once.
pub proof fn sorted_set_is(s: Seq<Seq<char>>)
    ensures
        ordered::in_order(sorted_set(s)),
        forall|k: Seq<char>| sorted_set(s).contains(k) <==> s.contains(k),
{
    let t = in_order_form(s);
}

/// Submitting keeps every queue and history backed by records.
pub proof fn submit_keeps_inv(m: OutboxModel, s: SubmissionModel)
    requires
        m.inv(),
    ensures
        submit_state(m, s).inv(),
{
    if submit_result(m, s) is Ok && replay(m, s) is None {
        recorded_keeps_inv(m, s, s.targets.len());
        sorted_set_is(s.targets);
        let made = recorded(m, s, s.targets.len());
        let told = group_told(made, s);
        assert(told.logs == made.logs && told.records == made.records);
        assert(told.batches == made.batches);
        assert(told.max_attempts == made.max_attempts && told.backoff == made.backoff);
        assert(told.inv());
        if let Some(b) = s.batch {
            inv_with_batch(told, b, batch_armed(told, s).batches[b]);
        }
    }
}

pub proof fn head_claimed_keeps_inv(m: OutboxModel, device: Seq<char>, at: Seq<char>)
    requires
        m.inv(),
    ensures
        head_claimed(m, device, at).inv(),
{
    if let Some(id) = m.head(device) {
        head_is_recorded(m, device);
        log_backed(m, device, id);
        let log = LogModel { queue: m.log(device).queue.drop_first(), ..m.log(device) };
        assert forall|i: int| 0 <= i < log.queue.len() implies m.records.contains_key(
            #[trigger] log.queue[i],
        ) || log.queue[i] == id by {
            assert(log.queue[i] == m.log(device).queue[i + 1]);
        }
        inv_with(m, id, in_flight(m.records[id], at), device, log);
    }
}

pub proof fn heads_claimed_keeps_inv(m: OutboxModel, devices: Seq<Seq<char>>, at: Seq<char>)
    requires
        m.inv(),
    ensures
        heads_claimed(m, devices, at).inv(),
    decreases devices.len(),
{
    if devices.len() > 0 {
        heads_claimed_keeps_inv(m, devices.drop_last(), at);
        head_claimed_keeps_inv(heads_claimed(m, devices.drop_last(), at), devices.last(), at);
    }
}

pub proof fn head_failed_keeps_inv(m: OutboxModel, device: Seq<char>, at: Seq<char>)
    requires
        m.inv(),
    ensures
        head_failed(m, device, at).inv(),
{
    if let Some(id) = m.head(device) {
        head_is_recorded(m, device);
        log_backed(m, device, id);
        let log = head_failed(m, device, at).logs[device];
        let r = head_failed(m, device, at).records[id];
        assert forall|i: int| 0 <= i < log.queue.len() implies m.records.contains_key(
            #[trigger] log.queue[i],
        ) || log.queue[i] == id by {
            assert(log.queue[i] == m.log(device).queue[i + 1]);
        }
        inv_with(m, id, r, device, log);
    }
}

pub proof fn heads_failed_keeps_inv(m: OutboxModel, devices: Seq<Seq<char>>, at: Seq<char>)
    requires
        m.inv(),
    ensures
        heads_failed(m, devices, at).inv(),
    decreases devices.len(),
{
    if devices.len() > 0 {
        heads_failed_keeps_inv(m, devices.drop_last(), at);
        head_failed_keeps_inv(heads_failed(m, devices.drop_last(), at), devices.last(), at);
    }
}

pub proof fn evaluating_keeps_inv(
    m: OutboxModel,
    batch: Seq<char>,
    device: Seq<char>,
    at: Seq<char>,
)
    requires
        m.inv(),
    ensures
        batch_evaluated(m, batch, device, at).inv(),
{
    if m.batches.contains_key(batch) && m.batches[batch].gate == Gate::Waiting {
        inv_with_batch(m, batch, batch_evaluated(m, batch, device, at).batches[batch]);
    }
}

/// Claiming keeps every queue and history backed by records.
pub proof fn claim_keeps_inv(m: OutboxModel, device: Seq<char>, at: Seq<char>)
    requires
        m.inv(),
    ensures
        claim_state(m, device, at).inv(),
{
    if due(m, device, at) {
        match m.records[m.head(device)->0].batch {
            None => {
                head_claimed_keeps_inv(m, device, at);
            },
            Some(b) => {
                let e = batch_evaluated(m, b, device, at);
                evaluating_keeps_inv(m, b, device, at);
                match batch_step(m, b, device, at) {
                    StepModel::Wait => {},
                    StepModel::Alone => {
                        head_claimed_keeps_inv(e, device, at);
                    },
                    StepModel::Release(members) => {
                        heads_claimed_keeps_inv(e, members, at);
                    },
                    StepModel::Fail(members) => {
                        heads_failed_keeps_inv(e, members, at);
                    },
                }
            },
        }
    }
}

proof fn filter_from(s: Seq<Seq<char>>, keep: spec_fn(Seq<char>) -> bool, i: int)
    requires
        0 <= i < s.filter(keep).len(),
    ensures
        s.contains(s.filter(keep)[i]),
        keep(s.filter(keep)[i]),
    decreases s.len(),
{
    reveal(Seq::filter);
    let rest = s.drop_last();
    if i < rest.filter(keep).len() {
        filter_from(rest, keep, i);
        let x = choose|x: int| 0 <= x < rest.len() && rest[x] == rest.filter(keep)[i];
        assert(s[x] == s.filter(keep)[i]);
    } else {
        assert(s[s.len() - 1] == s.filter(keep)[i]);
    }
}

/// Leaving keys out keeps the order of the rest.
pub proof fn filter_keeps_order(s: Seq<Seq<char>>, keep: spec_fn(Seq<char>) -> bool)
    requires
        ordered::in_order(s),
    ensures
        ordered::in_order(s.filter(keep)),
    decreases s.len(),
{
    reveal(Seq::filter);
    if s.len() > 0 {
        let rest = s.drop_last();
        filter_keeps_order(rest, keep);
        let f = rest.filter(keep);
        if keep(s.last()) {
            let g = f.push(s.last());
            assert(s.filter(keep) == g);
            assert forall|i: int, j: int| 0 <= i < j < g.len() implies text::lex_lt(
                #[trigger] g[i],
                #[trigger] g[j],
            ) by {
                if j == f.len() {
                    filter_from(rest, keep, i);
                    assert(rest.contains(f[i]));
                    let x = choose|x: int| 0 <= x < rest.len() && rest[x] == f[i];
                    assert(text::lex_lt(s[x], s[s.len() - 1]));
                }
            }
        }
    }
}

proof fn without_keeps_order(s: Seq<Seq<char>>, key: Seq<char>)
    requires
        ordered::in_order(s),
    ensures
        ordered::in_order(without(s, key)),
{
    filter_keeps_order(s, other_than(key));
}

pub proof fn place_within(queue: Seq<Seq<char>>, history: Seq<Seq<char>>, id: Seq<char>)
    ensures
        place(queue, history, id) <= queue.len(),
    decreases queue.len(),
{
    if queue.len() > 0 && earlier(history, queue[0], id) {
        place_within(queue.drop_first(), history, id);
    }
}

proof fn leaving_keeps_inv(m: OutboxModel, r: RecordModel, gone: bool)
    requires
        m.inv(),
    ensures
        batch_left(m, r, gone).inv(),
{
    if r.batch is Some && m.batches.contains_key(r.batch->0) {
        let b = r.batch->0;
        without_keeps_order(m.batches[b].members, r.device);
        inv_with_batch(m, b, batch_left(m, r, gone).batches[b]);
    }
}

/// Withdrawing a write keeps every queue and history backed by records.
pub proof fn last_canceled_keeps_inv(
    m: OutboxModel,
    device: Seq<char>,
    reason: Seq<char>,
    at: Seq<char>,
)
    requires
        m.inv(),
    ensures
        last_canceled(m, device, reason, at).inv(),
        m.log(device).queue.len() > 0 ==> m.records.contains_key(m.log(device).queue.last()),
{
    let log = m.log(device);
    if log.queue.len() > 0 {
        let id = log.queue.last();
        assert(m.records.contains_key(m.logs[device].queue[log.queue.len() - 1]));
        let left = batch_left(m, m.records[id], true);
        leaving_keeps_inv(m, m.records[id], true);
        log_backed(left, device, id);
        let n = last_canceled(m, device, reason, at);
        let next = n.logs[device];
        assert forall|i: int| 0 <= i < next.queue.len() implies left.records.contains_key(
            #[trigger] next.queue[i],
        ) by {
            assert(next.queue[i] == log.queue[i]);
        }
        inv_with(left, id, n.records[id], device, next);
    }
}

/// Settling keeps every queue and history backed by records.
pub proof fn settle_keeps_inv(
    m: OutboxModel,
    id: Seq<char>,
    outcome: OutcomeModel,
    at: Seq<char>,
)
    requires
        m.inv(),
    ensures
        settle_state(m, id, outcome, at).inv(),
{
    if settle_complaint(m, id) is None {
        let r = m.records[id];
        let log = m.log(r.device);
        log_backed(m, r.device, id);
        match outcome {
            OutcomeModel::Succeeded(value) => {
                let n = settle_state(m, id, outcome, at);
                inv_with(m, id, n.records[id], r.device, log);
                assert(n =~= m.with_record(id, n.records[id]).with_log(r.device, log));
            },
            OutcomeModel::Failed(reason) => {
                let gone = !(r.attempts < m.max_attempts);
                let left = batch_left(m, r, gone);
                leaving_keeps_inv(m, r, gone);
                let n = settle_state(m, id, outcome, at);
                let new_log = n.logs[r.device];
                assert(backed(left, new_log, id)) by {
                    assert forall|i: int| 0 <= i < new_log.queue.len() implies left.records.contains_key(
                        #[trigger] new_log.queue[i],
                    ) || new_log.queue[i] == id by {
                        if !gone {
                            place_within(log.queue, log.history, id);
                            let p = place(log.queue, log.history, id) as int;
                            if i < p {
                                assert(new_log.queue[i] == log.queue[i]);
                            } else if i > p {
                                assert(new_log.queue[i] == log.queue[i - 1]);
                            }
                        } else {
                            assert(new_log.queue[i] == log.queue[i]);
                        }
                    }
                    assert forall|i: int| 0 <= i < new_log.history.len() implies left.records.contains_key(
                        #[trigger] new_log.history[i],
                    ) || new_log.history[i] == id by {
                        assert(new_log.history[i] == log.history[i]);
                    }
                }
                inv_with(left, id, n.records[id], r.device, new_log);
            },
        }
    }
}

/// Observing keeps every queue and history backed by records.
pub proof fn observe_keeps_inv(m: OutboxModel, device: Seq<char>, observed: RecordingState)
    requires
        m.inv(),
    ensures
        observe_state(m, device, observed).inv(),
{
    let n = observe_state(m, device, observed);
    log_backed(m, device, Seq::empty());
    let log = n.logs[device];
    if m.logs.contains_key(device) {
        assert forall|i: int| 0 <= i < log.queue.len() implies n.records.contains_key(
            #[trigger] log.queue[i],
        ) by {
            assert(m.records.contains_key(m.logs[device].queue[i]));
        }
        assert forall|i: int| 0 <= i < log.history.len() implies n.records.contains_key(
            #[trigger] log.history[i],
        ) by {
            assert(m.records.contains_key(m.logs[device].history[i]));
        }
    }
    assert forall|d: Seq<char>, i: int|
        n.logs.contains_key(d) && 0 <= i < n.logs[d].queue.len() implies n.records.contains_key(
        #[trigger] n.logs[d].queue[i],
    ) by {
        if d != device {
            assert(m.records.contains_key(m.logs[d].queue[i]));
        } else {
            assert(n.records.contains_key(log.queue[i]));
        }
    }
    assert forall|d: Seq<char>, i: int|
        n.logs.contains_key(d) && 0 <= i < n.logs[d].history.len() implies n.records.contains_key(
        #[trigger] n.logs[d].history[i],
    ) by {
        if d != device {
            assert(m.records.contains_key(m.logs[d].history[i]));
        } else {
            assert(n.records.contains_key(log.history[i]));
        }
    }
}

} // verus!
