//! An in-memory outbox: writes are admitted, queued per device, handed out in
//! order, and settled.

use std::collections::VecDeque;

use vstd::prelude::*;
use vstd::string::*;
use crate::api;
use crate::api::{
    clone_option, Acceptance, Accepted, Barrier, DeviceDesiredRecordingState, DeviceId,
    GroupExpectation, Phase, RecordModel, RecordingState, WriteId, WriteRecord, WriteStatus,
};
use crate::memory::outbox_model;
use crate::memory::outbox_model::{BatchModel, Gate, LogModel, OutboxModel};
use crate::ordered;
use crate::ordered::OrderedMap;
use crate::store::error::{ReadError, WriteError};
use crate::store::group::expects;
use crate::store::outbox;
use crate::store::outbox::{
    admit_verb, epoch_of, opens_recording, reconcile, rollback, BarrierPolicy, Claim, Outcome,
    Submission, SubmitError, Verb,
};
use crate::text;
use crate::text::{decimal_string, same};
use crate::time;
use crate::time::{later, parse_rfc3339, stamp, Duration, Timestamp};

verus! {

// ---- the records -----------------------------------------------------------

/// The records by id.
type Records = dashmap::DashMap<String, WriteRecord>;

/// What a map of records holds.
pub uninterp spec fn records_of(m: dashmap::DashMap<String, WriteRecord>) -> Map<Seq<char>, RecordModel>;

/// `DashMap::new`: a map that holds nothing.
#[verifier::external_body]
fn no_records() -> (r: Records)
    ensures
        forall|k: Seq<char>| !records_of(r).contains_key(k),
{
    dashmap::DashMap::new()
}

/// `DashMap::get`: a copy of the value at a key, if there is one.
#[verifier::external_body]
fn find_record(m: &Records, id: &str) -> (r: Option<WriteRecord>)
    ensures
        r is Some <==> records_of(*m).contains_key(id@),
        r is Some ==> r->0@ == records_of(*m)[id@],
{
    m.get(id).map(|found| found.value().clone())
}

/// `DashMap::insert`: puts a value at a key, in place of what was there.
#[verifier::external_body]
fn put_record(m: &mut Records, id: String, record: WriteRecord)
    ensures
        records_of(*final(m)) == records_of(*old(m)).insert(id@, record@),
{
    m.insert(id, record);
}

// ---- the state -------------------------------------------------------------

/// One device's phase and queue.
struct DeviceLog {
    desired_recording_state: Phase,
    epoch: u64,
    queue: VecDeque<WriteId>,
    history: Vec<WriteId>,
    keys: OrderedMap<Acceptance>,
}

impl View for DeviceLog {
    type V = LogModel;

    closed spec fn view(&self) -> LogModel {
        LogModel {
            phase: self.desired_recording_state,
            epoch: self.epoch,
            queue: text::views(self.queue@),
            history: text::views(self.history@),
            keys: self.keys@,
        }
    }
}

impl DeviceLog {
    fn empty() -> (r: Self)
        ensures
            r@ == outbox_model::empty_log(),
    {
        let r = DeviceLog {
            desired_recording_state: Phase::Idle,
            epoch: 0,
            queue: VecDeque::new(),
            history: Vec::new(),
            keys: OrderedMap::new(),
        };
        proof {
            assert(r@ =~= outbox_model::empty_log());
        }
        r
    }
}

/// Whether `a` stands before `b` in `history`.
fn stands_before(history: &Vec<WriteId>, a: &str, b: &str) -> (r: bool)
    ensures
        r == outbox_model::earlier(text::views(history@), a@, b@),
{
    let ghost h = text::views(history@);
    let mut seen: bool = false;
    let mut i: usize = 0;
    while i < history.len()
        invariant
            i <= history.len(),
            h == text::views(history@),
            seen <==> exists|x: int| 0 <= x < i && h[x] == a@,
            !exists|x: int, y: int|
                0 <= x < y < i && #[trigger] h[x] == a@ && #[trigger] h[y] == b@,
        decreases history.len() - i,
    {
        proof {
            assert(h[i as int] == history@[i as int]@);
        }
        if seen && same(history[i].as_str(), b) {
            proof {
                let x = choose|x: int| 0 <= x < i && h[x] == a@;
                assert(h[x] == a@ && h[i as int] == b@);
            }
            return true;
        }
        if same(history[i].as_str(), a) {
            seen = true;
        }
        i = i + 1;
    }
    false
}

impl DeviceLog {
    /// Where in the queue a write belongs that stands in the history.
    fn place_of(&self, id: &str) -> (r: usize)
        ensures
            r == outbox_model::place(self@.queue, self@.history, id@),
            r <= self@.queue.len(),
            self@.queue.len() == self.queue@.len(),
    {
        let ghost queue = self@.queue;
        let ghost history = self@.history;
        let mut i: usize = 0;
        proof {
            assert(queue.skip(0) =~= queue);
        }
        while i < self.queue.len()
            invariant
                i <= self.queue.len(),
                queue == text::views(self.queue@),
                history == text::views(self.history@),
                outbox_model::place(queue, history, id@) == i + outbox_model::place(
                    queue.skip(i as int),
                    history,
                    id@,
                ),
            decreases self.queue.len() - i,
        {
            proof {
                assert(queue.skip(i as int)[0] == self.queue@[i as int]@);
                assert(queue.skip(i as int).drop_first() =~= queue.skip(i + 1));
            }
            if !stands_before(&self.history, self.queue[i].as_str(), id) {
                return i;
            }
            i = i + 1;
        }
        i
    }
}

/// A batch's rendezvous.
struct Batch {
    members: Vec<DeviceId>,
    ready: Vec<DeviceId>,
    armed_at: Timestamp,
    barrier: BarrierPolicy,
    gate: Gate,
}

impl View for Batch {
    type V = BatchModel;

    closed spec fn view(&self) -> BatchModel {
        BatchModel {
            members: text::views(self.members@),
            ready: text::views(self.ready@),
            armed_at: self.armed_at@,
            barrier: self.barrier@,
            gate: self.gate,
        }
    }
}

/// The outbox.
pub struct MemoryOutbox {
    logs: OrderedMap<DeviceLog>,
    batches: OrderedMap<Batch>,
    groups: OrderedMap<OrderedMap<GroupExpectation>>,
    records: Records,
    max_attempts: u32,
    backoff: Duration,
}

impl View for MemoryOutbox {
    type V = OutboxModel;

    closed spec fn view(&self) -> OutboxModel {
        OutboxModel {
            logs: self.logs@,
            batches: self.batches@,
            groups: self.groups@,
            records: records_of(self.records),
            max_attempts: self.max_attempts,
            backoff: self.backoff@,
        }
    }
}

proof fn views_push(s: Seq<String>, x: String)
    ensures
        text::views(s.push(x)) == text::views(s).push(x@),
{
    assert(text::views(s.push(x)) =~= text::views(s).push(x@));
}

impl MemoryOutbox {
    pub open spec fn wf(&self) -> bool {
        self@.inv()
    }

    /// An outbox that tries each write `max_attempts` times, and no less than once.
    pub fn with_max_attempts(max_attempts: u32) -> (r: Self)
        ensures
            r.wf(),
            r@ == (OutboxModel {
                logs: Map::empty(),
                batches: Map::empty(),
                groups: Map::empty(),
                records: Map::empty(),
                max_attempts: if max_attempts == 0 {
                    1
                } else {
                    max_attempts
                },
                backoff: 500_000_000,
            }),
    {
        let r = MemoryOutbox {
            logs: OrderedMap::new(),
            batches: OrderedMap::new(),
            groups: OrderedMap::new(),
            records: no_records(),
            max_attempts: if max_attempts == 0 {
                1
            } else {
                max_attempts
            },
            backoff: Duration::from_millis(500),
        };
        proof {
            assert forall|n: nat| n < r.max_attempts implies #[trigger] outbox_model::spaced(
                r@.backoff,
                n,
            ) by {
                assert(r@.backoff * n <= 500_000_000 * 0xffff_ffff) by (nonlinear_arith)
                    requires
                        r@.backoff == 500_000_000,
                        n <= 0xffff_ffff,
                ;
            }
        }
        r
    }

    /// The same outbox with another delay before a retry. The delay is multiplied
    /// by the attempts already spent, and each multiple has to be a duration that
    /// the calendar can hold.
    pub fn with_backoff(self, backoff: Duration) -> (r: Self)
        requires
            self.wf(),
            forall|n: nat| n < self@.max_attempts ==> #[trigger] outbox_model::spaced(backoff@, n),
        ensures
            r.wf(),
            r@ == (OutboxModel { backoff: backoff@, ..self@ }),
    {
        let r = MemoryOutbox {
            logs: self.logs,
            batches: self.batches,
            groups: self.groups,
            records: self.records,
            max_attempts: self.max_attempts,
            backoff,
        };
        proof {
            assert(r@.logs == self@.logs && r@.records == self@.records);
            assert(r@.backed());
        }
        r
    }
}

impl MemoryOutbox {
    /// Gives each write another number of tries, and no less than one. Each
    /// multiple of the delay up to it has to be one that the calendar can hold.
    pub fn set_max_attempts(&mut self, max_attempts: u32)
        requires
            old(self).wf(),
            forall|n: nat|
                n < max_attempts ==> #[trigger] outbox_model::spaced(old(self)@.backoff, n),
        ensures
            final(self).wf(),
            final(self)@ == (OutboxModel {
                max_attempts: if max_attempts == 0 {
                    1
                } else {
                    max_attempts
                },
                ..old(self)@
            }),
    {
        let ghost m = self@;
        self.max_attempts = if max_attempts == 0 {
            1
        } else {
            max_attempts
        };
        proof {
            assert(self@.logs == m.logs && self@.records == m.records);
            assert(self@.backed());
            assert(outbox_model::spaced(m.backoff, 0));
        }
    }
}

// ---- delays ----------------------------------------------------------------

/// A delay the outbox can add keeps every written instant on the calendar.
proof fn tolerable_fits(i: time::Instant, delay: nat)
    requires
        i.valid(),
        i.four_digit_year(),
        outbox_model::tolerable(delay),
        delay <= time::STEP_MAX,
    ensures
        time::later_by(i, delay) is Some,
        time::later_by(i, delay)->0.valid(),
{
}

/// `at` and `delay` more.
fn delay_from(at: &Timestamp, delay: Duration) -> (r: Timestamp)
    requires
        outbox_model::tolerable(delay@),
    ensures
        r@ == outbox_model::delayed(at@, delay@),
{
    match parse_rfc3339(at.as_str()) {
        Some(parsed) => {
            if delay.as_nanos() > time::STEP_MAX {
                return at.clone();
            }
            proof {
                tolerable_fits(parsed, delay@);
            }
            match later(parsed, delay) {
                Some(due) => stamp(due),
                None => at.clone(),
            }
        },
        None => at.clone(),
    }
}

/// Whether more than `timeout` has passed since `armed_at` by `now`.
fn elapsed_past(armed_at: &Timestamp, timeout: Duration, now: &Timestamp) -> (r: bool)
    requires
        outbox_model::tolerable(timeout@),
    ensures
        r == outbox_model::elapsed(armed_at@, timeout@, now@),
{
    match (parse_rfc3339(armed_at.as_str()), parse_rfc3339(now.as_str())) {
        (Some(armed), Some(now)) => {
            if timeout.as_nanos() > time::STEP_MAX {
                return false;
            }
            match later(armed, timeout) {
                Some(deadline) => deadline.precedes(&now),
                None => false,
            }
        },
        _ => false,
    }
}

// ---- lists of devices ------------------------------------------------------

/// The devices of `s` in order, each once.
fn in_device_order(s: &Vec<DeviceId>) -> (r: Vec<DeviceId>)
    ensures
        text::views(r@) == outbox_model::sorted_set(text::views(s@)),
{
    let mut set: OrderedMap<bool> = OrderedMap::new();
    let mut i: usize = 0;
    while i < s.len()
        invariant
            i <= s.len(),
            forall|k: Seq<char>| #[trigger]
                set@.contains_key(k) <==> text::views(s@).take(i as int).contains(k),
        decreases s.len() - i,
    {
        let ghost before = set@;
        set.insert(s[i].clone(), true);
        proof {
            let v = text::views(s@);
            let key = v[i as int];
            assert(v.take(i + 1) == v.take(i as int).push(key));
            let part = v.take(i as int);
            let next = v.take(i + 1);
            assert forall|k: Seq<char>| #[trigger] set@.contains_key(k) <==> next.contains(k) by {
                if part.contains(k) {
                    let x = choose|x: int| 0 <= x < part.len() && part[x] == k;
                    assert(next[x] == k);
                }
                if k == key {
                    assert(next[i as int] == k);
                }
                if next.contains(k) && k != key {
                    let x = choose|x: int| 0 <= x < next.len() && next[x] == k;
                    assert(part[x] == k);
                }
            }
        }
        i = i + 1;
    }
    let n: usize = set.len();
    let mut out: Vec<DeviceId> = Vec::new();
    let mut j: usize = 0;
    while j < n
        invariant
            n == set.keys().len(),
            j <= n,
            text::views(out@) == set.keys().take(j as int),
        decreases n - j,
    {
        let entry = set.at(j);
        out.push(entry.0.clone());
        proof {
            assert(set.keys().take(j + 1) == set.keys().take(j as int).push(set.keys()[j as int]));
            assert(text::views(out@) =~= set.keys().take(j + 1));
        }
        j = j + 1;
    }
    proof {
        let v = text::views(s@);
        let w = text::views(out@);
        assert(v.take(v.len() as int) == v);
        assert(set.keys().take(n as int) == set.keys());
        outbox_model::sorted_set_is(v);
        let t = outbox_model::sorted_set(v);
        assert forall|k: Seq<char>| w.contains(k) <==> t.contains(k) by {
            assert(set@.contains_key(k) <==> v.contains(k));
        }
        ordered::in_order_unique(w, t);
    }
    out
}

/// The devices of `s` other than `key`.
fn without(s: &Vec<DeviceId>, key: &str) -> (r: Vec<DeviceId>)
    ensures
        text::views(r@) == outbox_model::without(text::views(s@), key@),
{
    let mut out: Vec<DeviceId> = Vec::new();
    let mut i: usize = 0;
    let ghost v = text::views(s@);
    proof {
        reveal(Seq::filter);
        assert(v.take(0) == Seq::<Seq<char>>::empty());
        assert(text::views(out@) =~= outbox_model::without(v.take(0), key@));
    }
    while i < s.len()
        invariant
            i <= s.len(),
            v == text::views(s@),
            text::views(out@) == outbox_model::without(v.take(i as int), key@),
        decreases s.len() - i,
    {
        proof {
            reveal(Seq::filter);
            assert(v.take(i + 1).drop_last() == v.take(i as int));
            assert(v.take(i + 1).last() == s@[i as int]@);
        }
        if !same(s[i].as_str(), key) {
            let ghost before = out@;
            out.push(s[i].clone());
            proof {
                views_push(before, s@[i as int]);
            }
        }
        i = i + 1;
    }
    proof {
        assert(v.take(v.len() as int) == v);
    }
    out
}

// ---- submitting ------------------------------------------------------------

/// Whether two optional texts are equal, one of them there.
fn names(a: &Option<String>, b: &str) -> (r: bool)
    ensures
        r == (api::option_view(*a) == Some(b@)),
{
    match a {
        Some(x) => same(x.as_str(), b),
        None => false,
    }
}

/// What a submission was answered, as a model.
pub open spec fn answer(r: Result<Acceptance, SubmitError>) -> Result<
    api::AcceptanceModel,
    outbox::SubmitErrorModel,
> {
    match r {
        Ok(a) => Ok(a@),
        Err(e) => Err(e@),
    }
}

impl MemoryOutbox {
    /// The phase of a device and the number of its current take.
    fn standing(&self, device: &str) -> (r: (Phase, u64))
        ensures
            r.0 == self@.log(device@).phase,
            r.1 == self@.log(device@).epoch,
    {
        match self.logs.get(device) {
            Some(log) => (log.desired_recording_state, log.epoch),
            None => (Phase::Idle, 0),
        }
    }

    /// The answer to a repeat of a keyed submission.
    fn replayed(&self, s: &Submission) -> (r: Option<Acceptance>)
        requires
            s.targets.len() > 0,
        ensures
            r is Some <==> outbox_model::replay(self@, s@) is Some,
            r is Some ==> r->0@ == outbox_model::replay(self@, s@)->0,
    {
        proof {
            assert(s@.targets[0] == s.targets@[0]@);
        }
        match &s.idempotency_key {
            Some(key) => match self.logs.get(s.targets[0].as_str()) {
                Some(log) => match log.keys.get(key.as_str()) {
                    Some(given) => Some(given.clone()),
                    None => None,
                },
                None => None,
            },
            None => None,
        }
    }

    /// Whether every target admits the submission: the refusal of the first that
    /// does not, or for each its phase before and after and its take.
    fn admission_of(&self, s: &Submission) -> (r: Result<Vec<(Phase, Phase, u64)>, SubmitError>)
        requires
            forall|i: int|
                0 <= i < s@.targets.len() && (#[trigger] self@.log(s@.targets[i])).phase
                    == Phase::Idle ==> self@.log(s@.targets[i]).epoch < u64::MAX,
        ensures
            r is Err <==> outbox_model::refusal(self@, s@, 0) is Some,
            r is Err ==> r->Err_0@ == outbox_model::refusal(self@, s@, 0)->0,
            r is Ok ==> {
                &&& r->Ok_0@.len() == s@.targets.len()
                &&& forall|i: int|
                    0 <= i < s@.targets.len() ==> (#[trigger] r->Ok_0@[i]) == admitted_as(
                        self@,
                        s@,
                        i,
                    )
            },
    {
        let mut admitted: Vec<(Phase, Phase, u64)> = Vec::new();
        let verb: Verb = Verb::of(&s.intent);
        let mut i: usize = 0;
        while i < s.targets.len()
            invariant
                i <= s.targets.len(),
                verb == outbox::verb_of(s@.intent),
                forall|j: int|
                    0 <= j < s@.targets.len() && (#[trigger] self@.log(s@.targets[j])).phase
                        == Phase::Idle ==> self@.log(s@.targets[j]).epoch < u64::MAX,
                outbox_model::refusal(self@, s@, 0) == outbox_model::refusal(self@, s@, i as int),
                admitted.len() == i,
                forall|j: int|
                    0 <= j < i ==> (#[trigger] admitted@[j]) == admitted_as(self@, s@, j),
            decreases s.targets.len() - i,
        {
            proof {
                assert(s@.targets[i as int] == s.targets@[i as int]@);
                assert(self@.log(s@.targets[i as int]).phase == Phase::Idle ==> self@.log(
                    s@.targets[i as int],
                ).epoch < u64::MAX);
            }
            let (before, epoch): (Phase, u64) = self.standing(s.targets[i].as_str());
            match admit_verb(before, verb) {
                Ok(after) => {
                    admitted.push((before, after, epoch_of(before, after, epoch)));
                },
                Err(rejection) => {
                    return Err(
                        SubmitError::Rejected {
                            device: s.targets[i].clone(),
                            rejection,
                            desired_recording_state: before,
                        },
                    );
                },
            }
            i = i + 1;
        }
        Ok(admitted)
    }

    /// What an admitted submission is answered.
    fn answer_of(
        &self,
        s: &Submission,
        admitted: &Vec<(Phase, Phase, u64)>,
    ) -> (r: Acceptance)
        requires
            s.ids.len() == s.targets.len(),
            admitted.len() == s.targets.len(),
            forall|j: int|
                0 <= j < s@.targets.len() ==> (#[trigger] admitted@[j]) == admitted_as(
                    self@,
                    s@,
                    j,
                ),
        ensures
            r@ == outbox_model::first_answer(self@, s@),
    {
        let mut writes: Vec<Accepted> = Vec::new();
        let mut i: usize = 0;
        let ghost all = outbox_model::accepted_writes(self@, s@);
        while i < s.targets.len()
            invariant
                i <= s.targets.len(),
                s.ids.len() == s.targets.len(),
                s@.targets.len() == s.targets.len(),
                admitted.len() == s.targets.len(),
                forall|j: int|
                    0 <= j < s@.targets.len() ==> (#[trigger] admitted@[j]) == admitted_as(
                        self@,
                        s@,
                        j,
                    ),
                all == outbox_model::accepted_writes(self@, s@),
                writes.len() == i,
                forall|j: int| 0 <= j < i ==> (#[trigger] writes@[j])@ == all[j],
            decreases s.targets.len() - i,
        {
            proof {
                assert(s@.ids[i as int] == s.ids@[i as int]@);
                assert(s@.targets[i as int] == s.targets@[i as int]@);
                assert(admitted@[i as int] == admitted_as(self@, s@, i as int));
            }
            writes.push(
                Accepted {
                    id: s.ids[i].clone(),
                    device: s.targets[i].clone(),
                    epoch: admitted[i].2,
                },
            );
            i = i + 1;
        }
        let r: Acceptance = Acceptance { batch: clone_option(&s.batch), writes };
        proof {
            assert(r@.writes =~= all);
        }
        r
    }

    /// Records one admitted write.
    fn record_one(
        &mut self,
        s: &Submission,
        i: usize,
        admitted: (Phase, Phase, u64),
        answer: &Acceptance,
        Ghost(m): Ghost<OutboxModel>,
    )
        requires
            answer@ == outbox_model::first_answer(m, s@),
            i < s.targets.len(),
            s.ids.len() == s.targets.len(),
            old(self)@ == outbox_model::recorded(m, s@, i as nat),
            admitted == admitted_as(m, s@, i as int),
        ensures
            final(self)@ == outbox_model::recorded(m, s@, (i + 1) as nat),
    {
        let (before, after, epoch): (Phase, Phase, u64) = admitted;
        let id: &String = &s.ids[i];
        let device: &String = &s.targets[i];
        proof {
            assert(s@.ids[i as int] == id@);
            assert(s@.targets[i as int] == device@);
        }
        let record: WriteRecord = WriteRecord {
            id: id.clone(),
            device: device.clone(),
            intent: s.intent.clone(),
            batch: clone_option(&s.batch),
            epoch,
            status: WriteStatus::Pending,
            attempts: 0,
            enqueued_at: s.at.clone(),
            updated_at: s.at.clone(),
            not_before: s.at.clone(),
        };
        proof {
            assert(record@ == outbox_model::new_record(m, s@, i as int));
        }
        put_record(&mut self.records, id.clone(), record);
        let mut log: DeviceLog = match self.logs.take(device.as_str()) {
            Some(log) => log,
            None => DeviceLog::empty(),
        };
        let ghost held = log;
        log.queue.push_back(id.clone());
        log.history.push(id.clone());
        log.desired_recording_state = after;
        if opens_recording(before, after) {
            log.epoch = epoch;
        }
        if let Some(key) = &s.idempotency_key {
            log.keys.insert(key.clone(), answer.clone());
        }
        proof {
            views_push(held.queue@, *id);
            views_push(held.history@, *id);
            let prev = outbox_model::recorded(m, s@, i as nat);
            assert(held@ == prev.log(device@));
            assert(log@ =~= outbox_model::log_with(m, prev.log(device@), s@, i as int));
        }
        let ghost done = log@;
        self.logs.insert(device.clone(), log);
        proof {
            let prev = outbox_model::recorded(m, s@, i as nat);
            assert(prev.logs.remove(device@).insert(device@, done) =~= prev.logs.insert(device@, done));
            assert(self@ =~= outbox_model::recorded(m, s@, (i + 1) as nat));
        }
    }

    /// Records what a group was told.
    fn tell_group(&mut self, s: &Submission)
        ensures
            final(self)@ == outbox_model::group_told(old(self)@, s@),
    {
        let ghost m = self@;
        if let Some(group) = &s.group {
            let (field, value) = expects(&s.intent);
            let mut fields: OrderedMap<GroupExpectation> = match self.groups.take(group.as_str()) {
                Some(fields) => fields,
                None => OrderedMap::new(),
            };
            let told: GroupExpectation = GroupExpectation {
                field: field.clone(),
                value,
                since: s.at.clone(),
            };
            fields.insert(field, told);
            let ghost done = fields@;
            self.groups.insert(group.clone(), fields);
            proof {
                assert(m.groups.remove(group@).insert(group@, done) =~= m.groups.insert(group@, done));
                assert(self@ =~= outbox_model::group_told(m, s@));
            }
        }
    }

    /// Arms the batch of a submission.
    fn arm_batch(&mut self, s: &Submission)
        ensures
            final(self)@ == outbox_model::batch_armed(old(self)@, s@),
    {
        let ghost m = self@;
        if let Some(batch_id) = &s.batch {
            let barrier: BarrierPolicy = match &s.barrier {
                Some(policy) => *policy,
                None => BarrierPolicy {
                    timeout: Duration::from_secs(15),
                    on_timeout: Barrier::FailBatch,
                },
            };
            let batch: Batch = Batch {
                members: in_device_order(&s.targets),
                ready: Vec::new(),
                armed_at: s.at.clone(),
                barrier,
                gate: Gate::Waiting,
            };
            proof {
                assert(batch@.ready =~= Seq::<Seq<char>>::empty());
            }
            self.batches.insert(batch_id.clone(), batch);
            proof {
                assert(self@ =~= outbox_model::batch_armed(m, s@));
            }
        }
    }

    /// Admits a submission in full or not at all. A repeat of a keyed submission
    /// gets the original writes back; one that any target refuses leaves no trace.
    pub fn submit(&mut self, s: Submission) -> (r: Result<Acceptance, SubmitError>)
        requires
            old(self).wf(),
            forall|i: int|
                0 <= i < s@.targets.len() && (#[trigger] old(self)@.log(s@.targets[i])).phase
                    == Phase::Idle ==> old(self)@.log(s@.targets[i]).epoch < u64::MAX,
        ensures
            final(self).wf(),
            final(self)@ == outbox_model::submit_state(old(self)@, s@),
            answer(r) == outbox_model::submit_result(old(self)@, s@),
    {
        let ghost m = self@;
        proof {
            outbox_model::submit_keeps_inv(m, s@);
            assert(s@.targets.len() == s.targets.len());
            assert(s@.ids.len() == s.ids.len());
        }
        if s.targets.len() == 0 {
            return Err(SubmitError::Malformed("no targets".to_owned()));
        }
        if s.ids.len() != s.targets.len() {
            let mut complaint: String = decimal_string(s.ids.len() as u64);
            complaint.append(" ids for ");
            complaint.append(decimal_string(s.targets.len() as u64).as_str());
            complaint.append(" targets");
            return Err(SubmitError::Malformed(complaint));
        }
        if let Some(original) = self.replayed(&s) {
            return Ok(original);
        }
        let admitted: Vec<(Phase, Phase, u64)> = match self.admission_of(&s) {
            Ok(admitted) => admitted,
            Err(refused) => {
                return Err(refused);
            },
        };
        let answer: Acceptance = self.answer_of(&s, &admitted);
        let mut i: usize = 0;
        while i < s.targets.len()
            invariant
                i <= s.targets.len(),
                s.ids.len() == s.targets.len(),
                s@.targets.len() == s.targets.len(),
                admitted.len() == s.targets.len(),
                forall|j: int|
                    0 <= j < s@.targets.len() ==> (#[trigger] admitted@[j]) == admitted_as(m, s@, j),
                answer@ == outbox_model::first_answer(m, s@),
                self@ == outbox_model::recorded(m, s@, i as nat),
            decreases s.targets.len() - i,
        {
            self.record_one(&s, i, admitted[i], &answer, Ghost(m));
            i = i + 1;
        }
        self.tell_group(&s);
        self.arm_batch(&s);
        Ok(answer)
    }
}

/// The phase of the `i`th target before and after, and the take of its write.
spec fn admitted_as(m: OutboxModel, s: outbox::SubmissionModel, i: int) -> (Phase, Phase, u64) {
    let log = m.log(s.targets[i]);
    (
        log.phase,
        outbox::admission(log.phase, outbox::verb_of(s.intent))->Ok_0,
        outbox::take_of(log.phase, log.epoch),
    )
}

// ---- reading ---------------------------------------------------------------

/// The models of a list of records.
pub open spec fn record_models(s: Seq<WriteRecord>) -> Seq<RecordModel> {
    s.map_values(|r: WriteRecord| r@)
}

proof fn record_models_push(s: Seq<WriteRecord>, x: WriteRecord)
    ensures
        record_models(s.push(x)) == record_models(s).push(x@),
{
    assert(record_models(s.push(x)) =~= record_models(s).push(x@));
}

/// The records behind a list of ids, newest first.
pub open spec fn newest_first(m: OutboxModel, ids: Seq<Seq<char>>) -> Seq<RecordModel> {
    Seq::new(ids.len(), |i: int| m.records[ids[ids.len() - 1 - i]])
}

/// The records behind a list of ids that are in flight, in its order.
pub open spec fn flying(m: OutboxModel, ids: Seq<Seq<char>>) -> Seq<RecordModel>
    decreases ids.len(),
{
    if ids.len() == 0 {
        Seq::empty()
    } else if m.records[ids.last()].status == api::StatusModel::InFlight {
        flying(m, ids.drop_last()).push(m.records[ids.last()])
    } else {
        flying(m, ids.drop_last())
    }
}

impl MemoryOutbox {
    /// The write with this id. Absence is no error.
    pub fn write(&self, id: &str) -> (r: Result<Option<WriteRecord>, ReadError>)
        ensures
            r is Ok,
            r->Ok_0 is Some <==> self@.records.contains_key(id@),
            r->Ok_0 is Some ==> r->Ok_0->0@ == self@.records[id@],
    {
        Ok(find_record(&self.records, id))
    }

    /// Every write of a device, newest first.
    pub fn writes_for(&self, device: &str) -> (r: Result<Vec<WriteRecord>, ReadError>)
        requires
            self.wf(),
        ensures
            r is Ok,
            record_models(r->Ok_0@) == newest_first(self@, self@.log(device@).history),
    {
        let mut out: Vec<WriteRecord> = Vec::new();
        match self.logs.get(device) {
            Some(log) => {
                let ghost history = log@.history;
                let ghost all = newest_first(self@, history);
                let mut i: usize = log.history.len();
                proof {
                    assert(record_models(out@) =~= all.take(0));
                }
                while i > 0
                    invariant
                        self.wf(),
                        self@.logs.contains_key(device@),
                        self@.logs[device@].history == history,
                        history == text::views(log.history@),
                        all == newest_first(self@, history),
                        i <= log.history.len(),
                        record_models(out@) == all.take(log.history.len() - i),
                    decreases i,
                {
                    i = i - 1;
                    proof {
                        assert(history[i as int] == log.history@[i as int]@);
                        assert(self@.records.contains_key(self@.logs[device@].history[i as int]));
                    }
                    match find_record(&self.records, log.history[i].as_str()) {
                        Some(record) => {
                            let ghost before = out@;
                            out.push(record);
                            proof {
                                record_models_push(before, record);
                                let n = log.history.len() - i;
                                assert(all.take(n) =~= all.take(n - 1).push(all[n - 1]));
                            }
                        },
                        None => {
                            proof {
                                assert(false);
                            }
                        },
                    }
                }
                proof {
                    assert(all.take(all.len() as int) =~= all);
                }
            },
            None => {
                proof {
                    assert(record_models(out@) =~= newest_first(self@, self@.log(device@).history));
                }
            },
        }
        Ok(out)
    }

    /// The phase of a device and the number of its current take. A device that
    /// was never asked anything is idle at take zero.
    pub fn desired_recording_state(&self, device: &str) -> (r: Result<
        DeviceDesiredRecordingState,
        ReadError,
    >)
        ensures
            r is Ok,
            r->Ok_0.desired_recording_state == self@.log(device@).phase,
            r->Ok_0.epoch == self@.log(device@).epoch,
    {
        let (desired_recording_state, epoch): (Phase, u64) = self.standing(device);
        Ok(DeviceDesiredRecordingState { desired_recording_state, epoch })
    }

    /// What a group was last told that a field should be.
    pub fn expected(&self, group: &str, field: &str) -> (r: Result<
        Option<GroupExpectation>,
        ReadError,
    >)
        ensures
            r is Ok,
            r->Ok_0 is Some <==> self@.told(group@, field@) is Some,
            r->Ok_0 is Some ==> r->Ok_0->0@ == self@.told(group@, field@)->0,
    {
        match self.groups.get(group) {
            Some(fields) => match fields.get(field) {
                Some(told) => Ok(Some(told.clone())),
                None => Ok(None),
            },
            None => Ok(None),
        }
    }

    /// Everything a group was told, one entry for each field, in field order.
    pub fn expected_all(&self, group: &str) -> (r: Result<Vec<GroupExpectation>, ReadError>)
        ensures
            r is Ok,
            exists|fields: Seq<Seq<char>>|
                all_told(self@, group@, fields) && #[trigger] told_in_order(
                    self@,
                    group@,
                    fields,
                    r->Ok_0@,
                ),
    {
        let mut out: Vec<GroupExpectation> = Vec::new();
        let ghost mut order: Seq<Seq<char>> = Seq::empty();
        match self.groups.get(group) {
            Some(fields) => {
                let n: usize = fields.len();
                let mut i: usize = 0;
                while i < n
                    invariant
                        self@.groups.contains_key(group@),
                        self@.groups[group@] == fields@,
                        n == fields.keys().len(),
                        i <= n,
                        forall|k: Seq<char>| #[trigger]
                            fields@.contains_key(k) <==> fields.keys().contains(k),
                        told_in_order(self@, group@, fields.keys().take(i as int), out@),
                    decreases n - i,
                {
                    let entry = fields.at(i);
                    let ghost before = out@;
                    out.push(entry.1.clone());
                    proof {
                        let part = fields.keys().take(i as int);
                        let next = fields.keys().take(i + 1);
                        assert forall|j: int| 0 <= j < next.len() implies self@.told(
                            group@,
                            next[j],
                        ) == Some(#[trigger] out@[j]@) by {
                            if j < i {
                                assert(out@[j] == before[j]);
                                assert(part[j] == next[j]);
                            }
                        }
                    }
                    i = i + 1;
                }
                proof {
                    assert(fields.keys().take(n as int) =~= fields.keys());
                    order = fields.keys();
                    assert forall|f: Seq<char>| fields.keys().contains(f) <==> self@.told(
                        group@,
                        f,
                    ) is Some by {
                        assert(fields@.contains_key(f) <==> fields.keys().contains(f));
                    }
                }
            },
            None => {},
        }
        let r: Result<Vec<GroupExpectation>, ReadError> = Ok(out);
        proof {
            assert(all_told(self@, group@, order) && told_in_order(
                self@,
                group@,
                order,
                r->Ok_0@,
            ));
        }
        r
    }

    /// The writes of a device that were handed out and not settled, oldest first.
    pub fn in_flight(&self, device: &str) -> (r: Result<Vec<WriteRecord>, WriteError>)
        requires
            self.wf(),
        ensures
            r is Ok,
            record_models(r->Ok_0@) == flying(self@, self@.log(device@).history),
    {
        let mut out: Vec<WriteRecord> = Vec::new();
        match self.logs.get(device) {
            Some(log) => {
                let ghost history = log@.history;
                let mut i: usize = 0;
                proof {
                    assert(history.take(0) =~= Seq::<Seq<char>>::empty());
                    assert(record_models(out@) =~= flying(self@, history.take(0)));
                }
                while i < log.history.len()
                    invariant
                        self.wf(),
                        self@.logs.contains_key(device@),
                        self@.logs[device@].history == history,
                        history == text::views(log.history@),
                        i <= log.history.len(),
                        record_models(out@) == flying(self@, history.take(i as int)),
                    decreases log.history.len() - i,
                {
                    proof {
                        assert(history[i as int] == log.history@[i as int]@);
                        assert(self@.records.contains_key(self@.logs[device@].history[i as int]));
                        assert(history.take(i + 1).drop_last() =~= history.take(i as int));
                        assert(history.take(i + 1).last() == history[i as int]);
                    }
                    match find_record(&self.records, log.history[i].as_str()) {
                        Some(record) => {
                            if matches!(record.status, WriteStatus::InFlight) {
                                let ghost before = out@;
                                out.push(record);
                                proof {
                                    record_models_push(before, record);
                                }
                            }
                        },
                        None => {},
                    }
                    i = i + 1;
                }
                proof {
                    assert(history.take(history.len() as int) =~= history);
                }
            },
            None => {
                proof {
                    assert(record_models(out@) =~= flying(self@, self@.log(device@).history));
                }
            },
        }
        Ok(out)
    }
}

/// Whether `fields` are the fields that a group was told of, in order.
pub open spec fn all_told(m: OutboxModel, group: Seq<char>, fields: Seq<Seq<char>>) -> bool {
    &&& ordered::in_order(fields)
    &&& forall|f: Seq<char>| #[trigger] fields.contains(f) <==> m.told(group, f) is Some
}

/// Whether `told` is what a group was told of `fields`, in their order.
pub open spec fn told_in_order(
    m: OutboxModel,
    group: Seq<char>,
    fields: Seq<Seq<char>>,
    told: Seq<GroupExpectation>,
) -> bool {
    &&& told.len() == fields.len()
    &&& forall|i: int|
        0 <= i < fields.len() ==> m.told(group, fields[i]) == Some(#[trigger] told[i]@)
}

// ---- claiming --------------------------------------------------------------

/// What a claim handed out, as a model.
pub open spec fn handed(r: Option<Claim>) -> Option<outbox::ClaimModel> {
    match r {
        Some(c) => Some(c@),
        None => None,
    }
}

/// What evaluating a batched head decided.
enum BatchStep {
    Wait,
    Release(Vec<DeviceId>),
    Alone,
    Fail(Vec<DeviceId>),
}

impl View for BatchStep {
    type V = outbox_model::StepModel;

    closed spec fn view(&self) -> outbox_model::StepModel {
        match self {
            BatchStep::Wait => outbox_model::StepModel::Wait,
            BatchStep::Release(members) => outbox_model::StepModel::Release(
                text::views(members@),
            ),
            BatchStep::Alone => outbox_model::StepModel::Alone,
            BatchStep::Fail(members) => outbox_model::StepModel::Fail(text::views(members@)),
        }
    }
}

fn clone_list(s: &Vec<String>) -> (r: Vec<String>)
    ensures
        text::views(r@) == text::views(s@),
{
    let mut out: Vec<String> = Vec::new();
    let mut i: usize = 0;
    while i < s.len()
        invariant
            i <= s.len(),
            text::views(out@) == text::views(s@).take(i as int),
        decreases s.len() - i,
    {
        let ghost before = out@;
        out.push(s[i].clone());
        proof {
            views_push(before, s@[i as int]);
            let v = text::views(s@);
            assert(v.take(i + 1) =~= v.take(i as int).push(v[i as int]));
        }
        i = i + 1;
    }
    proof {
        let v = text::views(s@);
        assert(v.take(v.len() as int) =~= v);
    }
    out
}

/// A filtered list as long as the list is the list.
proof fn filter_full(s: Seq<Seq<char>>, keep: spec_fn(Seq<char>) -> bool)
    ensures
        s.filter(keep).len() <= s.len(),
        s.filter(keep).len() == s.len() ==> s.filter(keep) == s,
    decreases s.len(),
{
    reveal(Seq::filter);
    if s.len() > 0 {
        filter_full(s.drop_last(), keep);
        if s.filter(keep).len() == s.len() {
            assert(s.filter(keep) =~= s.drop_last().push(s.last()));
            assert(s.drop_last().push(s.last()) =~= s);
        }
    } else {
        assert(s.filter(keep) =~= s);
    }
}

/// Several claims raise no record's attempts by more than their number.
proof fn attempts_grow(m: OutboxModel, devices: Seq<Seq<char>>, at: Seq<char>, id: Seq<char>, room: nat)
    requires
        m.inv(),
        m.records.contains_key(id),
        forall|x: Seq<char>| #[trigger]
            m.records.contains_key(x) ==> m.records[x].attempts + devices.len() + room <= u32::MAX,
    ensures
        outbox_model::heads_claimed(m, devices, at).records.contains_key(id),
        outbox_model::heads_claimed(m, devices, at).records[id].attempts <= m.records[id].attempts
            + devices.len(),
    decreases devices.len(),
{
    if devices.len() > 0 {
        let rest = devices.drop_last();
        let prev = outbox_model::heads_claimed(m, rest, at);
        attempts_grow(m, rest, at, id, room + 1);
        outbox_model::heads_claimed_keeps_inv(m, rest, at);
    }
}

impl MemoryOutbox {
    /// Takes the log of a device out of the state.
    fn lift_log(&mut self, device: &str) -> (r: DeviceLog)
        ensures
            r@ == old(self)@.log(device@),
            final(self)@ == (OutboxModel {
                logs: old(self)@.logs.remove(device@),
                ..old(self)@
            }),
    {
        match self.logs.take(device) {
            Some(log) => log,
            None => DeviceLog::empty(),
        }
    }

    /// Hands out the head of a device's queue.
    fn claim_head(&mut self, device: &str, at: &Timestamp) -> (r: Result<
        Option<WriteRecord>,
        WriteError,
    >)
        requires
            old(self).wf(),
            old(self)@.head(device@) is Some ==> old(self)@.records[old(self)@.head(device@)->0].attempts
                < u32::MAX,
        ensures
            final(self).wf(),
            final(self)@ == outbox_model::head_claimed(old(self)@, device@, at@),
            r is Ok,
            r->Ok_0 is Some <==> old(self)@.head(device@) is Some,
            r->Ok_0 is Some ==> outbox_model::head_row(old(self)@, device@, at@)
                == seq![r->Ok_0->0@],
    {
        let ghost m = self@;
        proof {
            outbox_model::head_claimed_keeps_inv(m, device@, at@);
            if m.head(device@) is Some {
                outbox_model::head_is_recorded(m, device@);
            }
        }
        if !self.logs.contains(device) {
            return Ok(None);
        }
        let mut log: DeviceLog = self.lift_log(device);
        let ghost held = log;
        match log.queue.pop_front() {
            Some(id) => {
                proof {
                    assert(text::views(held.queue@)[0] == id@);
                    assert(text::views(log.queue@) =~= text::views(held.queue@).drop_first());
                    assert(log@ =~= (LogModel { queue: held@.queue.drop_first(), ..held@ }));
                }
                let ghost done = log@;
                self.logs.insert(device.to_owned(), log);
                match find_record(&self.records, id.as_str()) {
                    Some(found) => {
                        let mut record: WriteRecord = found;
                        record.status = WriteStatus::InFlight;
                        record.attempts = record.attempts + 1;
                        record.updated_at = at.clone();
                        let handed: WriteRecord = record.clone();
                        put_record(&mut self.records, id, record);
                        proof {
                            assert(m.logs.remove(device@).insert(device@, done) =~= m.logs.insert(
                                device@,
                                done,
                            ));
                            assert(self@ =~= outbox_model::head_claimed(m, device@, at@));
                        }
                        Ok(Some(handed))
                    },
                    None => {
                        proof {
                            assert(false);
                        }
                        Err(WriteError::backend("a queued id has no record behind it"))
                    },
                }
            },
            None => {
                proof {
                    assert(text::views(held.queue@).len() == 0);
                }
                let ghost done = log@;
                self.logs.insert(device.to_owned(), log);
                proof {
                    assert(m.logs.remove(device@).insert(device@, done) =~= m.logs);
                    assert(self@ =~= m);
                }
                Ok(None)
            },
        }
    }

    /// Fails the head of a device's queue without a dispatch.
    fn fail_head(&mut self, device: &str, at: &Timestamp)
        requires
            old(self).wf(),
        ensures
            final(self).wf(),
            final(self)@ == outbox_model::head_failed(old(self)@, device@, at@),
    {
        let ghost m = self@;
        proof {
            outbox_model::head_failed_keeps_inv(m, device@, at@);
            if m.head(device@) is Some {
                outbox_model::head_is_recorded(m, device@);
            }
        }
        if !self.logs.contains(device) {
            return ;
        }
        let mut log: DeviceLog = self.lift_log(device);
        let ghost held = log;
        match log.queue.pop_front() {
            Some(id) => {
                proof {
                    assert(text::views(held.queue@)[0] == id@);
                    assert(text::views(log.queue@) =~= text::views(held.queue@).drop_first());
                }
                match find_record(&self.records, id.as_str()) {
                    Some(found) => {
                        let mut record: WriteRecord = found;
                        record.status = WriteStatus::Failed {
                            reason: "the group barrier expired before every member was ready".to_owned(),
                        };
                        record.updated_at = at.clone();
                        log.desired_recording_state = rollback(
                            log.desired_recording_state,
                            Verb::of(&record.intent),
                        );
                        put_record(&mut self.records, id, record);
                    },
                    None => {
                        proof {
                            assert(false);
                        }
                    },
                }
                let ghost done = log@;
                self.logs.insert(device.to_owned(), log);
                proof {
                    assert(m.logs.remove(device@).insert(device@, done) =~= m.logs.insert(
                        device@,
                        done,
                    ));
                    assert(done =~= outbox_model::head_failed(m, device@, at@).logs[device@]);
                    assert(self@ =~= outbox_model::head_failed(m, device@, at@));
                }
            },
            None => {
                proof {
                    assert(text::views(held.queue@).len() == 0);
                }
                let ghost done = log@;
                self.logs.insert(device.to_owned(), log);
                proof {
                    assert(m.logs.remove(device@).insert(device@, done) =~= m.logs);
                    assert(self@ =~= m);
                }
            },
        }
    }

    /// Whether a member's batched write is at the head of its queue and due.
    fn is_ready_for(&self, member: &str, batch: &str, at: &Timestamp) -> (r: bool)
        requires
            self.wf(),
        ensures
            r == outbox_model::ready_for(self@, member@, batch@, at@),
    {
        match self.logs.get(member) {
            Some(log) => {
                if log.queue.len() == 0 {
                    return false;
                }
                proof {
                    assert(log@.queue[0] == log.queue@[0]@);
                    outbox_model::head_is_recorded(self@, member@);
                }
                match find_record(&self.records, log.queue[0].as_str()) {
                    Some(record) => names(&record.batch, batch) && !at.precedes(&record.not_before),
                    None => false,
                }
            },
            None => false,
        }
    }

    /// The members of a list that are ready.
    fn ready_among(&self, members: &Vec<DeviceId>, batch: &str, at: &Timestamp) -> (r: Vec<DeviceId>)
        requires
            self.wf(),
        ensures
            text::views(r@) == outbox_model::ready_members(
                self@,
                text::views(members@),
                batch@,
                at@,
            ),
    {
        let mut ready: Vec<DeviceId> = Vec::new();
        let mut i: usize = 0;
        let ghost v = text::views(members@);
        proof {
            reveal(Seq::filter);
            assert(v.take(0) =~= Seq::<Seq<char>>::empty());
            assert(text::views(ready@) =~= outbox_model::ready_members(self@, v.take(0), batch@, at@));
        }
        while i < members.len()
            invariant
                self.wf(),
                i <= members.len(),
                v == text::views(members@),
                text::views(ready@) == outbox_model::ready_members(
                    self@,
                    v.take(i as int),
                    batch@,
                    at@,
                ),
            decreases members.len() - i,
        {
            proof {
                reveal(Seq::filter);
                assert(v.take(i + 1).drop_last() =~= v.take(i as int));
                assert(v.take(i + 1).last() == members@[i as int]@);
            }
            if self.is_ready_for(members[i].as_str(), batch, at) {
                let ghost before = ready@;
                ready.push(members[i].clone());
                proof {
                    views_push(before, members@[i as int]);
                }
            }
            i = i + 1;
        }
        proof {
            assert(v.take(v.len() as int) =~= v);
        }
        ready
    }

    /// Evaluates the rendezvous of a batch and decides what this claim does.
    fn step_batch(&mut self, batch_id: &str, device: &str, at: &Timestamp) -> (r: BatchStep)
        requires
            old(self).wf(),
            outbox_model::still_filling(old(self)@, batch_id@, at@) ==> outbox_model::tolerable(
                old(self)@.batches[batch_id@].barrier.timeout,
            ),
        ensures
            final(self)@ == outbox_model::batch_evaluated(old(self)@, batch_id@, device@, at@),
            r@ == outbox_model::batch_step(old(self)@, batch_id@, device@, at@),
    {
        let ghost m = self@;
        let ready: Vec<DeviceId> = match self.batches.get(batch_id) {
            None => {
                return BatchStep::Wait;
            },
            Some(batch) => {
                match batch.gate {
                    Gate::Open => {
                        return BatchStep::Alone;
                    },
                    Gate::Abandoned => {
                        let mut lone: Vec<DeviceId> = Vec::new();
                        lone.push(device.to_owned());
                        proof {
                            assert(text::views(lone@) =~= seq![device@]);
                        }
                        return BatchStep::Fail(lone);
                    },
                    Gate::Waiting => {},
                }
                self.ready_among(&batch.members, batch_id, at)
            },
        };
        proof {
            let members = m.batches[batch_id@].members;
            filter_full(members, outbox_model::readiness(m, batch_id@, at@));
            assert(m.batches.contains_key(batch_id@));
        }
        match self.batches.take(batch_id) {
            Some(mut batch) => {
                let complete: bool = ready.len() == batch.members.len();
                proof {
                    assert(text::views(ready@).len() == ready.len());
                    assert(text::views(batch.members@).len() == batch.members.len());
                }
                let expired: bool = !complete && elapsed_past(
                    &batch.armed_at,
                    batch.barrier.timeout,
                    at,
                );
                let step: BatchStep = if complete {
                    BatchStep::Release(clone_list(&ready))
                } else if !expired {
                    BatchStep::Wait
                } else {
                    match batch.barrier.on_timeout {
                        Barrier::DispatchReady => BatchStep::Release(clone_list(&ready)),
                        Barrier::FailBatch => BatchStep::Fail(clone_list(&ready)),
                    }
                };
                batch.ready = ready;
                batch.gate = match &step {
                    BatchStep::Wait => Gate::Waiting,
                    BatchStep::Release(_) => Gate::Open,
                    BatchStep::Alone => Gate::Open,
                    BatchStep::Fail(_) => Gate::Abandoned,
                };
                let ghost done = batch@;
                self.batches.insert(batch_id.to_owned(), batch);
                proof {
                    assert(m.batches.remove(batch_id@).insert(batch_id@, done) =~= m.batches.insert(
                        batch_id@,
                        done,
                    ));
                    assert(self@ =~= outbox_model::batch_evaluated(m, batch_id@, device@, at@));
                }
                step
            },
            None => BatchStep::Wait,
        }
    }

    /// Hands out the heads of several devices, one after the other.
    fn claim_heads(&mut self, members: &Vec<DeviceId>, at: &Timestamp) -> (r: Vec<WriteRecord>)
        requires
            old(self).wf(),
            forall|x: Seq<char>| #[trigger]
                old(self)@.records.contains_key(x) ==> old(self)@.records[x].attempts
                    + members.len() <= u32::MAX,
        ensures
            final(self).wf(),
            final(self)@ == outbox_model::heads_claimed(old(self)@, text::views(members@), at@),
            record_models(r@) == outbox_model::head_rows(old(self)@, text::views(members@), at@),
    {
        let ghost m = self@;
        let ghost v = text::views(members@);
        let mut records: Vec<WriteRecord> = Vec::new();
        let mut i: usize = 0;
        proof {
            assert(v.take(0) =~= Seq::<Seq<char>>::empty());
            assert(record_models(records@) =~= Seq::<RecordModel>::empty());
        }
        while i < members.len()
            invariant
                self.wf(),
                m.inv(),
                i <= members.len(),
                v == text::views(members@),
                forall|x: Seq<char>| #[trigger]
                    m.records.contains_key(x) ==> m.records[x].attempts + members.len() <= u32::MAX,
                self@ == outbox_model::heads_claimed(m, v.take(i as int), at@),
                record_models(records@) == outbox_model::head_rows(m, v.take(i as int), at@),
            decreases members.len() - i,
        {
            let ghost cur = self@;
            let ghost device = members@[i as int]@;
            proof {
                assert(v.take(i + 1).drop_last() =~= v.take(i as int));
                assert(v.take(i + 1).last() == device);
                if cur.head(device) is Some {
                    let id = cur.head(device)->0;
                    outbox_model::head_is_recorded(cur, device);
                    recorded_before(m, v.take(i as int), at@, id);
                    attempts_grow(m, v.take(i as int), at@, id, (members.len() - i) as nat);
                }
            }
            match self.claim_head(members[i].as_str(), at) {
                Ok(Some(record)) => {
                    let ghost before = records@;
                    records.push(record);
                    proof {
                        record_models_push(before, record);
                        let rows = outbox_model::head_rows(m, v.take(i as int), at@);
                        assert(rows + seq![record@] =~= rows.push(record@));
                    }
                },
                Ok(None) => {
                    proof {
                        let rows = outbox_model::head_rows(m, v.take(i as int), at@);
                        assert(rows + Seq::<RecordModel>::empty() =~= rows);
                    }
                },
                Err(_) => {},
            }
            i = i + 1;
        }
        proof {
            assert(v.take(v.len() as int) =~= v);
        }
        records
    }

    /// Fails the heads of several devices, one after the other.
    fn fail_heads(&mut self, members: &Vec<DeviceId>, at: &Timestamp)
        requires
            old(self).wf(),
        ensures
            final(self).wf(),
            final(self)@ == outbox_model::heads_failed(old(self)@, text::views(members@), at@),
    {
        let ghost m = self@;
        let ghost v = text::views(members@);
        let mut i: usize = 0;
        proof {
            assert(v.take(0) =~= Seq::<Seq<char>>::empty());
        }
        while i < members.len()
            invariant
                self.wf(),
                i <= members.len(),
                v == text::views(members@),
                self@ == outbox_model::heads_failed(m, v.take(i as int), at@),
            decreases members.len() - i,
        {
            proof {
                assert(v.take(i + 1).drop_last() =~= v.take(i as int));
                assert(v.take(i + 1).last() == members@[i as int]@);
            }
            self.fail_head(members[i].as_str(), at);
            i = i + 1;
        }
        proof {
            assert(v.take(v.len() as int) =~= v);
        }
    }

    /// Hands out the oldest write of a device, if it is due. A batched write goes
    /// out with its siblings once every one of them is at the head of its queue,
    /// and until then holds its own queue.
    pub fn claim_next(&mut self, device: &str, at: &Timestamp) -> (r: Result<
        Option<Claim>,
        WriteError,
    >)
        requires
            old(self).wf(),
            forall|x: Seq<char>| #[trigger]
                old(self)@.records.contains_key(x) ==> old(self)@.records[x].attempts
                    + outbox_model::claim_width(old(self)@, device@) <= u32::MAX,
            outbox_model::wait_tolerable(old(self)@, device@, at@),
        ensures
            final(self).wf(),
            r is Ok,
            final(self)@ == outbox_model::claim_state(old(self)@, device@, at@),
            handed(r->Ok_0) == outbox_model::claim_result(old(self)@, device@, at@),
    {
        let ghost m = self@;
        let head: String = match self.logs.get(device) {
            Some(log) => {
                if log.queue.len() == 0 {
                    return Ok(None);
                }
                proof {
                    assert(log@.queue[0] == log.queue@[0]@);
                }
                log.queue[0].clone()
            },
            None => {
                return Ok(None);
            },
        };
        proof {
            outbox_model::head_is_recorded(m, device@);
            outbox_model::claim_keeps_inv(m, device@, at@);
            assert(m.head(device@) == Some(head@));
        }
        let record: WriteRecord = match find_record(&self.records, head.as_str()) {
            Some(record) => record,
            None => {
                proof {
                    assert(false);
                }
                return Err(WriteError::backend("a queued id has no record behind it"));
            },
        };
        if at.precedes(&record.not_before) {
            return Ok(None);
        }
        let batch_id: String = match &record.batch {
            Some(batch_id) => batch_id.clone(),
            None => {
                return match self.claim_head(device, at) {
                    Ok(Some(claimed)) => {
                        proof {
                            assert(outbox_model::head_row(m, device@, at@)[0] == claimed@);
                        }
                        Ok(Some(Claim::One(claimed)))
                    },
                    Ok(None) => Ok(None),
                    Err(e) => Err(e),
                };
            },
        };
        let step: BatchStep = self.step_batch(batch_id.as_str(), device, at);
        let ghost e = self@;
        proof {
            assert(e == outbox_model::batch_evaluated(m, batch_id@, device@, at@));
            outbox_model::evaluating_keeps_inv(m, batch_id@, device@, at@);
            assert(e.records == m.records && e.logs == m.logs);
        }
        match step {
            BatchStep::Wait => Ok(None),
            BatchStep::Alone => match self.claim_head(device, at) {
                Ok(Some(claimed)) => {
                    proof {
                        assert(outbox_model::head_row(e, device@, at@)[0] == claimed@);
                    }
                    Ok(Some(Claim::One(claimed)))
                },
                Ok(None) => Ok(None),
                Err(e) => Err(e),
            },
            BatchStep::Release(members) => {
                proof {
                    filter_full(
                        m.batches[batch_id@].members,
                        outbox_model::readiness(m, batch_id@, at@),
                    );
                    assert(text::views(members@).len() == members.len());
                }
                let records: Vec<WriteRecord> = self.claim_heads(&members, at);
                Ok(Some(Claim::Batch { id: batch_id, records }))
            },
            BatchStep::Fail(members) => {
                self.fail_heads(&members, at);
                Ok(None)
            },
        }
    }
}

/// Claims make no records.
proof fn recorded_before(m: OutboxModel, devices: Seq<Seq<char>>, at: Seq<char>, id: Seq<char>)
    requires
        m.inv(),
        outbox_model::heads_claimed(m, devices, at).records.contains_key(id),
    ensures
        m.records.contains_key(id),
    decreases devices.len(),
{
    if devices.len() > 0 {
        let rest = devices.drop_last();
        let prev = outbox_model::heads_claimed(m, rest, at);
        outbox_model::heads_claimed_keeps_inv(m, rest, at);
        if prev.head(devices.last()) is Some {
            outbox_model::head_is_recorded(prev, devices.last());
        }
        recorded_before(m, rest, at, id);
    }
}

// ---- settling and observing ------------------------------------------------

impl MemoryOutbox {
    /// Takes a record's device off the ready of its batch, and off the members too
    /// where it is gone for good.
    fn leave_batch(&mut self, record: &WriteRecord, gone: bool)
        ensures
            final(self)@ == outbox_model::batch_left(old(self)@, record@, gone),
    {
        let ghost m = self@;
        if let Some(batch_id) = &record.batch {
            match self.batches.take(batch_id.as_str()) {
                Some(mut batch) => {
                    batch.ready = without(&batch.ready, record.device.as_str());
                    if gone {
                        batch.members = without(&batch.members, record.device.as_str());
                    }
                    let ghost done = batch@;
                    self.batches.insert(batch_id.clone(), batch);
                    proof {
                        assert(m.batches.remove(batch_id@).insert(batch_id@, done)
                            =~= m.batches.insert(batch_id@, done));
                        assert(self@ =~= outbox_model::batch_left(m, record@, gone));
                    }
                },
                None => {
                    proof {
                        assert(m.batches.remove(batch_id@) =~= m.batches);
                        assert(self@ =~= m);
                    }
                },
            }
        }
    }

    /// Records what became of a write in flight. A failure is retried while there
    /// are attempts left; then it is final, and the phase is moved back.
    pub fn settle(&mut self, id: &str, outcome: Outcome, at: &Timestamp) -> (r: Result<
        (),
        WriteError,
    >)
        requires
            old(self).wf(),
        ensures
            final(self).wf(),
            final(self)@ == outbox_model::settle_state(old(self)@, id@, outcome@, at@),
            r is Ok <==> outbox_model::settle_complaint(old(self)@, id@) is None,
            r is Err ==> r->Err_0@ == outbox_model::settle_complaint(old(self)@, id@)->0,
    {
        let ghost m = self@;
        proof {
            outbox_model::settle_keeps_inv(m, id@, outcome@, at@);
        }
        let mut record: WriteRecord = match find_record(&self.records, id) {
            Some(record) => record,
            None => {
                return Err(WriteError::backend("settling an unknown write"));
            },
        };
        if !matches!(record.status, WriteStatus::InFlight) {
            return Err(WriteError::backend("settling a write that was not in flight"));
        }
        let ghost found = record@;
        match outcome {
            Outcome::Succeeded(value) => {
                record.status = WriteStatus::Succeeded { value };
                record.updated_at = at.clone();
                put_record(&mut self.records, id.to_owned(), record);
                proof {
                    assert(self@ =~= outbox_model::settle_state(m, id@, outcome@, at@));
                }
            },
            Outcome::Failed(reason) => {
                let device: String = record.device.clone();
                if record.attempts < self.max_attempts {
                    self.leave_batch(&record, false);
                    let ghost left = self@;
                    proof {
                        assert(outbox_model::spaced(m.backoff, record.attempts as nat));
                    }
                    record.status = WriteStatus::Pending;
                    record.not_before = delay_from(at, self.backoff.times(record.attempts));
                    record.updated_at = at.clone();
                    put_record(&mut self.records, id.to_owned(), record);
                    let mut log: DeviceLog = self.lift_log(device.as_str());
                    let ghost held = log;
                    let place: usize = log.place_of(id);
                    log.queue.insert(place, id.to_owned());
                    proof {
                        outbox_model::place_within(held@.queue, held@.history, id@);
                        assert(text::views(log.queue@) =~= outbox_model::requeued(
                            held@.queue,
                            held@.history,
                            id@,
                        ));
                        assert(log@ =~= (LogModel {
                            queue: outbox_model::requeued(held@.queue, held@.history, id@),
                            ..held@
                        }));
                    }
                    let ghost done = log@;
                    self.logs.insert(device.clone(), log);
                    proof {
                        assert(left.logs.remove(device@).insert(device@, done)
                            =~= left.logs.insert(device@, done));
                        assert(self@ =~= outbox_model::settle_state(m, id@, outcome@, at@));
                    }
                } else {
                    self.leave_batch(&record, true);
                    let ghost left = self@;
                    let verb: Verb = Verb::of(&record.intent);
                    record.status = WriteStatus::Failed { reason };
                    record.updated_at = at.clone();
                    put_record(&mut self.records, id.to_owned(), record);
                    let mut log: DeviceLog = self.lift_log(device.as_str());
                    let ghost held = log;
                    log.desired_recording_state = rollback(log.desired_recording_state, verb);
                    proof {
                        assert(log@ =~= (LogModel {
                            phase: outbox::rolled_back(held@.phase, verb),
                            ..held@
                        }));
                    }
                    let ghost done = log@;
                    self.logs.insert(device.clone(), log);
                    proof {
                        assert(left.logs.remove(device@).insert(device@, done)
                            =~= left.logs.insert(device@, done));
                        assert(self@ =~= outbox_model::settle_state(m, id@, outcome@, at@));
                    }
                }
            },
        }
        Ok(())
    }

    /// Withdraws the newest queued write of a device.
    fn cancel_last(&mut self, device: &str, reason: &str, at: &Timestamp)
        requires
            old(self).wf(),
            old(self)@.log(device@).queue.len() > 0,
        ensures
            final(self).wf(),
            final(self)@ == outbox_model::last_canceled(old(self)@, device@, reason@, at@),
    {
        let ghost m = self@;
        proof {
            outbox_model::last_canceled_keeps_inv(m, device@, reason@, at@);
        }
        let mut log: DeviceLog = self.lift_log(device);
        let ghost held = log;
        let ghost lifted = self@;
        match log.queue.pop_back() {
            Some(id) => {
                proof {
                    assert(text::views(held.queue@).last() == id@);
                    assert(text::views(log.queue@) =~= text::views(held.queue@).drop_last());
                }
                match find_record(&self.records, id.as_str()) {
                    Some(found) => {
                        let mut record: WriteRecord = found;
                        self.leave_batch(&record, true);
                        log.desired_recording_state = rollback(
                            log.desired_recording_state,
                            Verb::of(&record.intent),
                        );
                        record.status = WriteStatus::Canceled { reason: reason.to_owned() };
                        record.updated_at = at.clone();
                        put_record(&mut self.records, id, record);
                    },
                    None => {
                        proof {
                            assert(false);
                        }
                    },
                }
                let ghost done = log@;
                self.logs.insert(device.to_owned(), log);
                proof {
                    assert(m.logs.remove(device@).insert(device@, done) =~= m.logs.insert(
                        device@,
                        done,
                    ));
                    let next = outbox_model::last_canceled(m, device@, reason@, at@);
                    assert(done =~= next.logs[device@]);
                    assert(self@ =~= next);
                }
            },
            None => {
                proof {
                    assert(text::views(held.queue@).len() == 0);
                }
            },
        }
    }

    /// Withdraws every queued write of a device, and says how many there were.
    /// They stay readable as canceled; a write in flight is left to settle.
    pub fn cancel_queued(&mut self, device: &str, reason: &str, at: &Timestamp) -> (r: usize)
        requires
            old(self).wf(),
        ensures
            final(self).wf(),
            final(self)@ == outbox_model::cancel_state(old(self)@, device@, reason@, at@),
            r == old(self)@.log(device@).queue.len(),
    {
        let ghost m = self@;
        let count: usize = match self.logs.get(device) {
            Some(log) => log.queue.len(),
            None => 0,
        };
        proof {
            assert(count == m.log(device@).queue.len());
        }
        let mut left: usize = count;
        while left > 0
            invariant
                self.wf(),
                left == self@.log(device@).queue.len(),
                outbox_model::cancel_state(m, device@, reason@, at@) == outbox_model::cancel_state(
                    self@,
                    device@,
                    reason@,
                    at@,
                ),
            decreases left,
        {
            self.cancel_last(device, reason, at);
            left = left - 1;
        }
        count
    }

    /// Forgets what a group was told, and says of how many fields that was. What
    /// is queued stays queued: it is owed to devices, not to a group.
    pub fn forget_group(&mut self, group: &str) -> (r: usize)
        requires
            old(self).wf(),
        ensures
            final(self).wf(),
            final(self)@ == outbox_model::forget_group_state(old(self)@, group@),
            r == outbox_model::told_count(old(self)@, group@),
    {
        let ghost m = self@;
        let taken: Option<OrderedMap<GroupExpectation>> = self.groups.take(group);
        proof {
            assert(self@ =~= outbox_model::forget_group_state(m, group@));
            assert(self@.logs == m.logs && self@.records == m.records);
            assert(self@.backed());
        }
        match taken {
            Some(fields) => {
                let n: usize = fields.len();
                proof {
                    let keys = fields.keys();
                    ordered::in_order_distinct(keys);
                    keys.unique_seq_to_set();
                    assert(keys.to_set() =~= fields@.dom());
                }
                n
            },
            None => 0,
        }
    }

    /// Folds a state that a device reported into its phase.
    pub fn observe(&mut self, device: &str, observed: RecordingState) -> (r: Result<(), WriteError>)
        requires
            old(self).wf(),
            outbox::opens(
                old(self)@.log(device@).phase,
                outbox::reconciled(old(self)@.log(device@).phase, observed),
            ) ==> old(self)@.log(device@).epoch < u64::MAX,
        ensures
            final(self).wf(),
            final(self)@ == outbox_model::observe_state(old(self)@, device@, observed),
            r is Ok,
    {
        let ghost m = self@;
        proof {
            outbox_model::observe_keeps_inv(m, device@, observed);
        }
        let mut log: DeviceLog = self.lift_log(device);
        let ghost held = log;
        let before: Phase = log.desired_recording_state;
        let after: Phase = reconcile(before, observed);
        if opens_recording(before, after) {
            log.epoch = log.epoch + 1;
        }
        log.desired_recording_state = after;
        let ghost done = log@;
        self.logs.insert(device.to_owned(), log);
        proof {
            assert(m.logs.remove(device@).insert(device@, done) =~= m.logs.insert(device@, done));
            assert(done =~= outbox_model::observe_state(m, device@, observed).logs[device@]);
            assert(self@ =~= outbox_model::observe_state(m, device@, observed));
        }
        Ok(())
    }
}

} // verus!
