//! What holds of the outbox over any run of its operations: queues follow the
//! order of submission, and a key is answered as it was the first time.

use vstd::prelude::*;
use crate::api::{AcceptanceModel, RecordModel, RecordingState, StatusModel};
use crate::memory::outbox_model;
use crate::memory::outbox_model::{LogModel, OutboxModel, StepModel};
use crate::store::outbox::{OutcomeModel, SubmissionModel};

verus! {

/// Whether a write awaits dispatch.
pub open spec fn pending(records: Map<Seq<char>, RecordModel>) -> spec_fn(Seq<char>) -> bool {
    |id: Seq<char>| records.contains_key(id) && records[id].status == StatusModel::Pending
}

/// Whether the queue of a device holds its pending writes in the order they were
/// submitted, each write once.
pub open spec fn queue_in_order(m: OutboxModel, d: Seq<char>) -> bool {
    let log = m.log(d);
    &&& log.history.no_duplicates()
    &&& forall|i: int|
        0 <= i < log.history.len() ==> m.records.contains_key(#[trigger] log.history[i])
            && m.records[log.history[i]].device == d
    &&& log.queue == log.history.filter(pending(m.records))
}

/// Whether every queue holds the pending writes of its device in the order they
/// were submitted, and every write stands in the history of its device.
pub open spec fn orderly(m: OutboxModel) -> bool {
    &&& forall|d: Seq<char>| #[trigger] queue_in_order(m, d)
    &&& forall|id: Seq<char>| #[trigger]
        m.records.contains_key(id) ==> m.log(m.records[id].device).history.contains(id)
}

/// Whether the ids of a submission are new.
pub open spec fn fresh(m: OutboxModel, s: SubmissionModel) -> bool {
    &&& s.ids.no_duplicates()
    &&& forall|i: int| 0 <= i < s.ids.len() ==> !m.records.contains_key(#[trigger] s.ids[i])
}

// ---- filtered lists --------------------------------------------------------

/// Two tests that agree on a list leave the same of it.
proof fn filter_agree(
    h: Seq<Seq<char>>,
    p: spec_fn(Seq<char>) -> bool,
    q: spec_fn(Seq<char>) -> bool,
)
    requires
        forall|i: int| 0 <= i < h.len() ==> p(#[trigger] h[i]) == q(h[i]),
    ensures
        h.filter(p) == h.filter(q),
    decreases h.len(),
{
    reveal(Seq::filter);
    if h.len() > 0 {
        let rest = h.drop_last();
        assert forall|i: int| 0 <= i < rest.len() implies p(#[trigger] rest[i]) == q(rest[i]) by {
            assert(rest[i] == h[i]);
        }
        filter_agree(rest, p, q);
        assert(p(h[h.len() - 1]) == q(h[h.len() - 1]));
    }
}

/// What is left of a list stands in the list, and passed the test.
proof fn filtered_stands(h: Seq<Seq<char>>, p: spec_fn(Seq<char>) -> bool, x: Seq<char>)
    ensures
        h.filter(p).contains(x) <==> h.contains(x) && p(x),
    decreases h.len(),
{
    reveal(Seq::filter);
    if h.len() > 0 {
        let rest = h.drop_last();
        filtered_stands(rest, p, x);
        let f = h.filter(p);
        let g = rest.filter(p);
        if h.contains(x) && x != h.last() {
            let i = choose|i: int| 0 <= i < h.len() && h[i] == x;
            assert(rest[i] == x);
        }
        if rest.contains(x) {
            let i = choose|i: int| 0 <= i < rest.len() && rest[i] == x;
            assert(h[i] == x);
        }
        if h.last() == x {
            assert(h[h.len() - 1] == x);
        }
        if p(h.last()) {
            assert(f == g.push(h.last()));
            if g.contains(x) {
                let i = choose|i: int| 0 <= i < g.len() && g[i] == x;
                assert(f[i] == x);
            }
            if h.last() == x {
                assert(f[g.len() as int] == x);
            }
            if f.contains(x) && x != h.last() {
                let i = choose|i: int| 0 <= i < f.len() && f[i] == x;
                assert(g[i] == x);
            }
        }
    }
}

proof fn filter_three(
    a: Seq<Seq<char>>,
    id: Seq<char>,
    b: Seq<Seq<char>>,
    p: spec_fn(Seq<char>) -> bool,
)
    ensures
        (a + seq![id] + b).filter(p) == a.filter(p) + (if p(id) {
            seq![id]
        } else {
            seq![]
        }) + b.filter(p),
{
    let one = seq![id];
    Seq::filter_distributes_over_add(a + one, b, p);
    Seq::filter_distributes_over_add(a, one, p);
    reveal(Seq::filter);
    assert(one.drop_last() =~= Seq::<Seq<char>>::empty());
    assert(one.drop_last().filter(p) =~= Seq::<Seq<char>>::empty());
    assert(one.filter(p) =~= if p(id) {
        seq![id]
    } else {
        seq![]
    });
}

/// A list around one of its entries, under a test that the entry passes and under
/// one that only the entry fails.
proof fn around(
    h: Seq<Seq<char>>,
    id: Seq<char>,
    with: spec_fn(Seq<char>) -> bool,
    out: spec_fn(Seq<char>) -> bool,
) -> (r: (Seq<Seq<char>>, Seq<Seq<char>>))
    requires
        h.no_duplicates(),
        h.contains(id),
        with(id),
        !out(id),
        forall|i: int| 0 <= i < h.len() && h[i] != id ==> with(#[trigger] h[i]) == out(h[i]),
    ensures
        h == r.0 + seq![id] + r.1,
        !r.0.contains(id),
        !r.1.contains(id),
        h.filter(with) == r.0.filter(with) + seq![id] + r.1.filter(with),
        h.filter(out) == r.0.filter(with) + r.1.filter(with),
{
    let x = choose|x: int| 0 <= x < h.len() && h[x] == id;
    let a = h.take(x);
    let b = h.skip(x + 1);
    assert(h =~= a + seq![id] + b);
    assert(!a.contains(id)) by {
        if a.contains(id) {
            let i = choose|i: int| 0 <= i < a.len() && a[i] == id;
            assert(h[i] == h[x]);
        }
    }
    assert(!b.contains(id)) by {
        if b.contains(id) {
            let i = choose|i: int| 0 <= i < b.len() && b[i] == id;
            assert(h[x + 1 + i] == h[x]);
        }
    }
    filter_three(a, id, b, with);
    filter_three(a, id, b, out);
    assert forall|i: int| 0 <= i < a.len() implies with(#[trigger] a[i]) == out(a[i]) by {
        assert(a[i] == h[i]);
        assert(a.contains(a[i]));
    }
    assert forall|i: int| 0 <= i < b.len() implies with(#[trigger] b[i]) == out(b[i]) by {
        assert(b[i] == h[x + 1 + i]);
        assert(b.contains(b[i]));
    }
    filter_agree(a, with, out);
    filter_agree(b, with, out);
    assert(h.filter(out) =~= a.filter(with) + b.filter(with));
    (a, b)
}

/// Of a queue that splits around a write, what stands before it stands before its
/// place.
proof fn place_between(
    front: Seq<Seq<char>>,
    back: Seq<Seq<char>>,
    history: Seq<Seq<char>>,
    id: Seq<char>,
)
    requires
        forall|i: int|
            0 <= i < front.len() ==> outbox_model::earlier(history, #[trigger] front[i], id),
        back.len() > 0 ==> !outbox_model::earlier(history, back[0], id),
    ensures
        outbox_model::place(front + back, history, id) == front.len(),
    decreases front.len(),
{
    let queue = front + back;
    if front.len() == 0 {
        assert(queue =~= back);
    } else {
        assert(queue[0] == front[0]);
        assert(queue.drop_first() =~= front.drop_first() + back);
        assert forall|i: int| 0 <= i < front.drop_first().len() implies outbox_model::earlier(
            history,
            #[trigger] front.drop_first()[i],
            id,
        ) by {
            assert(front.drop_first()[i] == front[i + 1]);
        }
        place_between(front.drop_first(), back, history, id);
    }
}

// ---- what keeps the order --------------------------------------------------

/// A change of one write and of the log of its device keeps the order, where the
/// new queue follows the history.
proof fn order_with(m: OutboxModel, n: OutboxModel, id: Seq<char>, r: RecordModel, log: LogModel)
    requires
        orderly(m),
        m.records.contains_key(id),
        r.device == m.records[id].device,
        n.records == m.records.insert(id, r),
        forall|d: Seq<char>| #[trigger]
            n.log(d) == if d == r.device {
                log
            } else {
                m.log(d)
            },
        log.history == m.log(r.device).history,
        log.queue == log.history.filter(pending(n.records)),
    ensures
        orderly(n),
{
    assert forall|d: Seq<char>| #[trigger] queue_in_order(n, d) by {
        assert(queue_in_order(m, d));
        assert(n.log(d) == if d == r.device {
            log
        } else {
            m.log(d)
        });
        let h = m.log(d).history;
        assert(n.log(d).history == h);
        assert forall|i: int| 0 <= i < h.len() implies n.records.contains_key(#[trigger] h[i])
            && n.records[h[i]].device == d by {
            assert(m.records.contains_key(h[i]));
        }
        if d != r.device {
            assert forall|i: int| 0 <= i < h.len() implies pending(m.records)(#[trigger] h[i])
                == pending(n.records)(h[i]) by {
                assert(m.records[h[i]].device == d);
            }
            filter_agree(h, pending(m.records), pending(n.records));
        }
    }
    assert forall|x: Seq<char>| #[trigger] n.records.contains_key(x) implies n.log(
        n.records[x].device,
    ).history.contains(x) by {
        assert(m.records.contains_key(x));
        assert(n.log(n.records[x].device).history == m.log(m.records[x].device).history);
    }
}

/// The order speaks of the logs' queues and histories and of the records alone.
proof fn order_same(m: OutboxModel, n: OutboxModel)
    requires
        orderly(m),
        n.records == m.records,
        forall|d: Seq<char>| #[trigger]
            n.log(d).queue == m.log(d).queue && n.log(d).history == m.log(d).history,
    ensures
        orderly(n),
{
    assert forall|d: Seq<char>| #[trigger] queue_in_order(n, d) by {
        assert(queue_in_order(m, d));
        assert(n.log(d).queue == m.log(d).queue);
    }
    assert forall|x: Seq<char>| #[trigger] n.records.contains_key(x) implies n.log(
        n.records[x].device,
    ).history.contains(x) by {
        assert(m.records.contains_key(x));
        assert(n.log(n.records[x].device).queue == m.log(n.records[x].device).queue);
    }
}

/// A queued write is recorded, pending, and its device's own.
proof fn queued_is_pending(m: OutboxModel, d: Seq<char>, id: Seq<char>)
    requires
        orderly(m),
        m.log(d).queue.contains(id),
    ensures
        m.records.contains_key(id),
        m.records[id].status == StatusModel::Pending,
        m.records[id].device == d,
        m.log(d).history.contains(id),
{
    assert(queue_in_order(m, d));
    filtered_stands(m.log(d).history, pending(m.records), id);
    let i = choose|i: int| 0 <= i < m.log(d).history.len() && m.log(d).history[i] == id;
    assert(m.records[m.log(d).history[i]].device == d);
}

/// Taking the first write off a queue, with a record that is not pending, keeps
/// the order.
proof fn order_without_head(m: OutboxModel, n: OutboxModel, d: Seq<char>, r: RecordModel, log: LogModel)
    requires
        orderly(m),
        m.log(d).queue.len() > 0,
        r.device == m.records[m.log(d).queue[0]].device,
        r.status != StatusModel::Pending,
        n.records == m.records.insert(m.log(d).queue[0], r),
        n.logs == m.logs.insert(d, log),
        log.history == m.log(d).history,
        log.queue == m.log(d).queue.drop_first(),
    ensures
        orderly(n),
{
    let queue = m.log(d).queue;
    let id = queue[0];
    assert(queue.contains(id));
    queued_is_pending(m, d, id);
    assert(queue_in_order(m, d));
    let h = m.log(d).history;
    let (a, b) = around(h, id, pending(m.records), pending(n.records));
    let front = a.filter(pending(m.records));
    let back = b.filter(pending(m.records));
    if front.len() > 0 {
        assert(queue[0] == front[0]);
        assert(front.contains(front[0]));
        filtered_stands(a, pending(m.records), id);
        assert(false);
    }
    assert(front + back =~= queue.drop_first());
    order_with(m, n, id, r, log);
}

/// Taking the last write off a queue, with a record that is not pending, keeps
/// the order.
proof fn order_without_last(m: OutboxModel, n: OutboxModel, d: Seq<char>, r: RecordModel, log: LogModel)
    requires
        orderly(m),
        m.log(d).queue.len() > 0,
        r.device == m.records[m.log(d).queue.last()].device,
        r.status != StatusModel::Pending,
        n.records == m.records.insert(m.log(d).queue.last(), r),
        n.logs == m.logs.insert(d, log),
        log.history == m.log(d).history,
        log.queue == m.log(d).queue.drop_last(),
    ensures
        orderly(n),
{
    let queue = m.log(d).queue;
    let id = queue.last();
    assert(queue.contains(id));
    queued_is_pending(m, d, id);
    assert(queue_in_order(m, d));
    let h = m.log(d).history;
    let (a, b) = around(h, id, pending(m.records), pending(n.records));
    let front = a.filter(pending(m.records));
    let back = b.filter(pending(m.records));
    if back.len() > 0 {
        assert(queue.last() == back.last());
        assert(back.contains(back.last()));
        filtered_stands(b, pending(m.records), id);
        assert(false);
    }
    assert(front + back =~= queue.drop_last());
    order_with(m, n, id, r, log);
}

proof fn head_claimed_keeps_order(m: OutboxModel, device: Seq<char>, at: Seq<char>)
    requires
        orderly(m),
    ensures
        orderly(outbox_model::head_claimed(m, device, at)),
{
    let n = outbox_model::head_claimed(m, device, at);
    if let Some(id) = m.head(device) {
        order_without_head(m, n, device, n.records[id], n.logs[device]);
    }
}

proof fn heads_claimed_keep_order(m: OutboxModel, devices: Seq<Seq<char>>, at: Seq<char>)
    requires
        orderly(m),
    ensures
        orderly(outbox_model::heads_claimed(m, devices, at)),
    decreases devices.len(),
{
    if devices.len() > 0 {
        heads_claimed_keep_order(m, devices.drop_last(), at);
        head_claimed_keeps_order(
            outbox_model::heads_claimed(m, devices.drop_last(), at),
            devices.last(),
            at,
        );
    }
}

proof fn head_failed_keeps_order(m: OutboxModel, device: Seq<char>, at: Seq<char>)
    requires
        orderly(m),
    ensures
        orderly(outbox_model::head_failed(m, device, at)),
{
    let n = outbox_model::head_failed(m, device, at);
    if let Some(id) = m.head(device) {
        order_without_head(m, n, device, n.records[id], n.logs[device]);
    }
}

proof fn heads_failed_keep_order(m: OutboxModel, devices: Seq<Seq<char>>, at: Seq<char>)
    requires
        orderly(m),
    ensures
        orderly(outbox_model::heads_failed(m, devices, at)),
    decreases devices.len(),
{
    if devices.len() > 0 {
        heads_failed_keep_order(m, devices.drop_last(), at);
        head_failed_keeps_order(
            outbox_model::heads_failed(m, devices.drop_last(), at),
            devices.last(),
            at,
        );
    }
}

/// Claiming keeps every queue in the order of submission.
pub proof fn claiming_keeps_the_order(m: OutboxModel, device: Seq<char>, at: Seq<char>)
    requires
        orderly(m),
    ensures
        orderly(outbox_model::claim_state(m, device, at)),
{
    if outbox_model::due(m, device, at) {
        match m.records[m.head(device)->0].batch {
            None => {
                head_claimed_keeps_order(m, device, at);
            },
            Some(b) => {
                let e = outbox_model::batch_evaluated(m, b, device, at);
                order_same(m, e);
                match outbox_model::batch_step(m, b, device, at) {
                    StepModel::Wait => {},
                    StepModel::Alone => {
                        head_claimed_keeps_order(e, device, at);
                    },
                    StepModel::Release(members) => {
                        heads_claimed_keep_order(e, members, at);
                    },
                    StepModel::Fail(members) => {
                        heads_failed_keep_order(e, members, at);
                    },
                }
            },
        }
    }
}

/// What passes a test ahead of a write stands earlier than the write.
proof fn front_is_earlier(
    a: Seq<Seq<char>>,
    id: Seq<char>,
    b: Seq<Seq<char>>,
    p: spec_fn(Seq<char>) -> bool,
    i: int,
)
    requires
        0 <= i < a.filter(p).len(),
    ensures
        outbox_model::earlier(a + seq![id] + b, a.filter(p)[i], id),
{
    let h = a + seq![id] + b;
    let x = a.filter(p)[i];
    assert(a.filter(p).contains(x));
    filtered_stands(a, p, x);
    let k = choose|k: int| 0 <= k < a.len() && a[k] == x;
    assert(h[k] == x && h[a.len() as int] == id);
}

/// What stands behind a write does not stand earlier than it, where nothing stands
/// twice.
proof fn back_is_not_earlier(
    a: Seq<Seq<char>>,
    id: Seq<char>,
    b: Seq<Seq<char>>,
    x: Seq<char>,
)
    requires
        (a + seq![id] + b).no_duplicates(),
        b.contains(x),
    ensures
        !outbox_model::earlier(a + seq![id] + b, x, id),
{
    let h = a + seq![id] + b;
    let at = a.len() as int;
    let y = choose|y: int| 0 <= y < b.len() && b[y] == x;
    assert(h[at + 1 + y] == x);
    assert(h[at] == id);
    if outbox_model::earlier(h, x, id) {
        let (i, j) = choose|i: int, j: int|
            0 <= i < j < h.len() && #[trigger] h[i] == x && #[trigger] h[j] == id;
        assert(i == at + 1 + y);
        assert(j == at);
        assert(false);
    }
}

/// A write put back at its place stands where the history has it.
proof fn requeued_follows(
    h: Seq<Seq<char>>,
    id: Seq<char>,
    with: spec_fn(Seq<char>) -> bool,
    out: spec_fn(Seq<char>) -> bool,
)
    requires
        h.no_duplicates(),
        h.contains(id),
        with(id),
        !out(id),
        forall|i: int| 0 <= i < h.len() && h[i] != id ==> with(#[trigger] h[i]) == out(h[i]),
    ensures
        outbox_model::requeued(h.filter(out), h, id) == h.filter(with),
{
    let (a, b) = around(h, id, with, out);
    let front = a.filter(with);
    let back = b.filter(with);
    assert forall|i: int| 0 <= i < front.len() implies outbox_model::earlier(
        h,
        #[trigger] front[i],
        id,
    ) by {
        front_is_earlier(a, id, b, with, i);
    }
    if back.len() > 0 {
        assert(back.contains(back[0]));
        filtered_stands(b, with, back[0]);
        back_is_not_earlier(a, id, b, back[0]);
    }
    place_between(front, back, h, id);
    assert((front + back).insert(front.len() as int, id) =~= front + seq![id] + back);
}

proof fn requeued_in_order(m: OutboxModel, id: Seq<char>, r: RecordModel)
    requires
        orderly(m),
        m.records.contains_key(id),
        m.records[id].status != StatusModel::Pending,
        r.device == m.records[id].device,
        r.status == StatusModel::Pending,
    ensures
        ({
            let log = m.log(r.device);
            outbox_model::requeued(log.queue, log.history, id) == log.history.filter(
                pending(m.records.insert(id, r)),
            )
        }),
{
    assert(queue_in_order(m, r.device));
    requeued_follows(
        m.log(r.device).history,
        id,
        pending(m.records.insert(id, r)),
        pending(m.records),
    );
}

/// Settling keeps every queue in the order of submission: a retry goes back
/// before every queued write that was submitted later, and behind every one that
/// was submitted earlier.
pub proof fn settling_keeps_the_order(
    m: OutboxModel,
    id: Seq<char>,
    outcome: OutcomeModel,
    at: Seq<char>,
)
    requires
        orderly(m),
    ensures
        orderly(outbox_model::settle_state(m, id, outcome, at)),
{
    if outbox_model::settle_complaint(m, id) is None {
        let n = outbox_model::settle_state(m, id, outcome, at);
        let r = m.records[id];
        let h = m.log(r.device).history;
        assert(queue_in_order(m, r.device));
        let after = n.records[id];
        assert(n.records =~= m.records.insert(id, after));
        if after.status == StatusModel::Pending {
            requeued_in_order(m, id, after);
        } else {
            assert forall|i: int| 0 <= i < h.len() implies pending(m.records)(#[trigger] h[i])
                == pending(n.records)(h[i]) by {}
            filter_agree(h, pending(m.records), pending(n.records));
        }
        assert forall|d: Seq<char>| #[trigger]
            n.log(d) == if d == after.device {
                n.log(after.device)
            } else {
                m.log(d)
            } by {}
        order_with(m, n, id, after, n.log(after.device));
    }
}

/// Observing keeps every queue in the order of submission.
pub proof fn observing_keeps_the_order(
    m: OutboxModel,
    device: Seq<char>,
    observed: RecordingState,
)
    requires
        orderly(m),
    ensures
        orderly(outbox_model::observe_state(m, device, observed)),
{
    order_same(m, outbox_model::observe_state(m, device, observed));
}

/// Withdrawing what is queued for a device keeps every queue in the order of
/// submission.
pub proof fn canceling_keeps_the_order(
    m: OutboxModel,
    device: Seq<char>,
    reason: Seq<char>,
    at: Seq<char>,
)
    requires
        orderly(m),
    ensures
        orderly(outbox_model::cancel_state(m, device, reason, at)),
    decreases m.log(device).queue.len(),
{
    let queue = m.log(device).queue;
    if queue.len() > 0 {
        let n = outbox_model::last_canceled(m, device, reason, at);
        let id = queue.last();
        order_without_last(m, n, device, n.records[id], n.logs[device]);
        canceling_keeps_the_order(n, device, reason, at);
    }
}

proof fn recording_keeps_order(m: OutboxModel, s: SubmissionModel, n: nat)
    requires
        orderly(m),
        fresh(m, s),
        n <= s.targets.len(),
        s.ids.len() == s.targets.len(),
    ensures
        orderly(outbox_model::recorded(m, s, n)),
        forall|x: Seq<char>| #[trigger]
            outbox_model::recorded(m, s, n).records.contains_key(x) ==> m.records.contains_key(x)
                || s.ids.take(n as int).contains(x),
    decreases n,
{
    if n > 0 {
        let i = n - 1;
        recording_keeps_order(m, s, i as nat);
        let prev = outbox_model::recorded(m, s, i as nat);
        let next = outbox_model::recorded(m, s, n);
        let id = s.ids[i];
        let d = s.targets[i];
        let part = s.ids.take(i);
        let whole = s.ids.take(n as int);
        assert(!prev.records.contains_key(id)) by {
            if prev.records.contains_key(id) && part.contains(id) {
                let x = choose|x: int| 0 <= x < part.len() && part[x] == id;
                assert(s.ids[x] == s.ids[i]);
            }
        }
        assert forall|x: Seq<char>| #[trigger] next.records.contains_key(
            x,
        ) implies m.records.contains_key(x) || whole.contains(x) by {
            if x == id {
                assert(whole[i] == x);
            } else if part.contains(x) {
                let y = choose|y: int| 0 <= y < part.len() && part[y] == x;
                assert(whole[y] == x);
            }
        }
        assert forall|e: Seq<char>| #[trigger] queue_in_order(next, e) by {
            assert(queue_in_order(prev, e));
            let h = prev.log(e).history;
            assert forall|j: int| 0 <= j < h.len() implies pending(prev.records)(#[trigger] h[j])
                == pending(next.records)(h[j]) by {
                assert(prev.records.contains_key(h[j]));
            }
            filter_agree(h, pending(prev.records), pending(next.records));
            if e == d {
                let g = next.log(e).history;
                assert(g == h.push(id));
                assert(g.drop_last() =~= h);
                reveal(Seq::filter);
                assert(pending(next.records)(id));
                assert forall|j: int, k: int| 0 <= j < g.len() && 0 <= k < g.len() && j
                    != k implies g[j] != g[k] by {
                    if j < h.len() {
                        assert(prev.records.contains_key(h[j]));
                    }
                    if k < h.len() {
                        assert(prev.records.contains_key(h[k]));
                    }
                }
                assert forall|j: int| 0 <= j < g.len() implies next.records.contains_key(
                    #[trigger] g[j],
                ) && next.records[g[j]].device == e by {
                    if j < h.len() {
                        assert(prev.records.contains_key(h[j]));
                        assert(g[j] == h[j]);
                    }
                }
            } else {
                assert(next.log(e) == prev.log(e));
                assert forall|j: int| 0 <= j < h.len() implies next.records.contains_key(
                    #[trigger] h[j],
                ) && next.records[h[j]].device == e by {
                    assert(prev.records.contains_key(h[j]));
                }
            }
        }
        assert forall|x: Seq<char>| #[trigger] next.records.contains_key(x) implies next.log(
            next.records[x].device,
        ).history.contains(x) by {
            let g = next.log(d).history;
            if x == id {
                assert(g[g.len() - 1] == x);
            } else {
                assert(prev.records.contains_key(x));
                let e = prev.records[x].device;
                let h = prev.log(e).history;
                assert(h.contains(x));
                if e == d {
                    let j = choose|j: int| 0 <= j < h.len() && h[j] == x;
                    assert(g[j] == x);
                }
            }
        }
    }
}

/// Submitting under new ids keeps every queue in the order of submission.
pub proof fn submitting_keeps_the_order(m: OutboxModel, s: SubmissionModel)
    requires
        orderly(m),
        fresh(m, s),
    ensures
        orderly(outbox_model::submit_state(m, s)),
{
    if outbox_model::submit_result(m, s) is Ok && outbox_model::replay(m, s) is None {
        recording_keeps_order(m, s, s.targets.len());
        order_same(
            outbox_model::recorded(m, s, s.targets.len()),
            outbox_model::submit_state(m, s),
        );
    }
}

/// The head of a queue is the oldest pending write of its device: a device that
/// has a pending write has a head, the head is pending, and no pending write of
/// the device was submitted before it.
pub proof fn the_head_is_the_oldest_pending_write(m: OutboxModel, id: Seq<char>)
    requires
        orderly(m),
        m.records.contains_key(id),
        m.records[id].status == StatusModel::Pending,
    ensures
        ({
            let d = m.records[id].device;
            let head = m.head(d)->0;
            &&& m.head(d) is Some
            &&& m.records.contains_key(head)
            &&& m.records[head].device == d
            &&& m.records[head].status == StatusModel::Pending
            &&& head == id || outbox_model::earlier(m.log(d).history, head, id)
            &&& !outbox_model::earlier(m.log(d).history, id, head)
        }),
{
    let d = m.records[id].device;
    let h = m.log(d).history;
    let p = pending(m.records);
    assert(queue_in_order(m, d));
    filtered_stands(h, p, id);
    assert(h.contains(id));
    let queue = m.log(d).queue;
    assert(queue.contains(id));
    let head = queue[0];
    assert(queue.contains(head));
    queued_is_pending(m, d, head);
    let x = choose|x: int| 0 <= x < h.len() && h[x] == head;
    let y = choose|y: int| 0 <= y < h.len() && h[y] == id;
    if y < x {
        let a = h.take(x);
        let b = h.skip(x);
        assert(h =~= a + b);
        Seq::filter_distributes_over_add(a, b, p);
        assert(a[y] == id);
        filtered_stands(a, p, id);
        let front = a.filter(p);
        assert(front.contains(id));
        assert(queue[0] == front[0]);
        assert(front.contains(front[0]));
        filtered_stands(a, p, head);
        let z = choose|z: int| 0 <= z < a.len() && a[z] == head;
        assert(h[z] == h[x]);
        assert(false);
    }
    if outbox_model::earlier(h, id, head) {
        let (i, j) = choose|i: int, j: int|
            0 <= i < j < h.len() && #[trigger] h[i] == id && #[trigger] h[j] == head;
        assert(h[i] == h[y] && h[j] == h[x]);
        assert(false);
    }
    assert(head == id || h[x] == head && h[y] == id);
}

// ---- runs ------------------------------------------------------------------

/// One call on the outbox.
pub enum Operation {
    Submit(SubmissionModel),
    Claim { device: Seq<char>, at: Seq<char> },
    Settle { id: Seq<char>, outcome: OutcomeModel, at: Seq<char> },
    Observe { device: Seq<char>, observed: RecordingState },
    Cancel { device: Seq<char>, reason: Seq<char>, at: Seq<char> },
    ForgetGroup { group: Seq<char> },
}

pub open spec fn step(m: OutboxModel, op: Operation) -> OutboxModel {
    match op {
        Operation::Submit(s) => outbox_model::submit_state(m, s),
        Operation::Claim { device, at } => outbox_model::claim_state(m, device, at),
        Operation::Settle { id, outcome, at } => outbox_model::settle_state(m, id, outcome, at),
        Operation::Observe { device, observed } => outbox_model::observe_state(
            m,
            device,
            observed,
        ),
        Operation::Cancel { device, reason, at } => outbox_model::cancel_state(
            m,
            device,
            reason,
            at,
        ),
        Operation::ForgetGroup { group } => outbox_model::forget_group_state(m, group),
    }
}

/// State `m` after a list of calls.
pub open spec fn run(m: OutboxModel, ops: Seq<Operation>) -> OutboxModel
    decreases ops.len(),
{
    if ops.len() == 0 {
        m
    } else {
        step(run(m, ops.drop_last()), ops.last())
    }
}

/// Whether each submission of a run comes under new ids.
pub open spec fn fresh_run(m: OutboxModel, ops: Seq<Operation>) -> bool
    decreases ops.len(),
{
    ops.len() > 0 ==> {
        &&& fresh_run(m, ops.drop_last())
        &&& ops.last() is Submit ==> fresh(run(m, ops.drop_last()), ops.last()->Submit_0)
    }
}

/// An outbox that holds nothing is in order.
pub proof fn an_empty_outbox_is_in_order(m: OutboxModel)
    requires
        m.logs == Map::<Seq<char>, LogModel>::empty(),
        m.records == Map::<Seq<char>, RecordModel>::empty(),
    ensures
        orderly(m),
{
    assert forall|d: Seq<char>| #[trigger] queue_in_order(m, d) by {
        reveal(Seq::filter);
        assert(m.log(d) == outbox_model::empty_log());
        assert(m.log(d).queue =~= m.log(d).history.filter(pending(m.records)));
    }
}

/// Whatever is called in whatever order, every queue holds the pending writes of
/// its device in the order they were submitted.
pub proof fn every_run_keeps_the_order(m: OutboxModel, ops: Seq<Operation>)
    requires
        orderly(m),
        fresh_run(m, ops),
    ensures
        orderly(run(m, ops)),
    decreases ops.len(),
{
    if ops.len() > 0 {
        every_run_keeps_the_order(m, ops.drop_last());
        let prev = run(m, ops.drop_last());
        match ops.last() {
            Operation::Submit(s) => submitting_keeps_the_order(prev, s),
            Operation::Claim { device, at } => claiming_keeps_the_order(prev, device, at),
            Operation::Settle { id, outcome, at } => settling_keeps_the_order(
                prev,
                id,
                outcome,
                at,
            ),
            Operation::Observe { device, observed } => observing_keeps_the_order(
                prev,
                device,
                observed,
            ),
            Operation::Cancel { device, reason, at } => canceling_keeps_the_order(
                prev,
                device,
                reason,
                at,
            ),
            Operation::ForgetGroup { group } => order_same(
                prev,
                outbox_model::forget_group_state(prev, group),
            ),
        }
    }
}

// ---- keys ------------------------------------------------------------------

/// The answer that a device's log holds under a key, if there is one.
pub open spec fn answer_under(m: OutboxModel, d: Seq<char>, k: Seq<char>) -> Option<
    AcceptanceModel,
> {
    if m.log(d).keys.contains_key(k) {
        Some(m.log(d).keys[k])
    } else {
        None
    }
}

proof fn claims_keep_keys(m: OutboxModel, devices: Seq<Seq<char>>, at: Seq<char>, d: Seq<char>)
    ensures
        outbox_model::heads_claimed(m, devices, at).log(d).keys == m.log(d).keys,
    decreases devices.len(),
{
    if devices.len() > 0 {
        claims_keep_keys(m, devices.drop_last(), at, d);
    }
}

proof fn failures_keep_keys(m: OutboxModel, devices: Seq<Seq<char>>, at: Seq<char>, d: Seq<char>)
    ensures
        outbox_model::heads_failed(m, devices, at).log(d).keys == m.log(d).keys,
    decreases devices.len(),
{
    if devices.len() > 0 {
        failures_keep_keys(m, devices.drop_last(), at, d);
    }
}

proof fn canceling_keeps_keys(
    m: OutboxModel,
    device: Seq<char>,
    reason: Seq<char>,
    at: Seq<char>,
    d: Seq<char>,
)
    ensures
        outbox_model::cancel_state(m, device, reason, at).log(d).keys == m.log(d).keys,
    decreases m.log(device).queue.len(),
{
    if m.log(device).queue.len() > 0 {
        canceling_keeps_keys(
            outbox_model::last_canceled(m, device, reason, at),
            device,
            reason,
            at,
            d,
        );
    }
}

/// What recording the first `n` writes of a submission makes of one key of one
/// device.
proof fn recorded_key(m: OutboxModel, s: SubmissionModel, n: nat, d: Seq<char>, k: Seq<char>)
    requires
        n <= s.targets.len(),
    ensures
        answer_under(outbox_model::recorded(m, s, n), d, k) == if s.idempotency_key == Some(k)
            && s.targets.take(n as int).contains(d) {
            Some(outbox_model::first_answer(m, s))
        } else {
            answer_under(m, d, k)
        },
    decreases n,
{
    if n > 0 {
        let i = n - 1;
        recorded_key(m, s, i as nat, d, k);
        let part = s.targets.take(i);
        let next = s.targets.take(n as int);
        assert(next =~= part.push(s.targets[i]));
        if part.contains(d) {
            let x = choose|x: int| 0 <= x < part.len() && part[x] == d;
            assert(next[x] == d);
        }
        if s.targets[i] == d {
            assert(next[i] == d);
        } else if next.contains(d) {
            let x = choose|x: int| 0 <= x < next.len() && next[x] == d;
            assert(part[x] == d);
        }
    }
}

proof fn submitted_key(m: OutboxModel, s: SubmissionModel, d: Seq<char>, k: Seq<char>)
    requires
        outbox_model::submit_result(m, s) is Ok,
        outbox_model::replay(m, s) is None,
    ensures
        answer_under(outbox_model::submit_state(m, s), d, k) == if s.idempotency_key == Some(k)
            && s.targets.contains(d) {
            Some(outbox_model::first_answer(m, s))
        } else {
            answer_under(m, d, k)
        },
{
    let made = outbox_model::recorded(m, s, s.targets.len());
    recorded_key(m, s, s.targets.len(), d, k);
    assert(s.targets.take(s.targets.len() as int) =~= s.targets);
    assert(outbox_model::submit_state(m, s).logs == made.logs);
}

/// Whether no submission of a run carries the key `k` without asking `d` first.
pub open spec fn key_stays_with(ops: Seq<Operation>, k: Seq<char>, d: Seq<char>) -> bool {
    forall|i: int|
        0 <= i < ops.len() ==> match #[trigger] ops[i] {
            Operation::Submit(u) => u.idempotency_key == Some(k) ==> u.targets.len() > 0
                && u.targets[0] == d,
            _ => true,
        }
}

/// A key once answered is answered alike after any run of calls.
proof fn an_answer_stands(m: OutboxModel, ops: Seq<Operation>, d: Seq<char>, k: Seq<char>)
    requires
        answer_under(m, d, k) is Some,
        key_stays_with(ops, k, d),
    ensures
        answer_under(run(m, ops), d, k) == answer_under(m, d, k),
    decreases ops.len(),
{
    if ops.len() > 0 {
        let rest = ops.drop_last();
        assert forall|i: int| 0 <= i < rest.len() implies match #[trigger] rest[i] {
            Operation::Submit(u) => u.idempotency_key == Some(k) ==> u.targets.len() > 0
                && u.targets[0] == d,
            _ => true,
        } by {
            assert(rest[i] == ops[i]);
        }
        an_answer_stands(m, rest, d, k);
        let prev = run(m, rest);
        let last = ops[ops.len() - 1];
        match last {
            Operation::Submit(u) => {
                if outbox_model::submit_result(prev, u) is Ok && outbox_model::replay(prev, u) is None {
                    submitted_key(prev, u, d, k);
                }
            },
            Operation::Claim { device, at } => {
                if outbox_model::due(prev, device, at) {
                    if let Some(b) = prev.records[prev.head(device)->0].batch {
                        let e = outbox_model::batch_evaluated(prev, b, device, at);
                        assert(e.logs == prev.logs);
                        match outbox_model::batch_step(prev, b, device, at) {
                            StepModel::Release(members) => {
                                claims_keep_keys(e, members, at, d);
                            },
                            StepModel::Fail(members) => {
                                failures_keep_keys(e, members, at, d);
                            },
                            _ => {},
                        }
                    }
                }
            },
            Operation::Settle { .. } => {},
            Operation::Observe { .. } => {},
            Operation::ForgetGroup { .. } => {},
            Operation::Cancel { device, reason, at } => {
                canceling_keeps_keys(prev, device, reason, at, d);
            },
        }
    }
}

/// A keyed submission, to any number of devices and in a batch or not, is answered
/// when it is repeated as it was the first time: the same writes and the same
/// batch, whatever has been claimed, settled, observed, canceled or submitted
/// since. The repeat records nothing, queues nothing, moves no phase and no take,
/// and tells no group anything.
pub proof fn a_repeated_key_returns_the_original_writes(
    m: OutboxModel,
    s: SubmissionModel,
    ops: Seq<Operation>,
    t: SubmissionModel,
)
    requires
        s.idempotency_key is Some,
        outbox_model::submit_result(m, s) is Ok,
        outbox_model::replay(m, s) is None,
        t.idempotency_key == s.idempotency_key,
        t.targets.len() > 0,
        t.ids.len() == t.targets.len(),
        s.targets.contains(t.targets[0]),
        key_stays_with(ops, s.idempotency_key->0, t.targets[0]),
    ensures
        ({
            let now = run(outbox_model::submit_state(m, s), ops);
            &&& outbox_model::submit_result(now, t) == outbox_model::submit_result(m, s)
            &&& outbox_model::submit_state(now, t) == now
        }),
{
    let d = t.targets[0];
    let k = s.idempotency_key->0;
    submitted_key(m, s, d, k);
    an_answer_stands(outbox_model::submit_state(m, s), ops, d, k);
}

// ---- canceling -------------------------------------------------------------

/// Withdrawing what is queued for a device empties its queue. Each write that was
/// queued stays on record, in the history, as canceled for the reason given; every
/// other write, the logs of all other devices, and what the groups were told stay
/// as they were.
pub proof fn a_cancellation_withdraws_one_queue(
    m: OutboxModel,
    device: Seq<char>,
    reason: Seq<char>,
    at: Seq<char>,
)
    requires
        m.inv(),
    ensures
        ({
            let n = outbox_model::cancel_state(m, device, reason, at);
            &&& n.inv()
            &&& n.log(device).queue == Seq::<Seq<char>>::empty()
            &&& n.log(device).history == m.log(device).history
            &&& n.log(device).epoch == m.log(device).epoch
            &&& n.log(device).keys == m.log(device).keys
            &&& n.groups == m.groups
            &&& forall|d: Seq<char>| d != device ==> #[trigger] n.log(d) == m.log(d)
            &&& n.records.dom() == m.records.dom()
            &&& forall|x: Seq<char>| #[trigger]
                n.records.contains_key(x) ==> n.records[x] == if m.log(device).queue.contains(x) {
                    RecordModel {
                        status: StatusModel::Canceled { reason },
                        updated_at: at,
                        ..m.records[x]
                    }
                } else {
                    m.records[x]
                }
        }),
    decreases m.log(device).queue.len(),
{
    let queue = m.log(device).queue;
    if queue.len() == 0 {
        assert(queue =~= Seq::<Seq<char>>::empty());
    } else {
        let n = outbox_model::cancel_state(m, device, reason, at);
        let next = outbox_model::last_canceled(m, device, reason, at);
        outbox_model::last_canceled_keeps_inv(m, device, reason, at);
        a_cancellation_withdraws_one_queue(next, device, reason, at);
        let id = queue.last();
        assert(next.records.dom() =~= m.records.dom());
        assert forall|x: Seq<char>| #[trigger] n.records.contains_key(x) implies n.records[x]
            == if queue.contains(x) {
            RecordModel { status: StatusModel::Canceled { reason }, updated_at: at, ..m.records[x] }
        } else {
            m.records[x]
        } by {
            let rest = queue.drop_last();
            if rest.contains(x) {
                let i = choose|i: int| 0 <= i < rest.len() && rest[i] == x;
                assert(queue[i] == x);
            }
            if queue.contains(x) && x != id {
                let i = choose|i: int| 0 <= i < queue.len() && queue[i] == x;
                assert(rest[i] == x);
            }
        }
        assert forall|d: Seq<char>| d != device implies #[trigger] n.log(d) == m.log(d) by {
            assert(next.log(d) == m.log(d));
        }
    }
}

} // verus!
