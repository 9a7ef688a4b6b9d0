//! What holds of the store of reads across its operations.

use vstd::prelude::*;
use crate::api::ReadModel;
use crate::memory::store_model;
use crate::memory::store_model::StoreModel;
use crate::text;

verus! {

/// A read that was written is the latest of its field, and no other field's
/// latest read changes.
pub proof fn the_latest_read_is_the_last_one_written(
    m: StoreModel,
    r: ReadModel,
    device: Seq<char>,
    field: Seq<char>,
)
    ensures
        store_model::upsert_state(m, r).latest_of(device, field) == if device == r.device && field
            == r.field {
            Some(r)
        } else {
            m.latest_of(device, field)
        },
{
}

/// A store without a budget keeps every read: the series of the read grows by it,
/// and every other series stays.
pub proof fn an_unbounded_store_evicts_nothing(
    m: StoreModel,
    r: ReadModel,
    device: Seq<char>,
    field: Seq<char>,
)
    requires
        m.budget is None,
    ensures
        store_model::upsert_state(m, r).evicted == m.evicted,
        store_model::upsert_state(m, r).entries == m.entries.push(r),
        store_model::upsert_state(m, r).series(device, field) == if device == r.device && field
            == r.field {
            m.series(device, field).push(r)
        } else {
            m.series(device, field)
        },
{
    assert(m.entries.push(r).skip(0) =~= m.entries.push(r));
    store_model::series_of_push(m.entries, r, device, field);
}

proof fn surplus_is_enough(entries: Seq<ReadModel>, floor: nat, cap: nat)
    ensures
        ({
            let n = store_model::surplus(entries, floor, cap);
            &&& n <= entries.len()
            &&& n < entries.len() ==> floor + store_model::history_total(entries.skip(n as int))
                <= cap
            &&& forall|i: int|
                0 <= i < n ==> floor + store_model::history_total(#[trigger] entries.skip(i)) > cap
        }),
    decreases entries.len(),
{
    let n = store_model::surplus(entries, floor, cap);
    assert(entries.skip(0) =~= entries);
    if entries.len() > 0 && floor + store_model::history_total(entries) > cap {
        let rest = entries.drop_first();
        surplus_is_enough(rest, floor, cap);
        assert forall|i: int| 1 <= i <= n implies #[trigger] entries.skip(i) == rest.skip(i - 1) by {
            assert(entries.skip(i) =~= rest.skip(i - 1));
        }
    }
}

/// After every write the store is within its budget, or nothing is left to evict.
pub proof fn eviction_keeps_the_store_within_its_budget(m: StoreModel, r: ReadModel)
    requires
        m.budget is Some,
    ensures
        ({
            let n = store_model::upsert_state(m, r);
            n.used() <= m.budget->0 || n.entries.len() == 0
        }),
{
    let latest = m.latest.insert((r.device, r.field), r);
    surplus_is_enough(m.entries.push(r), store_model::latest_total(latest), m.budget->0 as nat);
}

/// A lowered budget is met at once, or nothing is left to evict; what goes is the
/// oldest, each entry is counted, and the latest reads stay.
pub proof fn a_lowered_budget_is_met_at_once(m: StoreModel, cap: u64)
    ensures
        ({
            let n = store_model::budget_state(m, Some(cap));
            let gone = n.evicted - m.evicted;
            &&& n.used() <= cap || n.entries.len() == 0
            &&& n.latest == m.latest
            &&& 0 <= gone <= m.entries.len()
            &&& n.entries == m.entries.skip(gone)
            &&& m.used() <= cap ==> n.entries == m.entries
        }),
{
    surplus_is_enough(m.entries, store_model::latest_total(m.latest), cap as nat);
    assert(m.entries.skip(0) =~= m.entries);
}

/// Eviction takes the oldest entries of the whole store, in the order they were
/// written, counts each, and takes none that could have stayed.
pub proof fn eviction_takes_the_oldest_and_no_more(m: StoreModel, r: ReadModel)
    requires
        m.budget is Some,
    ensures
        ({
            let n = store_model::upsert_state(m, r);
            let all = m.entries.push(r);
            let gone = n.evicted - m.evicted;
            &&& 0 <= gone <= all.len()
            &&& n.entries == all.skip(gone)
            &&& gone > 0 ==> store_model::latest_total(n.latest) + store_model::history_total(
                all.skip(gone - 1),
            ) > m.budget->0
        }),
{
    let latest = m.latest.insert((r.device, r.field), r);
    let all = m.entries.push(r);
    surplus_is_enough(all, store_model::latest_total(latest), m.budget->0 as nat);
    let gone = store_model::surplus(all, store_model::latest_total(latest), m.budget->0 as nat);
    if gone > 0 {
        assert(store_model::latest_total(latest) + store_model::history_total(all.skip(gone - 1))
            > m.budget->0);
    }
}

/// A sweep leaves the latest reads alone, and of the recorded ones keeps exactly
/// those that are not older than its bound.
pub proof fn a_sweep_drops_what_is_older_and_nothing_else(
    m: StoreModel,
    before: Seq<char>,
    r: ReadModel,
)
    ensures
        store_model::prune_state(m, before).latest == m.latest,
        store_model::prune_state(m, before).evicted == m.evicted,
        store_model::prune_state(m, before).entries.contains(r) <==> m.entries.contains(r)
            && !text::lex_lt(r.at, before),
{
    let stays = store_model::current(before);
    let kept = m.entries.filter(stays);
    if kept.contains(r) {
        let i = choose|i: int| 0 <= i < kept.len() && kept[i] == r;
        store_model::filter_member(m.entries, stays, i);
        let q = choose|q: int| 0 <= q < m.entries.len() && #[trigger] m.entries[q] == kept[i];
        assert(m.entries.contains(r));
    }
    if m.entries.contains(r) && !text::lex_lt(r.at, before) {
        let q = choose|q: int| 0 <= q < m.entries.len() && m.entries[q] == r;
        store_model::filter_split(m.entries, q, stays);
        let a = m.entries.take(q).filter(stays);
        assert(kept[a.len() as int] == r);
    }
}

proof fn filters_swap(
    s: Seq<ReadModel>,
    p: spec_fn(ReadModel) -> bool,
    q: spec_fn(ReadModel) -> bool,
)
    ensures
        s.filter(p).filter(q) == s.filter(q).filter(p),
    decreases s.len(),
{
    reveal(Seq::filter);
    if s.len() > 0 {
        let rest = s.drop_last();
        let last = s.last();
        filters_swap(rest, p, q);
        assert(rest.filter(p).push(last).drop_last() =~= rest.filter(p));
        assert(rest.filter(q).push(last).drop_last() =~= rest.filter(q));
    }
}

/// A sweep keeps of every series exactly the reads that are not older than its
/// bound, in their order.
pub proof fn a_sweep_keeps_the_rest_of_every_series(
    m: StoreModel,
    before: Seq<char>,
    device: Seq<char>,
    field: Seq<char>,
)
    ensures
        store_model::prune_state(m, before).series(device, field) == m.series(
            device,
            field,
        ).filter(store_model::current(before)),
{
    filters_swap(m.entries, store_model::current(before), store_model::of_series(device, field));
}

/// A read stamped exactly at the bound of a sweep survives it.
pub proof fn the_bound_of_a_sweep_is_exclusive(m: StoreModel, r: ReadModel)
    requires
        m.entries.contains(r),
    ensures
        store_model::prune_state(m, r.at).entries.contains(r),
{
    text::lex_irreflexive(r.at);
    a_sweep_drops_what_is_older_and_nothing_else(m, r.at, r);
}

/// Sweeping twice is sweeping once.
pub proof fn a_sweep_is_idempotent(m: StoreModel, before: Seq<char>)
    ensures
        ({
            let once = store_model::prune_state(m, before);
            &&& store_model::prune_state(once, before) == once
            &&& once.entries.filter(store_model::expired(before)).len() == 0
        }),
{
    let stays = store_model::current(before);
    let gone = store_model::expired(before);
    let kept = m.entries.filter(stays);
    assert forall|i: int| 0 <= i < kept.len() implies stays(#[trigger] kept[i]) by {
        store_model::filter_member(m.entries, stays, i);
    }
    store_model::filter_all(kept, stays);
    assert forall|i: int| 0 <= i < kept.len() implies !gone(#[trigger] kept[i]) by {
        assert(stays(kept[i]));
    }
    store_model::filter_none(kept, gone);
}

/// What a sweep reports as reclaimed is what the store holds less of.
pub proof fn a_sweep_returns_its_bytes(m: StoreModel, before: Seq<char>)
    ensures
        m.used() == store_model::prune_state(m, before).used() + store_model::history_total(
            m.entries.filter(store_model::expired(before)),
        ),
        m.entries.len() == store_model::prune_state(m, before).entries.len() + m.entries.filter(
            store_model::expired(before),
        ).len(),
{
    split_total(m.entries, before);
}

proof fn split_total(entries: Seq<ReadModel>, before: Seq<char>)
    ensures
        store_model::history_total(entries) == store_model::history_total(
            entries.filter(store_model::current(before)),
        ) + store_model::history_total(entries.filter(store_model::expired(before))),
        entries.len() == entries.filter(store_model::current(before)).len() + entries.filter(
            store_model::expired(before),
        ).len(),
    decreases entries.len(),
{
    reveal(Seq::filter);
    let stays = store_model::current(before);
    let gone = store_model::expired(before);
    if entries.len() > 0 {
        let rest = entries.drop_last();
        split_total(rest, before);
        if gone(entries.last()) {
            store_model::total_of_push(rest.filter(gone), entries.last());
        } else {
            store_model::total_of_push(rest.filter(stays), entries.last());
        }
    }
}

/// Whether reads are stamped in the order of the list.
pub open spec fn chronological(reads: Seq<ReadModel>) -> bool {
    forall|i: int, j: int|
        0 <= i < j < reads.len() ==> !text::lex_lt((#[trigger] reads[j]).at, (#[trigger] reads[i]).at)
}

/// Whatever is picked from reads in chronological order is in that order: a
/// series whose reads were written as they were stamped is read oldest first.
pub proof fn picking_keeps_chronology(reads: Seq<ReadModel>, keep: spec_fn(ReadModel) -> bool)
    requires
        chronological(reads),
    ensures
        chronological(reads.filter(keep)),
    decreases reads.len(),
{
    reveal(Seq::filter);
    if reads.len() > 0 {
        let rest = reads.drop_last();
        picking_keeps_chronology(rest, keep);
        let f = rest.filter(keep);
        if keep(reads.last()) {
            let g = f.push(reads.last());
            assert(reads.filter(keep) == g);
            assert forall|i: int, j: int| 0 <= i < j < g.len() implies !text::lex_lt(
                (#[trigger] g[j]).at,
                (#[trigger] g[i]).at,
            ) by {
                if j == f.len() {
                    store_model::filter_member(rest, keep, i);
                    let q = choose|q: int| 0 <= q < rest.len() && #[trigger] rest[q] == f[i];
                    assert(reads[q] == f[i]);
                    assert(!text::lex_lt(reads[reads.len() - 1].at, reads[q].at));
                }
            }
        }
    }
}

/// Forgetting a device leaves no read of it, latest or recorded, and every read of
/// every other device.
pub proof fn forgetting_a_device_touches_no_other(
    m: StoreModel,
    device: Seq<char>,
    d: Seq<char>,
    f: Seq<char>,
)
    ensures
        store_model::forget_state(m, device).latest_of(d, f) == if d == device {
            None
        } else {
            m.latest_of(d, f)
        },
        store_model::forget_state(m, device).series(d, f) == if d == device {
            Seq::<ReadModel>::empty()
        } else {
            m.series(d, f)
        },
{
    store_model::series_elsewhere(m.entries, device, d, f);
}

} // verus!
