//! What the store of reads is: the latest read of each field of each device, and
//! every recorded read in the order it was written.

use vstd::prelude::*;
use vstd::utf8::encode_utf8;
use crate::api::{Alarm, AlarmModel, Read, ReadModel, ValueModel};
use crate::text;

verus! {

/// The flat charge for what an estimate of an entry cannot see.
pub const ENTRY_OVERHEAD: u64 = 64;

#[verifier::ext_equal]
pub struct StoreModel {
    /// The latest read by device and field.
    pub latest: Map<(Seq<char>, Seq<char>), ReadModel>,
    /// The recorded reads, oldest write first.
    pub entries: Seq<ReadModel>,
    pub budget: Option<u64>,
    /// How many entries the budget has dropped.
    pub evicted: nat,
}

// ---- what a read costs -----------------------------------------------------

/// The bytes of a text.
pub open spec fn byte_len(s: Seq<char>) -> nat {
    encode_utf8(s).len()
}

pub open spec fn alarms_cost(alarms: Seq<AlarmModel>) -> nat
    decreases alarms.len(),
{
    if alarms.len() == 0 {
        0
    } else {
        alarms_cost(alarms.drop_last()) + vstd::layout::size_of::<Alarm>() + byte_len(
            alarms.last().name,
        ) + byte_len(alarms.last().level)
    }
}

/// The bytes of a value that lie outside of it.
pub open spec fn value_cost(v: ValueModel) -> nat {
    match v {
        ValueModel::Text(s) => byte_len(s),
        ValueModel::Version(s) => byte_len(s),
        ValueModel::Ack(s) => byte_len(s),
        ValueModel::Mac(s) => byte_len(s),
        ValueModel::Alarms(alarms) => alarms_cost(alarms),
        ValueModel::Port(_) => 0,
        ValueModel::Number(_) => 0,
        ValueModel::Flag(_) => 0,
        ValueModel::State(_) => 0,
    }
}

/// The bytes of a read: the struct, its texts, and its value.
pub open spec fn read_cost(r: ReadModel) -> nat {
    vstd::layout::size_of::<Read>() + byte_len(r.device) + byte_len(r.field) + byte_len(r.at)
        + value_cost(r.value)
}

/// The bytes of a latest read: the read, the key it is filed under, the overhead.
pub open spec fn latest_cost(r: ReadModel) -> nat {
    read_cost(r) + byte_len(r.field) + ENTRY_OVERHEAD as nat
}

/// The bytes of a recorded read: the read, the slot that tracks it, the overhead.
pub open spec fn history_cost(r: ReadModel) -> nat {
    read_cost(r) + vstd::layout::size_of::<crate::memory::store::Slot>() + byte_len(r.device)
        + byte_len(r.field) + byte_len(r.at) + ENTRY_OVERHEAD as nat
}

/// The bytes of all recorded reads.
pub open spec fn history_total(entries: Seq<ReadModel>) -> nat
    decreases entries.len(),
{
    if entries.len() == 0 {
        0
    } else {
        history_total(entries.drop_last()) + history_cost(entries.last())
    }
}

/// The bytes of all latest reads.
pub open spec fn latest_total(latest: Map<(Seq<char>, Seq<char>), ReadModel>) -> nat
    decreases latest.dom().len(),
    when latest.dom().finite()
{
    if latest.dom().len() == 0 {
        0
    } else {
        let k = latest.dom().choose();
        latest_total(latest.remove(k)) + latest_cost(latest[k])
    }
}

impl StoreModel {
    /// The bytes held in all.
    pub open spec fn used(self) -> nat {
        latest_total(self.latest) + history_total(self.entries)
    }

    /// The recorded reads of one field of one device, oldest write first.
    pub open spec fn series(self, device: Seq<char>, field: Seq<char>) -> Seq<ReadModel> {
        series(self.entries, device, field)
    }

    pub open spec fn latest_of(self, device: Seq<char>, field: Seq<char>) -> Option<ReadModel> {
        if self.latest.contains_key((device, field)) {
            Some(self.latest[(device, field)])
        } else {
            None
        }
    }

    /// Every latest read is filed under its own device and field.
    pub open spec fn filed(self) -> bool {
        &&& self.latest.dom().finite()
        &&& forall|k: (Seq<char>, Seq<char>)| #[trigger]
            self.latest.contains_key(k) ==> self.latest[k].device == k.0 && self.latest[k].field
                == k.1
    }
}

pub open spec fn of_series(device: Seq<char>, field: Seq<char>) -> spec_fn(ReadModel) -> bool {
    |r: ReadModel| r.device == device && r.field == field
}

pub open spec fn series(entries: Seq<ReadModel>, device: Seq<char>, field: Seq<char>) -> Seq<
    ReadModel,
> {
    entries.filter(of_series(device, field))
}

// ---- the operations --------------------------------------------------------

/// How many of the oldest entries have to go for the store to fit in `cap`, or
/// all of them where nothing else fits.
pub open spec fn surplus(entries: Seq<ReadModel>, floor: nat, cap: nat) -> nat
    decreases entries.len(),
{
    if entries.len() == 0 || floor + history_total(entries) <= cap {
        0
    } else {
        1 + surplus(entries.drop_first(), floor, cap)
    }
}

/// The store once a read is written: it is the latest of its field, it is the
/// newest entry, and the oldest entries made room for it.
pub open spec fn upsert_state(m: StoreModel, r: ReadModel) -> StoreModel {
    let latest = m.latest.insert((r.device, r.field), r);
    let entries = m.entries.push(r);
    let gone = match m.budget {
        Some(cap) => surplus(entries, latest_total(latest), cap as nat),
        None => 0,
    };
    StoreModel {
        latest,
        entries: entries.skip(gone as int),
        budget: m.budget,
        evicted: m.evicted + gone,
    }
}

/// The store once it is held to another budget: the oldest entries made room.
pub open spec fn budget_state(m: StoreModel, budget: Option<u64>) -> StoreModel {
    let gone = match budget {
        Some(cap) => surplus(m.entries, latest_total(m.latest), cap as nat),
        None => 0,
    };
    StoreModel {
        latest: m.latest,
        entries: m.entries.skip(gone as int),
        budget,
        evicted: m.evicted + gone,
    }
}

pub open spec fn expired(before: Seq<char>) -> spec_fn(ReadModel) -> bool {
    |r: ReadModel| text::lex_lt(r.at, before)
}

pub open spec fn current(before: Seq<char>) -> spec_fn(ReadModel) -> bool {
    |r: ReadModel| !text::lex_lt(r.at, before)
}

/// The store once every entry stamped before `before` is gone.
pub open spec fn prune_state(m: StoreModel, before: Seq<char>) -> StoreModel {
    StoreModel { entries: m.entries.filter(current(before)), ..m }
}

pub open spec fn of_device(device: Seq<char>) -> spec_fn(ReadModel) -> bool {
    |r: ReadModel| r.device == device
}

pub open spec fn elsewhere(device: Seq<char>) -> spec_fn(ReadModel) -> bool {
    |r: ReadModel| r.device != device
}

/// The store once every read of a device is gone, the latest ones too.
pub open spec fn forget_state(m: StoreModel, device: Seq<char>) -> StoreModel {
    StoreModel {
        latest: Map::new(
            |k: (Seq<char>, Seq<char>)| m.latest.contains_key(k) && k.0 != device,
            |k: (Seq<char>, Seq<char>)| m.latest[k],
        ),
        entries: m.entries.filter(elsewhere(device)),
        ..m
    }
}

// ---- facts -----------------------------------------------------------------

/// The series of a device go with it, and every other series stays.
pub proof fn series_elsewhere(
    entries: Seq<ReadModel>,
    device: Seq<char>,
    d: Seq<char>,
    f: Seq<char>,
)
    ensures
        series(entries.filter(elsewhere(device)), d, f) == if d == device {
            Seq::<ReadModel>::empty()
        } else {
            series(entries, d, f)
        },
    decreases entries.len(),
{
    reveal(Seq::filter);
    if entries.len() > 0 {
        let rest = entries.drop_last();
        series_elsewhere(rest, device, d, f);
        let kept = rest.filter(elsewhere(device));
        let last = entries.last();
        if last.device != device {
            assert(entries.filter(elsewhere(device)) == kept.push(last));
            series_of_push(kept, last, d, f);
        }
        assert(entries =~= rest.push(last));
        series_of_push(rest, last, d, f);
    } else {
        assert(series(entries.filter(elsewhere(device)), d, f) =~= Seq::<ReadModel>::empty());
        assert(series(entries, d, f) =~= Seq::<ReadModel>::empty());
    }
}

/// The latest reads without some fields of a device.
pub open spec fn without_fields(
    latest: Map<(Seq<char>, Seq<char>), ReadModel>,
    device: Seq<char>,
    fields: Seq<Seq<char>>,
) -> Map<(Seq<char>, Seq<char>), ReadModel>
    decreases fields.len(),
{
    if fields.len() == 0 {
        latest
    } else {
        without_fields(latest, device, fields.drop_last()).remove((device, fields.last()))
    }
}

pub proof fn without_fields_holds(
    latest: Map<(Seq<char>, Seq<char>), ReadModel>,
    device: Seq<char>,
    fields: Seq<Seq<char>>,
)
    requires
        latest.dom().finite(),
    ensures
        without_fields(latest, device, fields).dom().finite(),
        forall|k: (Seq<char>, Seq<char>)| #[trigger]
            without_fields(latest, device, fields).contains_key(k) <==> latest.contains_key(k) && !(
            k.0 == device && fields.contains(k.1)),
        forall|k: (Seq<char>, Seq<char>)| #[trigger]
            without_fields(latest, device, fields).contains_key(k) ==> without_fields(
                latest,
                device,
                fields,
            )[k] == latest[k],
    decreases fields.len(),
{
    if fields.len() > 0 {
        let rest = fields.drop_last();
        without_fields_holds(latest, device, rest);
        let now = without_fields(latest, device, fields);
        assert forall|k: (Seq<char>, Seq<char>)| #[trigger] now.contains_key(k)
            <==> latest.contains_key(k) && !(k.0 == device && fields.contains(k.1)) by {
            if rest.contains(k.1) {
                let i = choose|i: int| 0 <= i < rest.len() && rest[i] == k.1;
                assert(fields[i] == k.1);
            }
            if k.1 == fields.last() {
                assert(fields[fields.len() - 1] == k.1);
            }
            if fields.contains(k.1) && k.1 != fields.last() {
                let i = choose|i: int| 0 <= i < fields.len() && fields[i] == k.1;
                assert(rest[i] == k.1);
            }
        }
    }
}

pub proof fn total_of_push(entries: Seq<ReadModel>, r: ReadModel)
    ensures
        history_total(entries.push(r)) == history_total(entries) + history_cost(r),
{
    assert(entries.push(r).drop_last() =~= entries);
}

pub proof fn total_of_remove(entries: Seq<ReadModel>, p: int)
    requires
        0 <= p < entries.len(),
    ensures
        history_total(entries) == history_total(entries.remove(p)) + history_cost(entries[p]),
    decreases entries.len(),
{
    if p == entries.len() - 1 {
        assert(entries.remove(p) =~= entries.drop_last());
    } else {
        total_of_remove(entries.drop_last(), p);
        assert(entries.remove(p).drop_last() =~= entries.drop_last().remove(p));
        assert(entries.remove(p).last() == entries.last());
    }
}

pub proof fn latest_total_of_remove(
    latest: Map<(Seq<char>, Seq<char>), ReadModel>,
    k: (Seq<char>, Seq<char>),
)
    requires
        latest.dom().finite(),
        latest.contains_key(k),
    ensures
        latest_total(latest) == latest_total(latest.remove(k)) + latest_cost(latest[k]),
    decreases latest.dom().len(),
{
    let c = latest.dom().choose();
    assert(latest.dom().contains(k));
    assert(latest.dom().len() != 0) by {
        if latest.dom().len() == 0 {
            latest.dom().lemma_len0_is_empty();
        }
    }
    if c != k {
        let rest = latest.remove(c);
        assert(rest.contains_key(k));
        latest_total_of_remove(rest, k);
        let other = latest.remove(k);
        assert(other.contains_key(c));
        latest_total_of_remove(other, c);
        assert(rest.remove(k) =~= other.remove(c));
    }
}

/// Filing a read adds its cost and takes off that of the read it displaces.
pub proof fn latest_total_of_insert(
    latest: Map<(Seq<char>, Seq<char>), ReadModel>,
    k: (Seq<char>, Seq<char>),
    r: ReadModel,
)
    requires
        latest.dom().finite(),
    ensures
        latest.insert(k, r).dom().finite(),
        latest_total(latest.insert(k, r)) == latest_total(latest.remove(k)) + latest_cost(r),
        latest.contains_key(k) ==> latest_total(latest) == latest_total(latest.remove(k))
            + latest_cost(latest[k]),
        !latest.contains_key(k) ==> latest_total(latest) == latest_total(latest.remove(k)),
{
    let next = latest.insert(k, r);
    latest_total_of_remove(next, k);
    assert(next.remove(k) =~= latest.remove(k));
    if latest.contains_key(k) {
        latest_total_of_remove(latest, k);
    } else {
        assert(latest.remove(k) =~= latest);
    }
}

pub proof fn series_of_push(
    entries: Seq<ReadModel>,
    r: ReadModel,
    device: Seq<char>,
    field: Seq<char>,
)
    ensures
        series(entries.push(r), device, field) == if r.device == device && r.field == field {
            series(entries, device, field).push(r)
        } else {
            series(entries, device, field)
        },
{
    reveal(Seq::filter);
    assert(entries.push(r).drop_last() =~= entries);
}

/// How many entries of the series of entry `p` come before it.
pub open spec fn rank(entries: Seq<ReadModel>, p: int) -> nat {
    series(entries.take(p), entries[p].device, entries[p].field).len()
}

/// A list splits, and so does what is filtered from it.
pub proof fn filter_split(entries: Seq<ReadModel>, p: int, keep: spec_fn(ReadModel) -> bool)
    requires
        0 <= p < entries.len(),
    ensures
        entries.filter(keep) == entries.take(p).filter(keep) + (if keep(entries[p]) {
            seq![entries[p]]
        } else {
            seq![]
        }) + entries.skip(p + 1).filter(keep),
        entries.remove(p).filter(keep) == entries.take(p).filter(keep) + entries.skip(
            p + 1,
        ).filter(keep),
{
    let a = entries.take(p);
    let one = seq![entries[p]];
    let b = entries.skip(p + 1);
    assert(entries =~= a + one + b);
    assert(entries.remove(p) =~= a + b);
    Seq::filter_distributes_over_add(a + one, b, keep);
    Seq::filter_distributes_over_add(a, one, keep);
    Seq::filter_distributes_over_add(a, b, keep);
    reveal(Seq::filter);
    assert(one.drop_last() =~= Seq::<ReadModel>::empty());
    assert(one.drop_last().filter(keep) =~= Seq::<ReadModel>::empty());
    assert(one.filter(keep) =~= if keep(entries[p]) {
        seq![entries[p]]
    } else {
        seq![]
    });
}

/// Taking an entry out takes it out of its own series, at its rank, and leaves
/// every other series.
pub proof fn series_of_remove(
    entries: Seq<ReadModel>,
    p: int,
    device: Seq<char>,
    field: Seq<char>,
)
    requires
        0 <= p < entries.len(),
    ensures
        ({
            let r = entries[p];
            let whole = series(entries, device, field);
            let rest = series(entries.remove(p), device, field);
            if r.device == device && r.field == field {
                &&& rank(entries, p) < whole.len()
                &&& whole[rank(entries, p) as int] == r
                &&& rest == whole.remove(rank(entries, p) as int)
            } else {
                rest == whole
            }
        }),
{
    filter_split(entries, p, of_series(device, field));
    let r = entries[p];
    let whole = series(entries, device, field);
    let rest = series(entries.remove(p), device, field);
    let a = series(entries.take(p), device, field);
    let b = series(entries.skip(p + 1), device, field);
    if r.device == device && r.field == field {
        assert(whole == a + seq![r] + b);
        assert(whole[a.len() as int] == r);
        assert(rest =~= whole.remove(a.len() as int));
    } else {
        assert(a + Seq::<ReadModel>::empty() + b =~= a + b);
    }
}

/// An entry of a series is an entry.
pub proof fn filter_member(entries: Seq<ReadModel>, keep: spec_fn(ReadModel) -> bool, i: int)
    requires
        0 <= i < entries.filter(keep).len(),
    ensures
        keep(entries.filter(keep)[i]),
        exists|q: int| 0 <= q < entries.len() && #[trigger] entries[q] == entries.filter(keep)[i],
    decreases entries.len(),
{
    reveal(Seq::filter);
    let rest = entries.drop_last();
    if i < rest.filter(keep).len() {
        filter_member(rest, keep, i);
        let q = choose|q: int| 0 <= q < rest.len() && #[trigger] rest[q] == rest.filter(keep)[i];
        assert(entries[q] == entries.filter(keep)[i]);
    } else {
        assert(entries[entries.len() - 1] == entries.filter(keep)[i]);
    }
}

/// A list that filters to nothing holds nothing that the filter keeps.
pub proof fn filter_empty(entries: Seq<ReadModel>, keep: spec_fn(ReadModel) -> bool, i: int)
    requires
        entries.filter(keep).len() == 0,
        0 <= i < entries.len(),
    ensures
        !keep(entries[i]),
    decreases entries.len(),
{
    reveal(Seq::filter);
    if i < entries.len() - 1 {
        filter_empty(entries.drop_last(), keep, i);
        assert(entries.drop_last()[i] == entries[i]);
    }
}

/// A filter that keeps everything keeps the list.
pub proof fn filter_all(entries: Seq<ReadModel>, keep: spec_fn(ReadModel) -> bool)
    requires
        forall|i: int| 0 <= i < entries.len() ==> keep(#[trigger] entries[i]),
    ensures
        entries.filter(keep) == entries,
    decreases entries.len(),
{
    reveal(Seq::filter);
    if entries.len() > 0 {
        let rest = entries.drop_last();
        assert forall|i: int| 0 <= i < rest.len() implies keep(#[trigger] rest[i]) by {
            assert(rest[i] == entries[i]);
        }
        filter_all(rest, keep);
        assert(keep(entries[entries.len() - 1]));
        assert(entries.filter(keep) =~= entries);
    } else {
        assert(entries.filter(keep) =~= entries);
    }
}

/// A filter that keeps nothing keeps nothing.
pub proof fn filter_none(entries: Seq<ReadModel>, keep: spec_fn(ReadModel) -> bool)
    requires
        forall|i: int| 0 <= i < entries.len() ==> !keep(#[trigger] entries[i]),
    ensures
        entries.filter(keep).len() == 0,
    decreases entries.len(),
{
    reveal(Seq::filter);
    if entries.len() > 0 {
        let rest = entries.drop_last();
        assert forall|i: int| 0 <= i < rest.len() implies !keep(#[trigger] rest[i]) by {
            assert(rest[i] == entries[i]);
        }
        filter_none(rest, keep);
        assert(!keep(entries[entries.len() - 1]));
    }
}

/// The store keeps its files in order whatever is written to it.
pub proof fn upsert_keeps_filed(m: StoreModel, r: ReadModel)
    requires
        m.filed(),
    ensures
        upsert_state(m, r).filed(),
{
    let n = upsert_state(m, r);
    assert forall|k: (Seq<char>, Seq<char>)| #[trigger] n.latest.contains_key(k) implies n.latest[k].device
        == k.0 && n.latest[k].field == k.1 by {
        if k != (r.device, r.field) {
            assert(m.latest.contains_key(k));
        }
    }
}

} // verus!
