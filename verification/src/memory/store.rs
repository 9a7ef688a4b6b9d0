//! An in-memory store of reads, bounded in time by sweeps and in bytes by a
//! budget that every write is held to.

use std::collections::VecDeque;

use vstd::prelude::*;
use vstd::string::*;
use crate::api;
use crate::api::{Alarm, DeviceId, FieldName, Read, ReadModel, ReadValue, TimeSpan};
use crate::memory::store_model;
use crate::memory::store_model::{StoreModel, ENTRY_OVERHEAD};
use crate::ordered;
use crate::ordered::OrderedMap;
use crate::store::error::{ReadError, WriteError};
use crate::store::lifecycle::{Swept, Usage};
use crate::text;
use crate::text::same;
use crate::time::Timestamp;

verus! {

// ---- what is held ----------------------------------------------------------

/// The models of a list of reads.
pub open spec fn read_models(s: Seq<Read>) -> Seq<ReadModel> {
    s.map_values(|r: Read| r@)
}

/// The recorded reads of one field of one device, oldest write first.
pub struct Series {
    reads: VecDeque<Read>,
}

impl View for Series {
    type V = Seq<ReadModel>;

    closed spec fn view(&self) -> Seq<ReadModel> {
        read_models(self.reads@)
    }
}

/// The books' record of one stored entry.
pub struct Slot {
    device: DeviceId,
    field: FieldName,
    at: Timestamp,
    bytes: u64,
}

impl Slot {
    spec fn tracks(self, r: ReadModel) -> bool {
        &&& self.device@ == r.device
        &&& self.field@ == r.field
        &&& self.at@ == r.at
        &&& self.bytes == store_model::history_cost(r)
    }
}

/// Every stored entry in write order, and the running totals.
struct Books {
    queue: VecDeque<Slot>,
    history_bytes: u64,
    latest_bytes: u64,
    evicted: u64,
}

spec fn slots_track(slots: Seq<Slot>, entries: Seq<ReadModel>) -> bool {
    &&& slots.len() == entries.len()
    &&& forall|i: int| 0 <= i < slots.len() ==> (#[trigger] slots[i]).tracks(entries[i])
}

impl Books {
    /// Whether the books are those of `entries`.
    spec fn keep(self, entries: Seq<ReadModel>) -> bool {
        &&& slots_track(self.queue@, entries)
        &&& self.history_bytes == store_model::history_total(entries)
    }
}

type Latest = dashmap::DashMap<String, OrderedMap<Read>>;

type History = dashmap::DashMap<String, OrderedMap<Series>>;

/// What a map of latest reads holds, by device and field.
pub uninterp spec fn latest_in(m: dashmap::DashMap<String, OrderedMap<Read>>) -> Map<Seq<char>, Map<Seq<char>, ReadModel>>;

/// What a map of recorded reads holds, by device and field.
pub uninterp spec fn history_in(m: dashmap::DashMap<String, OrderedMap<Series>>) -> Map<Seq<char>, Map<Seq<char>, Seq<ReadModel>>>;

/// `DashMap::new`: a map that holds nothing.
#[verifier::external_body]
fn no_latest() -> (r: Latest)
    ensures
        forall|k: Seq<char>| !latest_in(r).contains_key(k),
{
    dashmap::DashMap::new()
}

/// `DashMap::view`: a copy of the value at a key, if there is one.
#[verifier::external_body]
fn latest_at(m: &Latest, device: &str) -> (r: Option<OrderedMap<Read>>)
    ensures
        r is Some <==> latest_in(*m).contains_key(device@),
        r is Some ==> r->0@ == latest_in(*m)[device@],
{
    m.view(device, |_, fields| copy_reads(fields))
}

/// `DashMap::remove`: takes the value at a key out of the map, if there is one.
#[verifier::external_body]
fn take_latest(m: &mut Latest, device: &str) -> (r: Option<OrderedMap<Read>>)
    ensures
        latest_in(*final(m)) == latest_in(*old(m)).remove(device@),
        r is Some <==> latest_in(*old(m)).contains_key(device@),
        r is Some ==> r->0@ == latest_in(*old(m))[device@],
{
    m.remove(device).map(|(_, value)| value)
}

/// `DashMap::insert`: puts a value at a key, in place of what was there.
#[verifier::external_body]
fn put_latest(m: &mut Latest, device: String, fields: OrderedMap<Read>)
    ensures
        latest_in(*final(m)) == latest_in(*old(m)).insert(device@, fields@),
{
    m.insert(device, fields);
}

/// `DashMap::new`: a map that holds nothing.
#[verifier::external_body]
fn no_history() -> (r: History)
    ensures
        forall|k: Seq<char>| !history_in(r).contains_key(k),
{
    dashmap::DashMap::new()
}

/// `DashMap::view`: a copy of one field's reads in the value at a key, if there is
/// a value.
#[verifier::external_body]
fn series_at(m: &History, device: &str, field: &str) -> (r: Option<Vec<Read>>)
    ensures
        r is Some <==> history_in(*m).contains_key(device@),
        r is Some ==> read_models(r->0@) == reads_in(history_in(*m)[device@], field@),
{
    m.view(device, |_, fields| copy_series(fields, field))
}

/// `DashMap::remove`: takes the value at a key out of the map, if there is one.
#[verifier::external_body]
fn take_history(m: &mut History, device: &str) -> (r: Option<OrderedMap<Series>>)
    ensures
        history_in(*final(m)) == history_in(*old(m)).remove(device@),
        r is Some <==> history_in(*old(m)).contains_key(device@),
        r is Some ==> r->0@ == history_in(*old(m))[device@],
{
    m.remove(device).map(|(_, value)| value)
}

/// `DashMap::insert`: puts a value at a key, in place of what was there.
#[verifier::external_body]
fn put_history(m: &mut History, device: String, fields: OrderedMap<Series>)
    ensures
        history_in(*final(m)) == history_in(*old(m)).insert(device@, fields@),
{
    m.insert(device, fields);
}

/// `DashMap::is_empty`: whether the map holds no key.
#[verifier::external_body]
fn holds_no_history(m: &History) -> (r: bool)
    ensures
        r <==> forall|k: Seq<char>| !history_in(*m).contains_key(k),
{
    m.is_empty()
}

// ---- reading what is held --------------------------------------------------

/// The reads of one field, of those that a device's fields hold.
pub open spec fn reads_in(fields: Map<Seq<char>, Seq<ReadModel>>, field: Seq<char>) -> Seq<
    ReadModel,
> {
    if fields.contains_key(field) {
        fields[field]
    } else {
        Seq::empty()
    }
}

/// The reads of one field of one device.
pub open spec fn stored(
    h: Map<Seq<char>, Map<Seq<char>, Seq<ReadModel>>>,
    device: Seq<char>,
    field: Seq<char>,
) -> Seq<ReadModel> {
    if h.contains_key(device) {
        reads_in(h[device], field)
    } else {
        Seq::empty()
    }
}

/// Whether a map of recorded reads holds the series of `entries`, and no key
/// without one.
pub open spec fn files(
    h: Map<Seq<char>, Map<Seq<char>, Seq<ReadModel>>>,
    entries: Seq<ReadModel>,
) -> bool {
    &&& forall|d: Seq<char>, f: Seq<char>| #[trigger]
        stored(h, d, f) == store_model::series(entries, d, f)
    &&& forall|d: Seq<char>, f: Seq<char>|
        h.contains_key(d) && #[trigger] h[d].contains_key(f) ==> h[d][f].len() > 0
    &&& forall|d: Seq<char>| #[trigger]
        h.contains_key(d) ==> exists|f: Seq<char>| #[trigger] h[d].contains_key(f)
}

proof fn read_models_push(s: Seq<Read>, x: Read)
    ensures
        read_models(s.push(x)) == read_models(s).push(x@),
{
    assert(read_models(s.push(x)) =~= read_models(s).push(x@));
}

/// The entries of a map of reads, copied.
fn copy_reads(fields: &OrderedMap<Read>) -> (r: OrderedMap<Read>)
    ensures
        r@ == fields@,
{
    let n: usize = fields.len();
    let mut out: OrderedMap<Read> = OrderedMap::new();
    let mut i: usize = 0;
    while i < n
        invariant
            n == fields.keys().len(),
            i <= n,
            ordered::in_order(fields.keys()),
            forall|k: Seq<char>| #[trigger]
                fields@.contains_key(k) <==> fields.keys().contains(k),
            forall|k: Seq<char>| #[trigger]
                out@.contains_key(k) <==> fields.keys().take(i as int).contains(k),
            forall|k: Seq<char>| #[trigger] out@.contains_key(k) ==> out@[k] == fields@[k],
        decreases n - i,
    {
        let entry = fields.at(i);
        out.insert(entry.0.clone(), entry.1.clone());
        proof {
            let part = fields.keys().take(i as int);
            let next = fields.keys().take(i + 1);
            let key = fields.keys()[i as int];
            assert(next =~= part.push(key));
            assert forall|k: Seq<char>| #[trigger] out@.contains_key(k) <==> next.contains(k) by {
                if part.contains(k) {
                    let x = choose|x: int| 0 <= x < part.len() && part[x] == k;
                    assert(next[x] == k);
                }
                if k == key {
                    assert(next[i as int] == k);
                }
                if next.contains(k) && k != key {
                    let x = choose|x: int| 0 <= x < next.len() && next[x] == k;
                    assert(part[x] == k);
                }
            }
        }
        i = i + 1;
    }
    proof {
        assert(fields.keys().take(n as int) =~= fields.keys());
        assert forall|k: Seq<char>| out@.contains_key(k) <==> fields@.contains_key(k) by {}
        assert(out@ =~= fields@);
    }
    out
}

/// The reads of one field, copied.
fn copy_series(fields: &OrderedMap<Series>, field: &str) -> (r: Vec<Read>)
    ensures
        read_models(r@) == reads_in(fields@, field@),
{
    let mut out: Vec<Read> = Vec::new();
    proof {
        assert(read_models(out@) =~= Seq::<ReadModel>::empty());
    }
    match fields.get(field) {
        Some(series) => {
            let ghost all = series@;
            let mut i: usize = 0;
            proof {
                assert(read_models(out@) =~= all.take(0));
            }
            while i < series.reads.len()
                invariant
                    i <= series.reads.len(),
                    all == read_models(series.reads@),
                    read_models(out@) == all.take(i as int),
                decreases series.reads.len() - i,
            {
                let ghost before = out@;
                let one: Read = series.reads[i].clone();
                out.push(one);
                proof {
                    read_models_push(before, one);
                    assert(all.take(i + 1) =~= all.take(i as int).push(all[i as int]));
                }
                i = i + 1;
            }
            proof {
                assert(all.take(all.len() as int) =~= all);
            }
        },
        None => {},
    }
    out
}

// ---- what a read costs -----------------------------------------------------

fn text_bytes(s: &String) -> (r: u64)
    requires
        store_model::byte_len(s@) <= usize::MAX,
    ensures
        r == store_model::byte_len(s@),
{
    s.as_str().len() as u64
}

/// The bytes of a value that lie outside of it.
fn value_bytes(value: &ReadValue) -> (r: u64)
    requires
        store_model::value_cost(value@) <= usize::MAX,
    ensures
        r == store_model::value_cost(value@),
{
    match value {
        ReadValue::Text(s) => text_bytes(s),
        ReadValue::Version(s) => text_bytes(s),
        ReadValue::Ack(s) => text_bytes(s),
        ReadValue::Mac(mac) => text_bytes(&mac.0),
        ReadValue::Alarms(alarms) => alarms_bytes(alarms),
        ReadValue::Port(_) => 0,
        ReadValue::Number(_) => 0,
        ReadValue::Flag(_) => 0,
        ReadValue::State(_) => 0,
    }
}

proof fn alarms_cost_grows(alarms: Seq<api::AlarmModel>, n: int)
    requires
        0 <= n <= alarms.len(),
    ensures
        store_model::alarms_cost(alarms.take(n)) <= store_model::alarms_cost(alarms),
    decreases alarms.len(),
{
    if n == alarms.len() {
        assert(alarms.take(n) =~= alarms);
    } else {
        assert(alarms.drop_last().take(n) =~= alarms.take(n));
        alarms_cost_grows(alarms.drop_last(), n);
    }
}

fn alarms_bytes(alarms: &Vec<Alarm>) -> (r: u64)
    requires
        store_model::alarms_cost(api::alarms_model(alarms@)) <= usize::MAX,
    ensures
        r == store_model::alarms_cost(api::alarms_model(alarms@)),
{
    let ghost all = api::alarms_model(alarms@);
    let mut total: u64 = 0;
    let mut i: usize = 0;
    while i < alarms.len()
        invariant
            i <= alarms.len(),
            all == api::alarms_model(alarms@),
            store_model::alarms_cost(all) <= usize::MAX,
            total == store_model::alarms_cost(all.take(i as int)),
        decreases alarms.len() - i,
    {
        proof {
            assert(all.take(i + 1).drop_last() =~= all.take(i as int));
            assert(all.take(i + 1).last() == alarms@[i as int]@);
            alarms_cost_grows(all, i + 1);
        }
        total = total + std::mem::size_of::<Alarm>() as u64 + text_bytes(&alarms[i].name)
            + text_bytes(&alarms[i].level);
        i = i + 1;
    }
    proof {
        assert(all.take(all.len() as int) =~= all);
    }
    total
}

/// The bytes of a read, the struct itself counted.
fn read_bytes(read: &Read) -> (r: u64)
    requires
        store_model::read_cost(read@) <= usize::MAX,
    ensures
        r == store_model::read_cost(read@),
{
    std::mem::size_of::<Read>() as u64 + text_bytes(&read.device) + text_bytes(&read.field)
        + text_bytes(&read.at.0) + value_bytes(&read.value)
}

/// What one latest read costs.
pub fn latest_bytes(read: &Read) -> (r: u64)
    requires
        store_model::latest_cost(read@) <= usize::MAX,
    ensures
        r == store_model::latest_cost(read@),
{
    read_bytes(read) + text_bytes(&read.field) + ENTRY_OVERHEAD
}

/// What one recorded read costs.
pub fn history_bytes(read: &Read) -> (r: u64)
    requires
        store_model::history_cost(read@) <= usize::MAX,
    ensures
        r == store_model::history_cost(read@),
{
    read_bytes(read) + std::mem::size_of::<Slot>() as u64 + text_bytes(&read.device) + text_bytes(
        &read.field,
    ) + text_bytes(&read.at.0) + ENTRY_OVERHEAD
}

// ---- the books -------------------------------------------------------------

impl Books {
    /// Takes the oldest entries until the rest fits in `cap`, or none is left.
    fn take_over_budget(&mut self, cap: u64, Ghost(entries): Ghost<Seq<ReadModel>>) -> (taken: Vec<
        Slot,
    >)
        requires
            old(self).keep(entries),
            old(self).latest_bytes + old(self).history_bytes <= u64::MAX,
            old(self).evicted + entries.len() <= u64::MAX,
        ensures
            ({
                let n = store_model::surplus(entries, old(self).latest_bytes as nat, cap as nat);
                &&& n <= entries.len()
                &&& slots_track(taken@, entries.take(n as int))
                &&& final(self).keep(entries.skip(n as int))
                &&& final(self).latest_bytes == old(self).latest_bytes
                &&& final(self).evicted == old(self).evicted + n
            }),
    {
        let mut taken: Vec<Slot> = Vec::new();
        let ghost floor = self.latest_bytes as nat;
        let ghost start = self.evicted;
        let ghost whole = self.history_bytes;
        let ghost mut n: int = 0;
        proof {
            assert(entries.skip(0) =~= entries);
            assert(slots_track(taken@, entries.take(0)));
        }
        loop
            invariant
                0 <= n <= entries.len(),
                floor == old(self).latest_bytes,
                start == old(self).evicted,
                self.latest_bytes == floor,
                floor + whole <= u64::MAX,
                self.history_bytes <= whole,
                start + entries.len() <= u64::MAX,
                self.evicted == start + n,
                self.keep(entries.skip(n)),
                slots_track(taken@, entries.take(n)),
                store_model::surplus(entries, floor, cap as nat) == n + store_model::surplus(
                    entries.skip(n),
                    floor,
                    cap as nat,
                ),
            decreases entries.len() - n,
        {
            let ghost rest = entries.skip(n);
            if self.latest_bytes + self.history_bytes <= cap {
                return taken;
            }
            match self.queue.pop_front() {
                None => {
                    return taken;
                },
                Some(slot) => {
                    proof {
                        assert(slot.tracks(rest[0]));
                        store_model::total_of_remove(rest, 0);
                        assert(rest.remove(0) =~= rest.drop_first());
                        assert(rest.drop_first() =~= entries.skip(n + 1));
                    }
                    self.history_bytes = self.history_bytes - slot.bytes;
                    self.evicted = self.evicted + 1;
                    let ghost before = taken@;
                    taken.push(slot);
                    proof {
                        assert forall|i: int| 0 <= i < taken@.len() implies (
                        #[trigger] taken@[i]).tracks(entries.take(n + 1)[i]) by {
                            if i < before.len() {
                                assert(before[i].tracks(entries.take(n)[i]));
                            }
                        }
                        assert forall|i: int| 0 <= i < self.queue@.len() implies (
                        #[trigger] self.queue@[i]).tracks(entries.skip(n + 1)[i]) by {
                            assert(entries.skip(n + 1)[i] == rest[i + 1]);
                        }
                        n = n + 1;
                    }
                },
            }
        }
    }

    /// Takes every entry stamped before `before`.
    fn take_expired(&mut self, before: &Timestamp, Ghost(entries): Ghost<Seq<ReadModel>>) -> (taken:
        Vec<Slot>)
        requires
            old(self).keep(entries),
        ensures
            slots_track(taken@, entries.filter(store_model::expired(before@))),
            final(self).keep(entries.filter(store_model::current(before@))),
            final(self).latest_bytes == old(self).latest_bytes,
            final(self).evicted == old(self).evicted,
    {
        let mut taken: Vec<Slot> = Vec::new();
        let mut kept: VecDeque<Slot> = VecDeque::new();
        let mut queue: VecDeque<Slot> = VecDeque::new();
        std::mem::swap(&mut queue, &mut self.queue);
        let ghost gone = store_model::expired(before@);
        let ghost stays = store_model::current(before@);
        let ghost mut n: int = 0;
        proof {
            reveal(Seq::filter);
            assert(entries.take(0) =~= Seq::<ReadModel>::empty());
            assert(entries.skip(0) =~= entries);
            assert(entries.take(0).filter(stays) + entries.skip(0) =~= entries);
        }
        loop
            invariant
                0 <= n <= entries.len(),
                gone == store_model::expired(before@),
                stays == store_model::current(before@),
                self.latest_bytes == old(self).latest_bytes,
                self.evicted == old(self).evicted,
                slots_track(queue@, entries.skip(n)),
                slots_track(taken@, entries.take(n).filter(gone)),
                slots_track(kept@, entries.take(n).filter(stays)),
                self.history_bytes == store_model::history_total(
                    entries.take(n).filter(stays) + entries.skip(n),
                ),
            decreases entries.len() - n,
        {
            let ghost rest = entries.skip(n);
            let ghost done = entries.take(n);
            match queue.pop_front() {
                None => {
                    self.queue = kept;
                    proof {
                        assert(entries.take(n) =~= entries);
                        assert(entries.filter(stays) + entries.skip(n) =~= entries.filter(stays));
                    }
                    return taken;
                },
                Some(slot) => {
                    proof {
                        reveal(Seq::filter);
                        assert(slot.tracks(rest[0]));
                        assert(rest[0] == entries[n]);
                        assert(entries.take(n + 1).drop_last() =~= done);
                        assert(entries.take(n + 1).last() == entries[n]);
                        assert forall|i: int| 0 <= i < queue@.len() implies (
                        #[trigger] queue@[i]).tracks(entries.skip(n + 1)[i]) by {
                            assert(entries.skip(n + 1)[i] == rest[i + 1]);
                        }
                    }
                    if slot.at.precedes(before) {
                        proof {
                            let all = done.filter(stays) + rest;
                            let p = done.filter(stays).len() as int;
                            assert(all[p] == entries[n]);
                            store_model::total_of_remove(all, p);
                            assert(all.remove(p) =~= done.filter(stays) + entries.skip(n + 1));
                        }
                        self.history_bytes = self.history_bytes - slot.bytes;
                        let ghost had = taken@;
                        taken.push(slot);
                        proof {
                            let now = entries.take(n + 1).filter(gone);
                            assert(now == done.filter(gone).push(entries[n]));
                            assert forall|i: int| 0 <= i < taken@.len() implies (
                            #[trigger] taken@[i]).tracks(now[i]) by {
                                if i < had.len() {
                                    assert(had[i].tracks(done.filter(gone)[i]));
                                }
                            }
                        }
                    } else {
                        proof {
                            assert(done.filter(stays) + rest =~= done.filter(stays).push(entries[n])
                                + entries.skip(n + 1));
                        }
                        let ghost had = kept@;
                        kept.push_back(slot);
                        proof {
                            let now = entries.take(n + 1).filter(stays);
                            assert(now == done.filter(stays).push(entries[n]));
                            assert forall|i: int| 0 <= i < kept@.len() implies (
                            #[trigger] kept@[i]).tracks(now[i]) by {
                                if i < had.len() {
                                    assert(had[i].tracks(done.filter(stays)[i]));
                                }
                            }
                        }
                    }
                    proof {
                        n = n + 1;
                    }
                },
            }
        }
    }
}

impl Books {
    /// Takes out every entry of a device, and says how many there were.
    fn take_device(&mut self, device: &str, Ghost(entries): Ghost<Seq<ReadModel>>) -> (n: usize)
        requires
            old(self).keep(entries),
        ensures
            n == entries.filter(store_model::of_device(device@)).len(),
            final(self).keep(entries.filter(store_model::elsewhere(device@))),
            final(self).latest_bytes == old(self).latest_bytes,
            final(self).evicted == old(self).evicted,
    {
        let mut kept: VecDeque<Slot> = VecDeque::new();
        let mut queue: VecDeque<Slot> = VecDeque::new();
        std::mem::swap(&mut queue, &mut self.queue);
        let ghost gone = store_model::of_device(device@);
        let ghost stays = store_model::elsewhere(device@);
        let total: usize = queue.len();
        let mut taken: usize = 0;
        let ghost mut n: int = 0;
        proof {
            reveal(Seq::filter);
            assert(entries.take(0) =~= Seq::<ReadModel>::empty());
            assert(entries.skip(0) =~= entries);
            assert(entries.take(0).filter(stays) + entries.skip(0) =~= entries);
        }
        loop
            invariant
                0 <= n <= entries.len(),
                total == entries.len(),
                gone == store_model::of_device(device@),
                stays == store_model::elsewhere(device@),
                self.latest_bytes == old(self).latest_bytes,
                self.evicted == old(self).evicted,
                slots_track(queue@, entries.skip(n)),
                taken <= n,
                taken == entries.take(n).filter(gone).len(),
                slots_track(kept@, entries.take(n).filter(stays)),
                self.history_bytes == store_model::history_total(
                    entries.take(n).filter(stays) + entries.skip(n),
                ),
            decreases entries.len() - n,
        {
            let ghost rest = entries.skip(n);
            let ghost done = entries.take(n);
            match queue.pop_front() {
                None => {
                    self.queue = kept;
                    proof {
                        assert(entries.take(n) =~= entries);
                        assert(entries.filter(stays) + entries.skip(n) =~= entries.filter(stays));
                    }
                    return taken;
                },
                Some(slot) => {
                    proof {
                        reveal(Seq::filter);
                        assert(slot.tracks(rest[0]));
                        assert(rest[0] == entries[n]);
                        assert(entries.take(n + 1).drop_last() =~= done);
                        assert(entries.take(n + 1).last() == entries[n]);
                        assert forall|i: int| 0 <= i < queue@.len() implies (
                        #[trigger] queue@[i]).tracks(entries.skip(n + 1)[i]) by {
                            assert(entries.skip(n + 1)[i] == rest[i + 1]);
                        }
                    }
                    if same(slot.device.as_str(), device) {
                        proof {
                            let all = done.filter(stays) + rest;
                            let p = done.filter(stays).len() as int;
                            assert(all[p] == entries[n]);
                            store_model::total_of_remove(all, p);
                            assert(all.remove(p) =~= done.filter(stays) + entries.skip(n + 1));
                        }
                        self.history_bytes = self.history_bytes - slot.bytes;
                        taken = taken + 1;
                    } else {
                        proof {
                            assert(done.filter(stays) + rest =~= done.filter(stays).push(entries[n])
                                + entries.skip(n + 1));
                        }
                        let ghost had = kept@;
                        kept.push_back(slot);
                        proof {
                            let now = entries.take(n + 1).filter(stays);
                            assert(now == done.filter(stays).push(entries[n]));
                            assert forall|i: int| 0 <= i < kept@.len() implies (
                            #[trigger] kept@[i]).tracks(now[i]) by {
                                if i < had.len() {
                                    assert(had[i].tracks(done.filter(stays)[i]));
                                }
                            }
                        }
                    }
                    proof {
                        n = n + 1;
                    }
                },
            }
        }
    }
}

// ---- the history -----------------------------------------------------------

/// Appends a read to its series.
fn append_read(history: &mut History, r: Read, Ghost(entries): Ghost<Seq<ReadModel>>)
    requires
        files(history_in(*old(history)), entries),
    ensures
        files(history_in(*final(history)), entries.push(r@)),
{
    let ghost h = history_in(*history);
    let ghost d = r.device@;
    let ghost f = r.field@;
    let ghost model = r@;
    let device: String = r.device.clone();
    let field: String = r.field.clone();
    let mut fields: OrderedMap<Series> = match take_history(history, device.as_str()) {
        Some(fields) => fields,
        None => OrderedMap::new(),
    };
    let mut series: Series = match fields.take(field.as_str()) {
        Some(series) => series,
        None => Series { reads: VecDeque::new() },
    };
    let ghost had = series;
    proof {
        assert(had@ =~= stored(h, d, f));
    }
    series.reads.push_back(r);
    proof {
        read_models_push(had.reads@, r);
    }
    let ghost now = series@;
    fields.insert(field, series);
    let ghost inner = fields@;
    put_history(history, device, fields);
    proof {
        let n = history_in(*history);
        assert(n =~= h.insert(d, inner));
        let next = entries.push(model);
        assert(inner.contains_key(f) && inner[f] == now);
        assert forall|x: Seq<char>, y: Seq<char>| #[trigger]
            stored(n, x, y) == store_model::series(next, x, y) by {
            store_model::series_of_push(entries, model, x, y);
            assert(stored(h, x, y) == store_model::series(entries, x, y));
        }
        assert forall|x: Seq<char>, y: Seq<char>|
            n.contains_key(x) && #[trigger] n[x].contains_key(y) implies n[x][y].len() > 0 by {
            if x == d && y != f {
                assert(h.contains_key(d) && h[d].contains_key(y));
            } else if x != d {
                assert(h[x].contains_key(y));
            }
        }
        assert forall|x: Seq<char>| #[trigger] n.contains_key(x) implies exists|y: Seq<char>|
         #[trigger] n[x].contains_key(y) by {
            if x == d {
                assert(n[x].contains_key(f));
            } else {
                assert(h.contains_key(x));
                let y = choose|y: Seq<char>| #[trigger] h[x].contains_key(y);
                assert(n[x].contains_key(y));
            }
        }
    }
}

/// Takes one entry out of its series: the oldest, or the oldest stamped before
/// `before`. A series that empties is dropped, and so is a device without series.
fn drop_entry(
    history: &mut History,
    slot: &Slot,
    before: Option<&Timestamp>,
    Ghost(entries): Ghost<Seq<ReadModel>>,
    Ghost(p): Ghost<int>,
)
    requires
        files(history_in(*old(history)), entries),
        0 <= p < entries.len(),
        slot.tracks(entries[p]),
        before is None ==> p == 0,
        before is Some ==> text::lex_lt(entries[p].at, before->0@) && forall|q: int|
            0 <= q < p ==> !text::lex_lt((#[trigger] entries[q]).at, before->0@),
    ensures
        files(history_in(*final(history)), entries.remove(p)),
{
    let ghost h = history_in(*history);
    let ghost d = slot.device@;
    let ghost f = slot.field@;
    let ghost whole = store_model::series(entries, d, f);
    let ghost k = store_model::rank(entries, p);
    proof {
        store_model::series_of_remove(entries, p, d, f);
        assert(stored(h, d, f) == whole);
        assert(whole.len() > 0);
    }
    let mut fields: OrderedMap<Series> = match take_history(history, slot.device.as_str()) {
        Some(fields) => fields,
        None => {
            return ;
        },
    };
    let mut series: Series = match fields.take(slot.field.as_str()) {
        Some(series) => series,
        None => {
            return ;
        },
    };
    let ghost had = series;
    proof {
        assert(had@ == whole);
        if before is None {
            assert(entries.take(0) =~= Seq::<ReadModel>::empty());
            reveal(Seq::filter);
            assert(k == 0);
        } else {
            rank_is_first(entries, p, before->0@);
        }
    }
    let mut i: usize = 0;
    if let Some(cut) = before {
        while i < series.reads.len() && !series.reads[i].at.precedes(cut)
            invariant
                series@ == whole,
                whole == read_models(series.reads@),
                k < whole.len(),
                text::lex_lt(whole[k as int].at, cut@),
                i <= k,
            decreases series.reads.len() - i,
        {
            proof {
                assert(whole[i as int] == series.reads@[i as int]@);
                assert(i != k);
            }
            i = i + 1;
        }
        proof {
            assert(whole[i as int] == series.reads@[i as int]@);
            assert(i == k);
        }
    }
    let _gone: Option<Read> = series.reads.remove(i);
    proof {
        assert(series@ =~= whole.remove(k as int));
    }
    let ghost left = series@;
    if series.reads.len() > 0 {
        fields.insert(slot.field.clone(), series);
    }
    let ghost inner = fields@;
    proof {
        assert(left.len() == whole.len() - 1);
        if left.len() == 0 {
            assert(inner =~= h[d].remove(f));
        } else {
            assert(inner =~= h[d].insert(f, left));
        }
    }
    let count: usize = fields.len();
    let ghost keys = fields.keys();
    if count > 0 {
        proof {
            assert(fields.keys().contains(fields.keys()[0]));
            assert(inner.contains_key(fields.keys()[0]));
        }
        put_history(history, slot.device.clone(), fields);
    } else {
        proof {
            assert forall|y: Seq<char>| !inner.contains_key(y) by {
                assert(inner.contains_key(y) <==> fields.keys().contains(y));
            }
        }
    }
    proof {
        let n = history_in(*history);
        if count > 0 {
            assert(n =~= h.insert(d, inner));
        } else {
            assert(n =~= h.remove(d));
        }
        let next = entries.remove(p);
        assert forall|x: Seq<char>, y: Seq<char>| #[trigger]
            stored(n, x, y) == store_model::series(next, x, y) by {
            store_model::series_of_remove(entries, p, x, y);
            assert(stored(h, x, y) == store_model::series(entries, x, y));
            if x == d && y == f {
                assert(left =~= stored(n, x, y));
            }
        }
        assert forall|x: Seq<char>, y: Seq<char>|
            n.contains_key(x) && #[trigger] n[x].contains_key(y) implies n[x][y].len() > 0 by {
            if x == d && y != f {
                assert(h[d].contains_key(y));
            } else if x != d {
                assert(h[x].contains_key(y));
            }
        }
        assert forall|x: Seq<char>| #[trigger] n.contains_key(x) implies exists|y: Seq<char>|
         #[trigger] n[x].contains_key(y) by {
            if x != d {
                assert(h.contains_key(x));
                let y = choose|y: Seq<char>| #[trigger] h[x].contains_key(y);
                assert(n[x].contains_key(y));
            } else {
                assert(n[x].contains_key(keys[0]));
            }
        }
    }
}

/// The first expired entry is the first expired one of its series.
proof fn rank_is_first(entries: Seq<ReadModel>, p: int, before: Seq<char>)
    requires
        0 <= p < entries.len(),
        text::lex_lt(entries[p].at, before),
        forall|q: int| 0 <= q < p ==> !text::lex_lt((#[trigger] entries[q]).at, before),
    ensures
        ({
            let whole = store_model::series(entries, entries[p].device, entries[p].field);
            let k = store_model::rank(entries, p);
            &&& k < whole.len()
            &&& whole[k as int] == entries[p]
            &&& forall|j: int| 0 <= j < k ==> !text::lex_lt((#[trigger] whole[j]).at, before)
        }),
{
    let d = entries[p].device;
    let f = entries[p].field;
    let keep = store_model::of_series(d, f);
    store_model::series_of_remove(entries, p, d, f);
    store_model::filter_split(entries, p, keep);
    let whole = store_model::series(entries, d, f);
    let head = entries.take(p);
    assert forall|j: int| 0 <= j < store_model::rank(entries, p) implies !text::lex_lt(
        (#[trigger] whole[j]).at,
        before,
    ) by {
        assert(whole[j] == head.filter(keep)[j]);
        store_model::filter_member(head, keep, j);
        let q = choose|q: int| 0 <= q < head.len() && #[trigger] head[q] == head.filter(keep)[j];
        assert(head[q] == entries[q]);
    }
}

/// Takes the oldest entries out of their series.
fn drop_front(history: &mut History, slots: &Vec<Slot>, Ghost(entries): Ghost<Seq<ReadModel>>)
    requires
        files(history_in(*old(history)), entries),
        slots.len() <= entries.len(),
        slots_track(slots@, entries.take(slots.len() as int)),
    ensures
        files(history_in(*final(history)), entries.skip(slots.len() as int)),
{
    let mut i: usize = 0;
    proof {
        assert(entries.skip(0) =~= entries);
    }
    while i < slots.len()
        invariant
            i <= slots.len() <= entries.len(),
            slots_track(slots@, entries.take(slots.len() as int)),
            files(history_in(*history), entries.skip(i as int)),
        decreases slots.len() - i,
    {
        let ghost rest = entries.skip(i as int);
        proof {
            assert(slots@[i as int].tracks(entries.take(slots.len() as int)[i as int]));
            assert(rest[0] == entries[i as int]);
            assert(rest.remove(0) =~= entries.skip(i + 1));
        }
        drop_entry(history, &slots[i], None, Ghost(rest), Ghost(0));
        i = i + 1;
    }
}

/// The position of the first expired entry.
proof fn first_expired(entries: Seq<ReadModel>, before: Seq<char>) -> (p: int)
    requires
        entries.filter(store_model::expired(before)).len() > 0,
    ensures
        0 <= p < entries.len(),
        text::lex_lt(entries[p].at, before),
        forall|q: int| 0 <= q < p ==> !text::lex_lt((#[trigger] entries[q]).at, before),
        entries.filter(store_model::expired(before))[0] == entries[p],
        entries.remove(p).filter(store_model::expired(before)) == entries.filter(
            store_model::expired(before),
        ).drop_first(),
        entries.remove(p).filter(store_model::current(before)) == entries.filter(
            store_model::current(before),
        ),
    decreases entries.len(),
{
    let gone = store_model::expired(before);
    let stays = store_model::current(before);
    let head = entries.drop_last();
    reveal(Seq::filter);
    let p = if head.filter(gone).len() > 0 {
        let p = first_expired(head, before);
        assert forall|q: int| 0 <= q < p implies !text::lex_lt((#[trigger] entries[q]).at, before) by {
            assert(head[q] == entries[q]);
        }
        p
    } else {
        let p = entries.len() - 1;
        assert forall|q: int| 0 <= q < p implies !text::lex_lt((#[trigger] entries[q]).at, before) by {
            store_model::filter_empty(head, gone, q);
            assert(head[q] == entries[q]);
        }
        p
    };
    store_model::filter_split(entries, p, gone);
    store_model::filter_split(entries, p, stays);
    let a = entries.take(p);
    assert forall|q: int| 0 <= q < a.len() implies !gone(#[trigger] a[q]) by {
        assert(a[q] == entries[q]);
    }
    store_model::filter_none(a, gone);
    let b = entries.skip(p + 1).filter(gone);
    assert(a.filter(gone) + seq![entries[p]] + b =~= seq![entries[p]] + b);
    assert(a.filter(gone) + b =~= b);
    assert((seq![entries[p]] + b).drop_first() =~= b);
    let c = entries.skip(p + 1).filter(stays);
    assert(a.filter(stays) + Seq::<ReadModel>::empty() + c =~= a.filter(stays) + c);
    p
}

/// Takes the expired entries out of their series.
fn drop_expired(
    history: &mut History,
    slots: &Vec<Slot>,
    before: &Timestamp,
    Ghost(entries): Ghost<Seq<ReadModel>>,
)
    requires
        files(history_in(*old(history)), entries),
        slots_track(slots@, entries.filter(store_model::expired(before@))),
    ensures
        files(history_in(*final(history)), entries.filter(store_model::current(before@))),
{
    let ghost gone = store_model::expired(before@);
    let ghost stays = store_model::current(before@);
    let ghost mut cur = entries;
    let ghost all = entries.filter(gone);
    let mut i: usize = 0;
    proof {
        assert(all.skip(0) =~= all);
    }
    while i < slots.len()
        invariant
            i <= slots.len(),
            gone == store_model::expired(before@),
            stays == store_model::current(before@),
            slots_track(slots@, all),
            cur.filter(gone) == all.skip(i as int),
            cur.filter(stays) == entries.filter(stays),
            files(history_in(*history), cur),
        decreases slots.len() - i,
    {
        let ghost p: int;
        proof {
            assert(slots@[i as int].tracks(all[i as int]));
            assert(all.skip(i as int)[0] == all[i as int]);
            p = first_expired(cur, before@);
        }
        drop_entry(history, &slots[i], Some(before), Ghost(cur), Ghost(p));
        proof {
            cur = cur.remove(p);
            assert(all.skip(i as int).drop_first() =~= all.skip(i + 1));
        }
        i = i + 1;
    }
    proof {
        assert(all.skip(slots.len() as int).len() == 0);
        assert forall|q: int| 0 <= q < cur.len() implies stays(#[trigger] cur[q]) by {
            store_model::filter_empty(cur, gone, q);
        }
        store_model::filter_all(cur, stays);
    }
}

// ---- the store -------------------------------------------------------------

/// The latest reads of a fleet, by device and field at once.
pub open spec fn flat(nested: Map<Seq<char>, Map<Seq<char>, ReadModel>>) -> Map<
    (Seq<char>, Seq<char>),
    ReadModel,
> {
    Map::new(
        |k: (Seq<char>, Seq<char>)| nested.contains_key(k.0) && nested[k.0].contains_key(k.1),
        |k: (Seq<char>, Seq<char>)| nested[k.0][k.1],
    )
}

/// A store of reads.
pub struct MemoryStore {
    latest: Latest,
    history: History,
    books: Books,
    budget: Option<u64>,
    entries: Ghost<Seq<ReadModel>>,
}

impl View for MemoryStore {
    type V = StoreModel;

    closed spec fn view(&self) -> StoreModel {
        StoreModel {
            latest: flat(latest_in(self.latest)),
            entries: self.entries@,
            budget: self.budget,
            evicted: self.books.evicted as nat,
        }
    }
}

impl Default for MemoryStore {
    /// A store without a budget.
    fn default() -> (r: Self)
        ensures
            r.wf(),
            r@ == empty_store(None),
    {
        MemoryStore::with_budget(None)
    }
}

/// A store that holds nothing.
pub open spec fn empty_store(budget: Option<u64>) -> StoreModel {
    StoreModel { latest: Map::empty(), entries: Seq::empty(), budget, evicted: 0 }
}

impl MemoryStore {
    pub closed spec fn wf(&self) -> bool {
        &&& self@.filed()
        &&& self.books.keep(self.entries@)
        &&& self.books.latest_bytes == store_model::latest_total(self@.latest)
        &&& files(history_in(self.history), self.entries@)
    }

    /// A store that keeps within `budget` bytes, or that keeps everything.
    pub fn with_budget(budget: Option<u64>) -> (r: Self)
        ensures
            r.wf(),
            r@ == empty_store(budget),
    {
        let r = MemoryStore {
            latest: no_latest(),
            history: no_history(),
            books: Books {
                queue: VecDeque::new(),
                history_bytes: 0,
                latest_bytes: 0,
                evicted: 0,
            },
            budget,
            entries: Ghost(Seq::empty()),
        };
        proof {
            assert(r@.latest =~= Map::<(Seq<char>, Seq<char>), ReadModel>::empty());
            assert(r@.latest.dom() =~= Set::<(Seq<char>, Seq<char>)>::empty());
            reveal(Seq::filter);
            assert forall|d: Seq<char>, f: Seq<char>| #[trigger]
                stored(history_in(r.history), d, f) == store_model::series(r.entries@, d, f) by {
                assert(store_model::series(r.entries@, d, f) =~= Seq::<ReadModel>::empty());
            }
        }
        r
    }

    /// Files a read as the latest of its field, and gives the cost of the read
    /// that it displaced.
    fn file_latest(&mut self, r: &Read) -> (displaced: u64)
        requires
            old(self)@.filed(),
            store_model::latest_total(old(self)@.latest) <= usize::MAX,
        ensures
            final(self)@ == (StoreModel {
                latest: old(self)@.latest.insert((r@.device, r@.field), r@),
                ..old(self)@
            }),
            final(self).history == old(self).history,
            final(self).books == old(self).books,
            final(self).entries == old(self).entries,
            ({
                let k = (r@.device, r@.field);
                displaced == if old(self)@.latest.contains_key(k) {
                    store_model::latest_cost(old(self)@.latest[k])
                } else {
                    0
                }
            }),
    {
        let ghost nested = latest_in(self.latest);
        let ghost m = self@;
        let ghost k = (r@.device, r@.field);
        let mut fields: OrderedMap<Read> = match take_latest(&mut self.latest, r.device.as_str()) {
            Some(fields) => fields,
            None => OrderedMap::new(),
        };
        let displaced: u64 = match fields.get(r.field.as_str()) {
            Some(old_read) => {
                proof {
                    assert(m.latest.contains_key(k));
                    assert(m.latest[k] == old_read@);
                    store_model::latest_total_of_remove(m.latest, k);
                }
                latest_bytes(old_read)
            },
            None => 0,
        };
        fields.insert(r.field.clone(), r.clone());
        let ghost inner = fields@;
        put_latest(&mut self.latest, r.device.clone(), fields);
        proof {
            let n = latest_in(self.latest);
            assert(n =~= nested.insert(r@.device, inner));
            assert(flat(n) =~= flat(nested).insert(k, r@));
            assert(self@ =~= (StoreModel { latest: m.latest.insert(k, r@), ..m }));
        }
        displaced
    }

    /// Records a read as the latest of its field and as the newest of its series,
    /// and drops the oldest entries until the store is within its budget.
    pub fn upsert_latest(&mut self, r: Read) -> (result: Result<(), WriteError>)
        requires
            old(self).wf(),
            old(self)@.used() + store_model::latest_cost(r@) + store_model::history_cost(r@)
                <= usize::MAX,
            old(self)@.evicted + old(self)@.entries.len() < u64::MAX,
        ensures
            final(self).wf(),
            final(self)@ == store_model::upsert_state(old(self)@, r@),
            result is Ok,
    {
        let ghost m = self@;
        let ghost model = r@;
        let ghost k = (model.device, model.field);
        let slot: Slot = Slot {
            device: r.device.clone(),
            field: r.field.clone(),
            at: r.at.clone(),
            bytes: history_bytes(&r),
        };
        let added: u64 = latest_bytes(&r);
        let displaced: u64 = self.file_latest(&r);
        append_read(&mut self.history, r, Ghost(m.entries));
        let ghost latest = m.latest.insert(k, model);
        let ghost entries = m.entries.push(model);
        proof {
            store_model::latest_total_of_insert(m.latest, k, model);
            store_model::total_of_push(m.entries, model);
            store_model::upsert_keeps_filed(m, model);
        }
        self.books.latest_bytes = self.books.latest_bytes + added - displaced;
        self.books.history_bytes = self.books.history_bytes + slot.bytes;
        let ghost had = self.books.queue@;
        self.books.queue.push_back(slot);
        proof {
            assert forall|i: int| 0 <= i < self.books.queue@.len() implies (
            #[trigger] self.books.queue@[i]).tracks(entries[i]) by {
                if i < had.len() {
                    assert(had[i].tracks(m.entries[i]));
                }
            }
            assert(self.books.keep(entries));
            assert(self.books.latest_bytes == store_model::latest_total(latest));
        }
        match self.budget {
            Some(cap) => {
                let evicted: Vec<Slot> = self.books.take_over_budget(cap, Ghost(entries));
                drop_front(&mut self.history, &evicted, Ghost(entries));
                proof {
                    let n = store_model::surplus(
                        entries,
                        store_model::latest_total(latest),
                        cap as nat,
                    );
                    assert(evicted.len() == n);
                    self.entries = Ghost(entries.skip(n as int));
                }
            },
            None => {
                proof {
                    assert(entries.skip(0) =~= entries);
                    self.entries = Ghost(entries);
                }
            },
        }
        proof {
            assert(self@ =~= store_model::upsert_state(m, model));
        }
        Ok(())
    }

    /// Drops every recorded read stamped before `before`, and says what went. A
    /// read stamped exactly then is kept, and so is every latest read.
    pub fn prune(&mut self, before: &Timestamp) -> (result: Result<Swept, WriteError>)
        requires
            old(self).wf(),
        ensures
            final(self).wf(),
            final(self)@ == store_model::prune_state(old(self)@, before@),
            result is Ok,
            ({
                let gone = old(self)@.entries.filter(store_model::expired(before@));
                &&& result->Ok_0.entries == gone.len()
                &&& result->Ok_0.bytes == store_model::history_total(gone)
            }),
    {
        let ghost m = self@;
        let ghost gone = m.entries.filter(store_model::expired(before@));
        let expired: Vec<Slot> = self.books.take_expired(before, Ghost(m.entries));
        let mut bytes: u64 = 0;
        let mut i: usize = 0;
        proof {
            filtered_cost(m.entries, store_model::expired(before@));
        }
        while i < expired.len()
            invariant
                i <= expired.len(),
                slots_track(expired@, gone),
                store_model::history_total(gone) <= u64::MAX,
                bytes == store_model::history_total(gone.take(i as int)),
            decreases expired.len() - i,
        {
            proof {
                assert(expired@[i as int].tracks(gone[i as int]));
                assert(gone.take(i + 1) =~= gone.take(i as int).push(gone[i as int]));
                store_model::total_of_push(gone.take(i as int), gone[i as int]);
                total_grows(gone, i + 1);
            }
            bytes = bytes + expired[i].bytes;
            i = i + 1;
        }
        proof {
            assert(gone.take(gone.len() as int) =~= gone);
        }
        drop_expired(&mut self.history, &expired, before, Ghost(m.entries));
        proof {
            self.entries = Ghost(m.entries.filter(store_model::current(before@)));
            assert(self@ =~= store_model::prune_state(m, before@));
        }
        Ok(Swept { entries: expired.len() as u64, bytes })
    }

    /// Holds the store to another budget, and says how many entries had to go for
    /// it at once.
    pub fn set_budget(&mut self, budget: Option<u64>) -> (r: usize)
        requires
            old(self).wf(),
            old(self)@.used() <= u64::MAX,
            old(self)@.evicted + old(self)@.entries.len() <= u64::MAX,
        ensures
            final(self).wf(),
            final(self)@ == store_model::budget_state(old(self)@, budget),
            r == final(self)@.evicted - old(self)@.evicted,
    {
        let ghost m = self@;
        let ghost entries = m.entries;
        self.budget = budget;
        match budget {
            Some(cap) => {
                let evicted: Vec<Slot> = self.books.take_over_budget(cap, Ghost(entries));
                drop_front(&mut self.history, &evicted, Ghost(entries));
                proof {
                    self.entries = Ghost(entries.skip(evicted.len() as int));
                    assert(self@ =~= store_model::budget_state(m, budget));
                }
                evicted.len()
            },
            None => {
                proof {
                    assert(entries.skip(0) =~= entries);
                    assert(self@ =~= store_model::budget_state(m, budget));
                }
                0
            },
        }
    }

    /// Takes the latest reads of a device out, and gives what they cost.
    fn drop_latest(&mut self, device: &str) -> (bytes: u64)
        requires
            old(self)@.filed(),
            store_model::latest_total(old(self)@.latest) <= usize::MAX,
        ensures
            final(self)@ == (StoreModel {
                latest: store_model::forget_state(old(self)@, device@).latest,
                ..old(self)@
            }),
            final(self).history == old(self).history,
            final(self).books == old(self).books,
            final(self).entries == old(self).entries,
            final(self)@.filed(),
            bytes + store_model::latest_total(final(self)@.latest) == store_model::latest_total(
                old(self)@.latest,
            ),
    {
        let ghost nested = latest_in(self.latest);
        let ghost m = self@;
        let ghost after = store_model::forget_state(m, device@).latest;
        let taken: Option<OrderedMap<Read>> = take_latest(&mut self.latest, device);
        let ghost done = self@;
        proof {
            assert(flat(latest_in(self.latest)) =~= after);
            assert(done =~= (StoreModel { latest: after, ..m }));
        }
        let mut bytes: u64 = 0;
        match taken {
            Some(fields) => {
                let ghost keys = fields.keys();
                let n: usize = fields.len();
                let mut i: usize = 0;
                proof {
                    ordered::in_order_distinct(keys);
                    assert(keys.take(0) =~= Seq::<Seq<char>>::empty());
                }
                while i < n
                    invariant
                        self@ == done,
                        self.history == old(self).history,
                        self.books == old(self).books,
                        self.entries == old(self).entries,
                        m.filed(),
                        store_model::latest_total(m.latest) <= usize::MAX,
                        nested.contains_key(device@),
                        nested[device@] == fields@,
                        m.latest == flat(nested),
                        keys == fields.keys(),
                        keys.no_duplicates(),
                        n == keys.len(),
                        i <= n,
                        bytes + store_model::latest_total(
                            store_model::without_fields(m.latest, device@, keys.take(i as int)),
                        ) == store_model::latest_total(m.latest),
                    decreases n - i,
                {
                    let entry = fields.at(i);
                    proof {
                        let part = keys.take(i as int);
                        let next = keys.take(i + 1);
                        let k = (device@, keys[i as int]);
                        let held = store_model::without_fields(m.latest, device@, part);
                        assert(next.drop_last() =~= part);
                        assert(next.last() == keys[i as int]);
                        store_model::without_fields_holds(m.latest, device@, part);
                        assert(!part.contains(k.1)) by {
                            if part.contains(k.1) {
                                let x = choose|x: int| 0 <= x < part.len() && part[x] == k.1;
                                assert(keys[x] == keys[i as int]);
                            }
                        }
                        assert(m.latest.contains_key(k));
                        assert(held.contains_key(k));
                        assert(held[k] == entry.1@);
                        store_model::latest_total_of_remove(held, k);
                    }
                    bytes = bytes + latest_bytes(entry.1);
                    i = i + 1;
                }
                proof {
                    assert(keys.take(n as int) =~= keys);
                    store_model::without_fields_holds(m.latest, device@, keys);
                    assert(store_model::without_fields(m.latest, device@, keys) =~= after);
                }
            },
            None => {
                proof {
                    assert(after =~= m.latest);
                }
            },
        }
        bytes
    }

    /// Drops every read of a device, the latest ones too, and says how many
    /// recorded reads went. Every other device's reads stay.
    pub fn forget_device(&mut self, device: &str) -> (r: usize)
        requires
            old(self).wf(),
            old(self)@.used() <= usize::MAX,
        ensures
            final(self).wf(),
            final(self)@ == store_model::forget_state(old(self)@, device@),
            r == old(self)@.entries.filter(store_model::of_device(device@)).len(),
            final(self)@.used() <= old(self)@.used(),
    {
        let ghost m = self@;
        let ghost h = history_in(self.history);
        let freed: u64 = self.drop_latest(device);
        self.books.latest_bytes = self.books.latest_bytes - freed;
        let gone: usize = self.books.take_device(device, Ghost(m.entries));
        let _dropped: Option<OrderedMap<Series>> = take_history(&mut self.history, device);
        proof {
            let entries = m.entries.filter(store_model::elsewhere(device@));
            let left = history_in(self.history);
            filtered_cost(m.entries, store_model::elsewhere(device@));
            assert(left == h.remove(device@));
            assert forall|d: Seq<char>, f: Seq<char>| #[trigger]
                stored(left, d, f) == store_model::series(entries, d, f) by {
                store_model::series_elsewhere(m.entries, device@, d, f);
                assert(stored(h, d, f) == store_model::series(m.entries, d, f));
            }
            assert forall|d: Seq<char>, f: Seq<char>|
                left.contains_key(d) && #[trigger] left[d].contains_key(f) implies left[d][f].len()
                > 0 by {
                assert(h[d].contains_key(f));
            }
            assert forall|d: Seq<char>| #[trigger] left.contains_key(d) implies exists|f: Seq<char>|
                #[trigger] left[d].contains_key(f) by {
                assert(h.contains_key(d));
                let f = choose|f: Seq<char>| #[trigger] h[d].contains_key(f);
                assert(left[d].contains_key(f));
            }
            self.entries = Ghost(entries);
            assert(self@ =~= store_model::forget_state(m, device@));
        }
        gone
    }

    /// What the store holds.
    pub fn usage(&self) -> (result: Result<Usage, WriteError>)
        requires
            self.wf(),
            self@.used() <= u64::MAX,
        ensures
            result is Ok,
            result->Ok_0.bytes == self@.used(),
            result->Ok_0.entries == self@.entries.len(),
            result->Ok_0.budget == self@.budget,
            result->Ok_0.evicted == self@.evicted,
    {
        Ok(
            Usage {
                bytes: self.books.latest_bytes + self.books.history_bytes,
                entries: self.books.queue.len() as u64,
                budget: self.budget,
                evicted: self.books.evicted,
            },
        )
    }

    /// The latest read of a field. Absence is no error.
    pub fn latest(&self, device: &str, field: &str) -> (result: Result<Option<Read>, ReadError>)
        ensures
            result is Ok,
            result->Ok_0 is Some <==> self@.latest_of(device@, field@) is Some,
            result->Ok_0 is Some ==> result->Ok_0->0@ == self@.latest_of(device@, field@)->0,
    {
        match latest_at(&self.latest, device) {
            Some(fields) => match fields.get(field) {
                Some(read) => Ok(Some(read.clone())),
                None => Ok(None),
            },
            None => Ok(None),
        }
    }

    /// The latest read of every field of a device, in field order.
    pub fn latest_all(&self, device: &str) -> (result: Result<Vec<Read>, ReadError>)
        ensures
            result is Ok,
            exists|fields: Seq<Seq<char>>|
                fields_of(self@, device@, fields) && #[trigger] latest_in_order(
                    self@,
                    device@,
                    fields,
                    result->Ok_0@,
                ),
    {
        let mut out: Vec<Read> = Vec::new();
        let ghost mut order: Seq<Seq<char>> = Seq::empty();
        match latest_at(&self.latest, device) {
            Some(fields) => {
                let n: usize = fields.len();
                let mut i: usize = 0;
                while i < n
                    invariant
                        latest_in(self.latest).contains_key(device@),
                        latest_in(self.latest)[device@] == fields@,
                        n == fields.keys().len(),
                        i <= n,
                        forall|k: Seq<char>| #[trigger]
                            fields@.contains_key(k) <==> fields.keys().contains(k),
                        latest_in_order(self@, device@, fields.keys().take(i as int), out@),
                    decreases n - i,
                {
                    let entry = fields.at(i);
                    let ghost before = out@;
                    out.push(entry.1.clone());
                    proof {
                        let part = fields.keys().take(i as int);
                        let next = fields.keys().take(i + 1);
                        assert forall|j: int| 0 <= j < next.len() implies self@.latest_of(
                            device@,
                            next[j],
                        ) == Some(#[trigger] out@[j]@) by {
                            if j < i {
                                assert(out@[j] == before[j]);
                                assert(part[j] == next[j]);
                            }
                        }
                    }
                    i = i + 1;
                }
                proof {
                    assert(fields.keys().take(n as int) =~= fields.keys());
                    order = fields.keys();
                    assert forall|f: Seq<char>| order.contains(f) <==> self@.latest_of(
                        device@,
                        f,
                    ) is Some by {
                        assert(fields@.contains_key(f) <==> fields.keys().contains(f));
                    }
                }
            },
            None => {},
        }
        let result: Result<Vec<Read>, ReadError> = Ok(out);
        proof {
            assert(fields_of(self@, device@, order) && latest_in_order(
                self@,
                device@,
                order,
                result->Ok_0@,
            ));
        }
        result
    }

    /// The recorded reads of a field that lie in a span, oldest write first.
    pub fn between(&self, device: &str, field: &str, span: &TimeSpan) -> (result: Result<
        Vec<Read>,
        ReadError,
    >)
        requires
            self.wf(),
        ensures
            result is Ok,
            read_models(result->Ok_0@) == self@.series(device@, field@).filter(in_span(*span)),
    {
        let mut out: Vec<Read> = Vec::new();
        let ghost all = self@.series(device@, field@);
        proof {
            assert(stored(history_in(self.history), device@, field@) == all);
            reveal(Seq::filter);
            assert(all.take(0) =~= Seq::<ReadModel>::empty());
            assert(read_models(out@) =~= all.take(0).filter(in_span(*span)));
        }
        match series_at(&self.history, device, field) {
            Some(reads) => {
                let mut i: usize = 0;
                while i < reads.len()
                    invariant
                        i <= reads.len(),
                        all == read_models(reads@),
                        read_models(out@) == all.take(i as int).filter(in_span(*span)),
                    decreases reads.len() - i,
                {
                    proof {
                        reveal(Seq::filter);
                        assert(all.take(i + 1).drop_last() =~= all.take(i as int));
                        assert(all.take(i + 1).last() == reads@[i as int]@);
                    }
                    if span.within(&reads[i].at) {
                        let ghost before = out@;
                        let one: Read = reads[i].clone();
                        out.push(one);
                        proof {
                            read_models_push(before, one);
                        }
                    }
                    i = i + 1;
                }
                proof {
                    assert(all.take(all.len() as int) =~= all);
                }
            },
            None => {
                proof {
                    assert(all.take(0) =~= all);
                }
            },
        }
        Ok(out)
    }

    /// Whether nothing is filed in the history, not even a name.
    pub fn history_is_empty(&self) -> (r: bool)
        requires
            self.wf(),
        ensures
            r == (self@.entries.len() == 0),
    {
        let r: bool = holds_no_history(&self.history);
        proof {
            let h = history_in(self.history);
            let entries = self.entries@;
            if r && entries.len() > 0 {
                let e = entries[0];
                store_model::series_of_remove(entries, 0, e.device, e.field);
                assert(stored(h, e.device, e.field) == store_model::series(
                    entries,
                    e.device,
                    e.field,
                ));
            }
            if !r && entries.len() == 0 {
                let d = choose|d: Seq<char>| h.contains_key(d);
                let f = choose|f: Seq<char>| #[trigger] h[d].contains_key(f);
                assert(h[d][f].len() > 0);
                assert(stored(h, d, f) == store_model::series(entries, d, f));
                reveal(Seq::filter);
            }
        }
        r
    }
}

/// What some of the entries cost is no more than what all of them do.
proof fn filtered_cost(entries: Seq<ReadModel>, keep: spec_fn(ReadModel) -> bool)
    ensures
        store_model::history_total(entries.filter(keep)) <= store_model::history_total(entries),
    decreases entries.len(),
{
    reveal(Seq::filter);
    if entries.len() > 0 {
        let rest = entries.drop_last();
        filtered_cost(rest, keep);
        if keep(entries.last()) {
            store_model::total_of_push(rest.filter(keep), entries.last());
        }
    }
}

proof fn total_grows(entries: Seq<ReadModel>, n: int)
    requires
        0 <= n <= entries.len(),
    ensures
        store_model::history_total(entries.take(n)) <= store_model::history_total(entries),
    decreases entries.len(),
{
    if n == entries.len() {
        assert(entries.take(n) =~= entries);
    } else {
        assert(entries.drop_last().take(n) =~= entries.take(n));
        total_grows(entries.drop_last(), n);
    }
}

pub open spec fn in_span(span: TimeSpan) -> spec_fn(ReadModel) -> bool {
    |r: ReadModel| span.covers(r.at)
}

/// Whether `fields` are the fields of a device with a latest read, in order.
pub open spec fn fields_of(m: StoreModel, device: Seq<char>, fields: Seq<Seq<char>>) -> bool {
    &&& ordered::in_order(fields)
    &&& forall|f: Seq<char>| #[trigger]
        fields.contains(f) <==> m.latest_of(device, f) is Some
}

/// Whether `reads` are the latest reads of `fields`, in their order.
pub open spec fn latest_in_order(
    m: StoreModel,
    device: Seq<char>,
    fields: Seq<Seq<char>>,
    reads: Seq<Read>,
) -> bool {
    &&& reads.len() == fields.len()
    &&& forall|i: int|
        0 <= i < fields.len() ==> m.latest_of(device, fields[i]) == Some(#[trigger] reads[i]@)
}

} // verus!
