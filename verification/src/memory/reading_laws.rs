//! What is read back of what was written: the writes of a device, the reads of a
//! span, what a group was told, whom an id addresses; and what a read costs.

use vstd::prelude::*;
use crate::api::{
    Alarm, AlarmModel, GroupExpectation, Read, ReadModel, StatusModel, TimeSpan, ValueModel,
};
use crate::devices::registry::by_last;
use crate::inventory::config::DeviceConfig;
use crate::inventory::summary::{DeviceSummary, GroupSummary};
use crate::memory::catalog::addressed;
use crate::memory::outbox::{all_told, flying, newest_first, told_in_order};
use crate::memory::outbox_model::OutboxModel;
use crate::memory::store::{fields_of, in_span, latest_in_order};
use crate::memory::store_model;
use crate::memory::store_model::{
    byte_len, forget_state, history_cost, latest_cost, read_cost, upsert_state, value_cost,
    StoreModel,
};
use crate::ordered;
use crate::sorted::{first_is_first, first_with_id, Identified};
use crate::text;

verus! {

// ---- writes ----------------------------------------------------------------

/// The writes of a device are listed newest first: the newest stands at the top,
/// and taking a write in puts it there above all others.
pub proof fn writes_are_listed_newest_first(m: OutboxModel, history: Seq<Seq<char>>, id: Seq<char>)
    ensures
        newest_first(m, history).len() == history.len(),
        newest_first(m, Seq::empty()).len() == 0,
        newest_first(m, history.push(id)) == seq![m.records[id]] + newest_first(m, history),
{
    assert(newest_first(m, history.push(id)) =~= seq![m.records[id]] + newest_first(m, history));
}

proof fn flying_member(m: OutboxModel, ids: Seq<Seq<char>>, i: int)
    requires
        0 <= i < flying(m, ids).len(),
    ensures
        flying(m, ids)[i].status == StatusModel::InFlight,
    decreases ids.len(),
{
    if ids.len() > 0 {
        if i < flying(m, ids.drop_last()).len() {
            flying_member(m, ids.drop_last(), i);
        }
    }
}

/// The writes in flight are those that are in flight and no others, in the order
/// of their ids.
pub proof fn writes_in_flight_are_in_flight(
    m: OutboxModel,
    a: Seq<Seq<char>>,
    b: Seq<Seq<char>>,
    i: int,
)
    ensures
        flying(m, a + b) == flying(m, a) + flying(m, b),
        0 <= i < flying(m, a).len() ==> flying(m, a)[i].status == StatusModel::InFlight,
        a.len() == 1 ==> flying(m, a) == if m.records[a[0]].status == StatusModel::InFlight {
            seq![m.records[a[0]]]
        } else {
            Seq::empty()
        },
    decreases b.len(),
{
    if 0 <= i < flying(m, a).len() {
        flying_member(m, a, i);
    }
    if a.len() == 1 {
        reveal_with_fuel(flying, 2);
        assert(flying(m, a.drop_last()) =~= Seq::empty());
        assert(flying(m, a) =~= if m.records[a[0]].status == StatusModel::InFlight {
            seq![m.records[a[0]]]
        } else {
            Seq::empty()
        });
    }
    if b.len() == 0 {
        assert(a + b =~= a);
        assert(flying(m, a) + flying(m, b) =~= flying(m, a));
    } else {
        writes_in_flight_are_in_flight(m, a, b.drop_last(), i);
        assert((a + b).drop_last() =~= a + b.drop_last());
        assert(flying(m, a + b) =~= flying(m, a) + flying(m, b));
    }
}

/// What a group was told is listed whole, each field once and in the order of the
/// fields.
pub proof fn all_that_a_group_was_told_is_listed(
    m: OutboxModel,
    group: Seq<char>,
    fields: Seq<Seq<char>>,
    told: Seq<GroupExpectation>,
    f: Seq<char>,
)
    requires
        all_told(m, group, fields),
        told_in_order(m, group, fields, told),
        m.told(group, f) is Some,
    ensures
        exists|i: int| 0 <= i < told.len() && #[trigger] told[i]@ == m.told(group, f)->0,
        fields.no_duplicates(),
        told.len() == fields.len(),
{
    assert(fields.contains(f));
    let i = choose|i: int| 0 <= i < fields.len() && fields[i] == f;
    assert(m.told(group, fields[i]) == Some(told[i]@));
    ordered::in_order_distinct(fields);
}

// ---- reads -----------------------------------------------------------------

/// A history holds the reads of its series that are stamped in the span, both ends
/// included, and no others, and keeps their order.
pub proof fn a_history_holds_its_span(series: Seq<ReadModel>, span: TimeSpan, r: ReadModel)
    ensures
        in_span(span)(r) <==> !text::lex_lt(r.at, span.start@) && !text::lex_lt(span.end@, r.at),
        series.push(r).filter(in_span(span)) == if !text::lex_lt(r.at, span.start@)
            && !text::lex_lt(span.end@, r.at) {
            series.filter(in_span(span)).push(r)
        } else {
            series.filter(in_span(span))
        },
{
    reveal(Seq::filter);
    assert(series.push(r).drop_last() =~= series);
}

/// The latest reads of a device are listed whole, each field once.
pub proof fn every_latest_read_is_listed(
    m: StoreModel,
    device: Seq<char>,
    fields: Seq<Seq<char>>,
    reads: Seq<Read>,
    f: Seq<char>,
)
    requires
        fields_of(m, device, fields),
        latest_in_order(m, device, fields, reads),
        m.latest_of(device, f) is Some,
    ensures
        exists|i: int| 0 <= i < reads.len() && #[trigger] reads[i]@ == m.latest_of(device, f)->0,
        fields.no_duplicates(),
        reads.len() == fields.len(),
{
    assert(fields.contains(f));
    let i = choose|i: int| 0 <= i < fields.len() && fields[i] == f;
    assert(m.latest_of(device, fields[i]) == Some(reads[i]@));
    ordered::in_order_distinct(fields);
}

/// Writing a read, forgetting a device and sweeping keep the budget; forgetting
/// and sweeping count nothing as evicted.
pub proof fn the_budget_stays_until_it_is_set(
    m: StoreModel,
    r: ReadModel,
    device: Seq<char>,
    before: Seq<char>,
    budget: Option<u64>,
)
    ensures
        upsert_state(m, r).budget == m.budget,
        forget_state(m, device).budget == m.budget,
        forget_state(m, device).evicted == m.evicted,
        store_model::prune_state(m, before).budget == m.budget,
        store_model::budget_state(m, budget).budget == budget,
        store_model::budget_state(m, None).entries == m.entries,
        store_model::budget_state(m, None).evicted == m.evicted,
        store_model::budget_state(m, None).latest == m.latest,
{
    assert(m.entries.skip(0) =~= m.entries);
}

proof fn parted(entries: Seq<ReadModel>, device: Seq<char>)
    ensures
        entries.len() == entries.filter(store_model::elsewhere(device)).len() + entries.filter(
            store_model::of_device(device),
        ).len(),
    decreases entries.len(),
{
    reveal(Seq::filter);
    if entries.len() > 0 {
        parted(entries.drop_last(), device);
    }
}

/// Forgetting a device drops as many recorded reads as it counts, all of them the
/// device's.
pub proof fn a_device_is_forgotten_by_the_count(m: StoreModel, device: Seq<char>, r: ReadModel)
    ensures
        m.entries.len() == forget_state(m, device).entries.len() + m.entries.filter(
            store_model::of_device(device),
        ).len(),
        store_model::of_device(device)(r) <==> r.device == device,
        store_model::elsewhere(device)(r) <==> r.device != device,
{
    parted(m.entries, device);
}

// ---- what a read costs -----------------------------------------------------

/// A read that has no text costs its own size; filed as the latest of its field, 64
/// bytes more; recorded, the size of its slot and 64 bytes more.
pub proof fn a_read_without_text_costs_its_size(r: ReadModel)
    requires
        byte_len(r.device) == 0,
        byte_len(r.field) == 0,
        byte_len(r.at) == 0,
        value_cost(r.value) == 0,
    ensures
        read_cost(r) == vstd::layout::size_of::<Read>(),
        latest_cost(r) == vstd::layout::size_of::<Read>() + 64,
        history_cost(r) == vstd::layout::size_of::<Read>() + vstd::layout::size_of::<
            crate::memory::store::Slot,
        >() + 64,
{
}

/// Every byte of a read's texts and of its value counts once, the field once more
/// where the read is filed as the latest, and device, field and stamp once more
/// where it is recorded.
pub proof fn every_byte_of_a_read_counts(a: ReadModel, b: ReadModel)
    ensures
        ({
            let device = byte_len(a.device) - byte_len(b.device);
            let field = byte_len(a.field) - byte_len(b.field);
            let at = byte_len(a.at) - byte_len(b.at);
            let value = value_cost(a.value) - value_cost(b.value);
            &&& read_cost(a) - read_cost(b) == device + field + at + value
            &&& latest_cost(a) - latest_cost(b) == device + 2 * field + at + value
            &&& history_cost(a) - history_cost(b) == 2 * device + 2 * field + 2 * at + value
        }),
{
}

/// A value costs the bytes of its text, an alarm its size and those of its two
/// texts; what lies in the value itself costs nothing more.
pub proof fn a_value_costs_its_text(
    s: Seq<char>,
    port: u16,
    n: u32,
    b: bool,
    state: crate::api::RecordingState,
    alarms: Seq<AlarmModel>,
    more: AlarmModel,
)
    ensures
        value_cost(ValueModel::Text(s)) == byte_len(s),
        value_cost(ValueModel::Version(s)) == byte_len(s),
        value_cost(ValueModel::Ack(s)) == byte_len(s),
        value_cost(ValueModel::Mac(s)) == byte_len(s),
        value_cost(ValueModel::Port(port)) == 0,
        value_cost(ValueModel::Number(n)) == 0,
        value_cost(ValueModel::Flag(b)) == 0,
        value_cost(ValueModel::State(state)) == 0,
        value_cost(ValueModel::Alarms(Seq::empty())) == 0,
        value_cost(ValueModel::Alarms(alarms.push(more))) == value_cost(ValueModel::Alarms(alarms))
            + vstd::layout::size_of::<Alarm>() + byte_len(more.name) + byte_len(more.level),
{
    assert(alarms.push(more).drop_last() =~= alarms);
}

/// What the store holds is the cost of everything in it: a recorded read more costs
/// what a recorded read costs, and an empty store nothing.
pub proof fn a_store_costs_what_it_holds(m: StoreModel, r: ReadModel)
    requires
        m.filed(),
        !m.latest.contains_key((r.device, r.field)),
        m.budget is None,
    ensures
        upsert_state(m, r).used() == m.used() + latest_cost(r) + history_cost(r),
{
    let k = (r.device, r.field);
    let latest = m.latest.insert(k, r);
    store_model::latest_total_of_remove(latest, k);
    assert(latest.remove(k) =~= m.latest);
    store_model::total_of_push(m.entries, r);
    assert(m.entries.push(r).skip(0) =~= m.entries.push(r));
}

// ---- whom an id addresses --------------------------------------------------

/// An id addresses the device that has it, alone; else the members of the group
/// that has it, in their order; else nobody.
pub proof fn an_id_addresses_a_device_or_a_group(
    devices: Seq<DeviceSummary>,
    groups: Seq<GroupSummary>,
    id: Seq<char>,
    i: int,
)
    ensures
        0 <= i < devices.len() && devices[i].id@ == id ==> addressed(devices, groups, id) == Some(
            seq![id],
        ),
        (forall|k: int| 0 <= k < devices.len() ==> (#[trigger] devices[k]).id@ != id) && 0 <= i
            < groups.len() && groups[i].id@ == id && (forall|k: int|
            0 <= k < i ==> (#[trigger] groups[k]).id@ != id) ==> addressed(devices, groups, id)
            == Some(text::views(groups[i].members@)),
        (forall|k: int| 0 <= k < devices.len() ==> (#[trigger] devices[k]).id@ != id) && (forall|
            k: int,
        |
            0 <= k < groups.len() ==> (#[trigger] groups[k]).id@ != id) ==> addressed(
            devices,
            groups,
            id,
        ) is None,
{
    first_is_first(devices, id);
    first_is_first(groups, id);
    if 0 <= i < devices.len() && devices[i].id@ == id {
        assert(devices[i].key() == id);
    }
    if first_with_id(devices, id) is Some {
        let j = first_with_id(devices, id)->0;
        assert(devices[j].key() == id);
        assert(devices[j].id@ == id);
    }
    if first_with_id(groups, id) is Some {
        let j = first_with_id(groups, id)->0;
        assert(groups[j].key() == id);
        assert(groups[j].id@ == id);
    }
    if 0 <= i < groups.len() && groups[i].id@ == id {
        assert(groups[i].key() == id);
    }
}

/// A registry finds under an id the last device that was given with it, and nothing
/// under an id that none was given with.
pub proof fn the_last_device_of_an_id_counts(
    configs: Seq<DeviceConfig>,
    more: DeviceConfig,
    id: Seq<char>,
)
    ensures
        by_last(configs.push(more)).contains_key(more.id@),
        by_last(configs.push(more))[more.id@] == more,
        id != more.id@ ==> by_last(configs.push(more)).contains_key(id) == by_last(
            configs,
        ).contains_key(id),
        id != more.id@ && by_last(configs).contains_key(id) ==> by_last(configs.push(more))[id]
            == by_last(configs)[id],
        !by_last(Seq::empty()).contains_key(id),
{
    assert(configs.push(more).drop_last() =~= configs);
}

} // verus!
