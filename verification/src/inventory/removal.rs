//! Devices that leave the fleet, and what goes with them: the writes that were
//! still owed to them, and, where the fleet says so, their reads.

use vstd::prelude::*;
use vstd::string::*;
use crate::api::{ReadModel, RecordModel, StatusModel};
use crate::inventory::config::{
    devices_model, groups_model, stated_device, stated_devices, DeviceConfig, RawConfig,
    RawConfigModel, RawDevice, RawGroup, RawGroupModel, Resolved,
};
use crate::inventory::edit::{
    catalog_shows, departed_from, next_generation, no_device, no_group, other_group, LiveFleet,
    Removed, Reset,
};
use crate::inventory::refusal::{
    refusal_for, refusal_of, ConfigError, ConfigErrorModel, InventoryRefusal, RefusalModel,
};
use crate::inventory::summary::{shows, shows_all, DeviceSummary};
use crate::memory::outbox::MemoryOutbox;
use crate::memory::outbox_model;
use crate::memory::outbox_model::OutboxModel;
use crate::memory::outbox_order::a_cancellation_withdraws_one_queue;
use crate::memory::store::MemoryStore;
use crate::memory::store_laws::forgetting_a_device_touches_no_other;
use crate::memory::store_model;
use crate::memory::store_model::StoreModel;
use crate::sorted::{
    first_is_first, first_with_id, has_id, is_sorted_copy, none_with_id, with_id, Identified,
};
use crate::text;
use crate::text::same;
use crate::time::Timestamp;

verus! {

/// Why the writes of a removed device were withdrawn.
pub open spec fn removal_reason() -> Seq<char> {
    "the device was removed from the fleet"@
}

/// Why the writes of a device were withdrawn that the file does not describe.
pub open spec fn reset_reason() -> Seq<char> {
    "the device was removed by an inventory reset"@
}

/// The first group that names a device among its members.
pub open spec fn group_naming(groups: Seq<RawGroupModel>, device: Seq<char>) -> Option<Seq<char>>
    decreases groups.len(),
{
    if groups.len() == 0 {
        None
    } else {
        match group_naming(groups.drop_last(), device) {
            Some(id) => Some(id),
            None => if groups.last().devices.contains(device) {
                Some(groups.last().id)
            } else {
                None
            },
        }
    }
}

/// Why a removal is refused, if it is: nothing has the id, a group still names the
/// device, or the document without it does not resolve.
pub open spec fn removal_refusal(
    fleet: LiveFleet,
    id: Seq<char>,
    resolution: Result<Resolved, ConfigError>,
) -> Option<RefusalModel> {
    if first_with_id(fleet.document.devices@, id) is None {
        Some(no_device(id))
    } else {
        match group_naming(fleet.document@.groups, id) {
            Some(group) => Some(
                refusal_for(ConfigErrorModel::UnknownGroupMember { group, device: id }),
            ),
            None => match resolution {
                Err(e) => Some(refusal_for(e@)),
                Ok(_) => None,
            },
        }
    }
}

/// An outbox with every write withdrawn that is queued for one of these devices.
pub open spec fn all_canceled(
    m: OutboxModel,
    devices: Seq<Seq<char>>,
    reason: Seq<char>,
    at: Seq<char>,
) -> OutboxModel
    decreases devices.len(),
{
    if devices.len() == 0 {
        m
    } else {
        outbox_model::cancel_state(
            all_canceled(m, devices.drop_last(), reason, at),
            devices.last(),
            reason,
            at,
        )
    }
}

/// A store without any read of these devices.
pub open spec fn all_forgotten(m: StoreModel, devices: Seq<Seq<char>>) -> StoreModel
    decreases devices.len(),
{
    if devices.len() == 0 {
        m
    } else {
        store_model::forget_state(all_forgotten(m, devices.drop_last()), devices.last())
    }
}

fn lists(devices: &Vec<String>, id: &str) -> (r: bool)
    ensures
        r == text::views(devices@).contains(id@),
{
    let ghost all = text::views(devices@);
    let mut i: usize = 0;
    while i < devices.len()
        invariant
            i <= devices.len(),
            all == text::views(devices@),
            forall|j: int| 0 <= j < i ==> #[trigger] all[j] != id@,
        decreases devices.len() - i,
    {
        if same(devices[i].as_str(), id) {
            proof {
                assert(all[i as int] == id@);
            }
            return true;
        }
        i = i + 1;
    }
    false
}

fn first_naming(groups: &Vec<RawGroup>, device: &str) -> (r: Option<String>)
    ensures
        text::text_of(r) == group_naming(
            groups_model(groups@),
            device@,
        ),
{
    let ghost all = groups_model(groups@);
    let mut found: Option<String> = None;
    let mut i: usize = 0;
    while i < groups.len()
        invariant
            i <= groups.len(),
            all == groups_model(groups@),
            text::text_of(found) == group_naming(all.take(i as int), device@),
        decreases groups.len() - i,
    {
        proof {
            assert(all.take(i + 1).drop_last() =~= all.take(i as int));
            assert(all.take(i + 1).last() == groups@[i as int]@);
        }
        if found.is_none() && lists(&groups[i].devices, device) {
            found = Some(groups[i].id.clone());
        }
        i = i + 1;
    }
    proof {
        assert(all.take(all.len() as int) =~= all);
    }
    found
}

/// A device that did not resolve is not in the document that was written down from
/// the resolution.
proof fn gone_from_document(
    document: Seq<RawDevice>,
    resolved: Seq<DeviceConfig>,
    id: Seq<char>,
)
    requires
        devices_model(document) == stated_devices(resolved),
        first_with_id(resolved, id) is None,
    ensures
        first_with_id(document, id) is None,
{
    first_is_first(resolved, id);
    first_is_first(document, id);
    if let Some(i) = first_with_id(document, id) {
        assert(devices_model(document).len() == document.len());
        assert(stated_devices(resolved).len() == resolved.len());
        assert(devices_model(document)[i] == document[i]@);
        assert(stated_devices(resolved)[i] == stated_device(resolved[i]));
        assert(resolved[i].key() != id);
    }
}

/// A device that did not resolve is not in a catalog of what did.
proof fn gone_from_catalog(
    catalog: Seq<DeviceSummary>,
    shown: Seq<DeviceSummary>,
    resolved: Seq<DeviceConfig>,
    id: Seq<char>,
)
    requires
        shows_all(shown, resolved),
        is_sorted_copy(catalog, shown),
        first_with_id(resolved, id) is None,
    ensures
        first_with_id(catalog, id) is None,
{
    first_is_first(resolved, id);
    assert forall|i: int| 0 <= i < shown.len() implies (#[trigger] shown[i]).key() != id by {
        assert(shows(shown[i], resolved[i]));
        assert(resolved[i].key() != id);
    }
    none_with_id(shown, id);
    first_is_first(catalog, id);
    if let Some(i) = first_with_id(catalog, id) {
        catalog.lemma_filter_contains(has_id(id), i);
        assert(with_id(catalog, id) == with_id(shown, id));
        assert(with_id(shown, id).len() == 0);
    }
}

impl LiveFleet {
    /// Takes a device out of the fleet. Its queued writes are withdrawn and stay
    /// readable; its reads go only where the fleet says that reads go. A removal
    /// that is refused leaves everything as it was.
    ///
    /// `resolution` is what the document without the device resolves to.
    pub fn remove(
        &mut self,
        id: &str,
        resolution: Result<Resolved, ConfigError>,
        outbox: &mut MemoryOutbox,
        store: &mut MemoryStore,
        at: &Timestamp,
    ) -> (r: Result<Removed, InventoryRefusal>)
        requires
            old(outbox).wf(),
            old(store).wf(),
            old(store)@.used() <= usize::MAX,
            resolution is Ok ==> first_with_id(resolution->Ok_0.devices@, id@) is None,
        ensures
            final(outbox).wf(),
            final(store).wf(),
            final(self).cleanup_on_remove == old(self).cleanup_on_remove,
            r is Ok <==> removal_refusal(*old(self), id@, resolution) is None,
            r is Err ==> r->Err_0@ == removal_refusal(*old(self), id@, resolution)->0
                && *final(self) == *old(self) && *final(outbox) == *old(outbox) && *final(store)
                == *old(store),
            r is Ok ==> {
                &&& final(self).document@ == (RawConfigModel {
                    devices: stated_devices(resolution->Ok_0.devices@),
                    ..old(self).document@
                })
                &&& catalog_shows(final(self).catalog, resolution->Ok_0)
                &&& first_with_id(final(self).document.devices@, id@) is None
                &&& first_with_id(final(self).catalog.all_devices(), id@) is None
                &&& final(self).generation == next_generation(old(self).generation)
                &&& final(outbox)@ == outbox_model::cancel_state(
                    old(outbox)@,
                    id@,
                    removal_reason(),
                    at@,
                )
                &&& r->Ok_0.device@ == id@
                &&& r->Ok_0.writes_canceled == old(outbox)@.log(id@).queue.len()
                &&& if old(self).cleanup_on_remove {
                    &&& final(store)@ == store_model::forget_state(old(store)@, id@)
                    &&& r->Ok_0.reads_dropped == Some(
                        old(store)@.entries.filter(store_model::of_device(id@)).len() as usize,
                    )
                    &&& old(store)@.entries.filter(store_model::of_device(id@)).len() <= usize::MAX
                } else {
                    &&& *final(store) == *old(store)
                    &&& r->Ok_0.reads_dropped is None
                }
            },
    {
        let edited: RawConfig = match self.without(id) {
            Ok(edited) => edited,
            Err(refusal) => {
                return Err(refusal);
            },
        };
        if let Some(group) = first_naming(&self.document.groups, id) {
            return Err(
                refusal_of(ConfigError::UnknownGroupMember { group, device: id.to_owned() }),
            );
        }
        match self.amend(edited, resolution) {
            Err(refusal) => Err(refusal),
            Ok(resolved) => {
                proof {
                    gone_from_document(self.document.devices@, resolved.devices@, id@);
                    let s = choose|s: Seq<DeviceSummary>|
                        shows_all(s, resolved.devices@) && #[trigger] is_sorted_copy(
                            self.catalog.all_devices(),
                            s,
                        );
                    gone_from_catalog(self.catalog.all_devices(), s, resolved.devices@, id@);
                }
                let writes_canceled: usize = outbox.cancel_queued(
                    id,
                    "the device was removed from the fleet",
                    at,
                );
                let reads_dropped: Option<usize> = if self.cleanup_on_remove {
                    Some(store.forget_device(id))
                } else {
                    None
                };
                Ok(Removed { device: id.to_owned(), writes_canceled, reads_dropped })
            },
        }
    }

    /// Takes a group out of the fleet, and says of how many fields it had been told
    /// something: what it was told goes with it. Its members stay, with everything
    /// that is owed to them. A removal that is refused leaves everything as it was.
    ///
    /// `resolution` is what the document without the group resolves to.
    pub fn remove_group(
        &mut self,
        id: &str,
        resolution: Result<Resolved, ConfigError>,
        outbox: &mut MemoryOutbox,
    ) -> (r: Result<usize, InventoryRefusal>)
        requires
            old(outbox).wf(),
        ensures
            final(outbox).wf(),
            final(self).cleanup_on_remove == old(self).cleanup_on_remove,
            r is Ok <==> first_with_id(old(self).document.groups@, id@) is Some
                && resolution is Ok,
            r is Err ==> *final(self) == *old(self) && *final(outbox) == *old(outbox)
                && r->Err_0@ == if first_with_id(old(self).document.groups@, id@) is None {
                no_group(id@)
            } else {
                refusal_for(resolution->Err_0@)
            },
            r is Ok ==> {
                &&& final(self).document@ == (RawConfigModel {
                    devices: stated_devices(resolution->Ok_0.devices@),
                    groups: old(self).document@.groups.filter(other_group(id@)),
                    ..old(self).document@
                })
                &&& catalog_shows(final(self).catalog, resolution->Ok_0)
                &&& final(self).generation == next_generation(old(self).generation)
                &&& final(outbox)@ == outbox_model::forget_group_state(old(outbox)@, id@)
                &&& r->Ok_0 == outbox_model::told_count(old(outbox)@, id@)
            },
    {
        let edited: RawConfig = match self.without_group(id) {
            Ok(edited) => edited,
            Err(refusal) => {
                return Err(refusal);
            },
        };
        match self.amend(edited, resolution) {
            Err(refusal) => Err(refusal),
            Ok(_) => Ok(outbox.forget_group(id)),
        }
    }

    /// Takes over the document of the file, or leaves everything as it was where
    /// the file could not be read or does not resolve. What was queued for devices
    /// that the file does not describe is withdrawn, and their reads go where the
    /// fleet says that reads go.
    ///
    /// `resolution` is what the document of the file resolves to.
    pub fn reset(
        &mut self,
        path: &str,
        reloaded: Result<RawConfig, String>,
        resolution: Result<Resolved, ConfigError>,
        outbox: &mut MemoryOutbox,
        store: &mut MemoryStore,
        at: &Timestamp,
    ) -> (r: Result<Reset, InventoryRefusal>)
        requires
            old(outbox).wf(),
            old(store).wf(),
            old(store)@.used() <= usize::MAX,
        ensures
            final(outbox).wf(),
            final(store).wf(),
            final(self).cleanup_on_remove == old(self).cleanup_on_remove,
            r is Ok <==> reloaded is Ok && resolution is Ok,
            r is Err ==> *final(self) == *old(self) && *final(outbox) == *old(outbox)
                && *final(store) == *old(store),
            reloaded is Err ==> r->Err_0@ == RefusalModel::Source(
                "reading "@ + path@ + ": "@ + reloaded->Err_0@,
            ),
            reloaded is Ok && resolution is Err ==> r->Err_0@ == refusal_for(resolution->Err_0@),
            r is Ok ==> {
                let departed = departed_from(old(self).catalog.all_devices(), resolution->Ok_0);
                &&& final(self).document@ == reloaded->Ok_0@
                &&& catalog_shows(final(self).catalog, resolution->Ok_0)
                &&& final(self).generation == next_generation(old(self).generation)
                &&& shows_all(r->Ok_0.devices@, resolution->Ok_0.devices@)
                &&& text::views(r->Ok_0.departed@) == departed
                &&& final(outbox)@ == all_canceled(old(outbox)@, departed, reset_reason(), at@)
                &&& if old(self).cleanup_on_remove {
                    final(store)@ == all_forgotten(old(store)@, departed)
                } else {
                    *final(store) == *old(store)
                }
            },
    {
        let done: Reset = match self.restore(path, reloaded, resolution) {
            Ok(done) => done,
            Err(refusal) => {
                return Err(refusal);
            },
        };
        let ghost departed = text::views(done.departed@);
        let ghost m = outbox@;
        let ghost held = store@;
        let cleanup: bool = self.cleanup_on_remove;
        let mut i: usize = 0;
        proof {
            assert(departed.take(0) =~= Seq::<Seq<char>>::empty());
        }
        while i < done.departed.len()
            invariant
                i <= done.departed.len(),
                departed == text::views(done.departed@),
                outbox.wf(),
                store.wf(),
                store@.used() <= usize::MAX,
                outbox@ == all_canceled(m, departed.take(i as int), reset_reason(), at@),
                cleanup ==> store@ == all_forgotten(held, departed.take(i as int)),
                !cleanup ==> *store == *old(store),
            decreases done.departed.len() - i,
        {
            proof {
                assert(departed.take(i + 1).drop_last() =~= departed.take(i as int));
                assert(departed.take(i + 1).last() == done.departed@[i as int]@);
            }
            outbox.cancel_queued(
                done.departed[i].as_str(),
                "the device was removed by an inventory reset",
                at,
            );
            if cleanup {
                store.forget_device(done.departed[i].as_str());
            }
            i = i + 1;
        }
        proof {
            assert(departed.take(departed.len() as int) =~= departed);
        }
        Ok(done)
    }
}

// ---- laws ------------------------------------------------------------------

/// Whether a write is queued for one of these devices.
pub open spec fn owed_to(m: OutboxModel, devices: Seq<Seq<char>>, write: Seq<char>) -> bool {
    exists|i: int|
        0 <= i < devices.len() && (#[trigger] m.log(devices[i])).queue.contains(write)
}

/// Withdrawing what is queued for several devices empties their queues and leaves
/// the logs of all others; each withdrawn write stays on record as canceled, and
/// every other write stays as it was.
pub proof fn withdrawing_spares_the_remaining_devices(
    m: OutboxModel,
    devices: Seq<Seq<char>>,
    reason: Seq<char>,
    at: Seq<char>,
)
    requires
        m.inv(),
    ensures
        ({
            let n = all_canceled(m, devices, reason, at);
            &&& n.inv()
            &&& n.records.dom() == m.records.dom()
            &&& n.groups == m.groups
            &&& forall|d: Seq<char>| #[trigger]
                n.log(d) == m.log(d) || devices.contains(d) && n.log(d).queue.len() == 0
            &&& forall|d: Seq<char>| #![trigger n.log(d)]
                devices.contains(d) ==> n.log(d).queue.len() == 0
            &&& forall|x: Seq<char>| #[trigger]
                n.records.contains_key(x) ==> n.records[x] == if owed_to(m, devices, x) {
                    RecordModel {
                        status: StatusModel::Canceled { reason },
                        updated_at: at,
                        ..m.records[x]
                    }
                } else {
                    m.records[x]
                }
        }),
    decreases devices.len(),
{
    let n = all_canceled(m, devices, reason, at);
    if devices.len() > 0 {
        let rest = devices.drop_last();
        let last = devices.last();
        withdrawing_spares_the_remaining_devices(m, rest, reason, at);
        let prev = all_canceled(m, rest, reason, at);
        a_cancellation_withdraws_one_queue(prev, last, reason, at);
        assert(devices[devices.len() - 1] == last);
        assert forall|d: Seq<char>| #[trigger]
            n.log(d) == m.log(d) || devices.contains(d) && n.log(d).queue.len() == 0 by {
            assert(prev.log(d) == m.log(d) || rest.contains(d) && prev.log(d).queue.len() == 0);
            if rest.contains(d) {
                let i = choose|i: int| 0 <= i < rest.len() && rest[i] == d;
                assert(devices[i] == d);
            }
        }
        assert forall|d: Seq<char>| #![trigger n.log(d)]
            devices.contains(d) implies n.log(d).queue.len() == 0 by {
            if d != last {
                let i = choose|i: int| 0 <= i < devices.len() && devices[i] == d;
                assert(rest[i] == d);
                assert(rest.contains(d));
                assert(prev.log(d).queue.len() == 0);
            }
        }
        assert forall|x: Seq<char>| #[trigger] n.records.contains_key(x) implies n.records[x]
            == if owed_to(m, devices, x) {
            RecordModel { status: StatusModel::Canceled { reason }, updated_at: at, ..m.records[x] }
        } else {
            m.records[x]
        } by {
            assert(prev.records.contains_key(x));
            assert(prev.log(last) == m.log(last) || rest.contains(last) && prev.log(
                last,
            ).queue.len() == 0);
            if owed_to(m, rest, x) {
                let i = choose|i: int|
                    0 <= i < rest.len() && (#[trigger] m.log(rest[i])).queue.contains(x);
                assert(m.log(devices[i]).queue.contains(x));
            }
            if prev.log(last).queue.contains(x) {
                assert(m.log(devices[devices.len() - 1]).queue.contains(x));
            }
            if owed_to(m, devices, x) && !owed_to(m, rest, x) {
                let i = choose|i: int|
                    0 <= i < devices.len() && (#[trigger] m.log(devices[i])).queue.contains(x);
                if i < rest.len() {
                    assert(m.log(rest[i]).queue.contains(x));
                }
                assert(devices[i] == last);
                assert(m.log(last).queue.contains(x));
                if rest.contains(last) {
                    let j = choose|j: int| 0 <= j < rest.len() && rest[j] == last;
                    assert(m.log(rest[j]).queue.contains(x));
                }
                assert(prev.log(last) == m.log(last));
            }
        }
    }
}

/// Forgetting several devices leaves no read of them, and every read of all others.
pub proof fn forgetting_spares_the_remaining_devices(
    m: StoreModel,
    devices: Seq<Seq<char>>,
    d: Seq<char>,
    f: Seq<char>,
)
    ensures
        all_forgotten(m, devices).latest_of(d, f) == if devices.contains(d) {
            None
        } else {
            m.latest_of(d, f)
        },
        all_forgotten(m, devices).series(d, f) == if devices.contains(d) {
            Seq::<ReadModel>::empty()
        } else {
            m.series(d, f)
        },
    decreases devices.len(),
{
    if devices.len() > 0 {
        let rest = devices.drop_last();
        forgetting_spares_the_remaining_devices(m, rest, d, f);
        forgetting_a_device_touches_no_other(all_forgotten(m, rest), devices.last(), d, f);
        if rest.contains(d) {
            let i = choose|i: int| 0 <= i < rest.len() && rest[i] == d;
            assert(devices[i] == d);
        }
        if d == devices.last() {
            assert(devices[devices.len() - 1] == d);
        } else if devices.contains(d) {
            let i = choose|i: int| 0 <= i < devices.len() && devices[i] == d;
            assert(rest[i] == d);
        }
    }
}

/// A removal is blocked if and only if a group of the document names the device.
pub proof fn a_removal_is_blocked_by_a_group_that_names_the_device(
    groups: Seq<RawGroupModel>,
    device: Seq<char>,
)
    ensures
        group_naming(groups, device) is Some <==> exists|i: int|
            0 <= i < groups.len() && (#[trigger] groups[i]).devices.contains(device),
    decreases groups.len(),
{
    if groups.len() > 0 {
        let rest = groups.drop_last();
        a_removal_is_blocked_by_a_group_that_names_the_device(rest, device);
        if exists|i: int| 0 <= i < rest.len() && (#[trigger] rest[i]).devices.contains(device) {
            let i = choose|i: int|
                0 <= i < rest.len() && (#[trigger] rest[i]).devices.contains(device);
            assert(groups[i].devices.contains(device));
        }
        if groups.last().devices.contains(device) {
            assert(groups[groups.len() - 1].devices.contains(device));
        }
        if exists|i: int| 0 <= i < groups.len() && (#[trigger] groups[i]).devices.contains(device) {
            let i = choose|i: int|
                0 <= i < groups.len() && (#[trigger] groups[i]).devices.contains(device);
            if i < rest.len() {
                assert(rest[i].devices.contains(device));
            }
        }
    }
}

} // verus!
