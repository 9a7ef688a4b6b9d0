//! What holds of every change of the fleet.

use vstd::prelude::*;
use crate::inventory::config::{stated_device, DeviceConfig, RawDeviceModel, RawGroupModel};
use crate::inventory::edit::{other_device, other_group};

verus! {

proof fn kept_are_others<T>(s: Seq<T>, keep: spec_fn(T) -> bool)
    ensures
        forall|i: int| 0 <= i < s.filter(keep).len() ==> keep(#[trigger] s.filter(keep)[i]),
    decreases s.len(),
{
    reveal(Seq::filter);
    if s.len() > 0 {
        kept_are_others(s.drop_last(), keep);
    }
}

proof fn all_are_kept<T>(s: Seq<T>, keep: spec_fn(T) -> bool)
    requires
        forall|i: int| 0 <= i < s.len() ==> keep(#[trigger] s[i]),
    ensures
        s.filter(keep) == s,
    decreases s.len(),
{
    reveal(Seq::filter);
    if s.len() > 0 {
        let shorter = s.drop_last();
        assert forall|i: int| 0 <= i < shorter.len() implies keep(#[trigger] shorter[i]) by {
            assert(shorter[i] == s[i]);
        }
        all_are_kept(shorter, keep);
        assert(keep(s[s.len() - 1]));
        assert(shorter.push(s.last()) =~= s);
    }
    assert(s.filter(keep) =~= s);
}

/// A removed device is gone: nothing in the document has its id.
pub proof fn a_removed_device_is_gone(devices: Seq<RawDeviceModel>, id: Seq<char>, i: int)
    requires
        0 <= i < devices.filter(other_device(id)).len(),
    ensures
        devices.filter(other_device(id))[i].id != id,
{
    kept_are_others(devices, other_device(id));
}

/// Removing a device that was just added leaves the document as it was.
pub proof fn removing_what_was_added_restores_the_document(
    devices: Seq<RawDeviceModel>,
    added: RawDeviceModel,
)
    requires
        forall|i: int| 0 <= i < devices.len() ==> (#[trigger] devices[i]).id != added.id,
    ensures
        devices.push(added).filter(other_device(added.id)) == devices,
{
    reveal(Seq::filter);
    assert(devices.push(added).drop_last() =~= devices);
    all_are_kept(devices, other_device(added.id));
}

/// Removing a device keeps every other one.
pub proof fn removing_a_device_keeps_the_others(
    devices: Seq<RawDeviceModel>,
    id: Seq<char>,
    i: int,
)
    requires
        0 <= i < devices.len(),
        devices[i].id != id,
    ensures
        devices.filter(other_device(id)).contains(devices[i]),
{
    stays(devices, other_device(id), i);
}

/// Removing a group keeps every other one.
pub proof fn removing_a_group_keeps_the_others(groups: Seq<RawGroupModel>, id: Seq<char>, i: int)
    requires
        0 <= i < groups.len(),
        groups[i].id != id,
    ensures
        groups.filter(other_group(id)).contains(groups[i]),
{
    stays(groups, other_group(id), i);
}

proof fn stays<T>(s: Seq<T>, keep: spec_fn(T) -> bool, i: int)
    requires
        0 <= i < s.len(),
        keep(s[i]),
    ensures
        s.filter(keep).contains(s[i]),
    decreases s.len(),
{
    reveal(Seq::filter);
    let shorter = s.drop_last();
    let kept = shorter.filter(keep);
    if i < shorter.len() {
        stays(shorter, keep, i);
        let j = choose|j: int| 0 <= j < kept.len() && kept[j] == s[i];
        assert(s.filter(keep)[j] == s[i]);
    } else {
        assert(s.filter(keep)[kept.len() as int] == s[i]);
    }
}

/// A removed group is gone.
pub proof fn a_removed_group_is_gone(groups: Seq<RawGroupModel>, id: Seq<char>, i: int)
    requires
        0 <= i < groups.filter(other_group(id)).len(),
    ensures
        groups.filter(other_group(id))[i].id != id,
{
    kept_are_others(groups, other_group(id));
}

/// A replaced device keeps its place, and every other device stays as it is.
pub proof fn a_replaced_device_keeps_its_place(
    devices: Seq<RawDeviceModel>,
    at: int,
    written: RawDeviceModel,
    i: int,
)
    requires
        0 <= at < devices.len(),
        devices[at].id == written.id,
        0 <= i < devices.len(),
    ensures
        devices.update(at, written).len() == devices.len(),
        devices.update(at, written)[i].id == devices[i].id,
        i != at ==> devices.update(at, written)[i] == devices[i],
        devices.update(at, written)[at] == written,
{
}

/// A device that is written down as it resolved leaves nothing to inherit.
pub proof fn a_stated_device_inherits_nothing(config: DeviceConfig)
    ensures
        ({
            let d = stated_device(config);
            &&& d.port is Some
            &&& d.username is Some
            &&& d.password is Some
            &&& d.connect_secs is Some
            &&& d.exchange_secs is Some
            &&& d.eager is Some
            &&& d.sis_keepalive_secs is Some
            &&& d.eager_retry_secs is Some
            &&& d.cold_backoff_secs is Some
            &&& d.disabled_fields is Some
            &&& d.auto_disable_after is Some
            &&& d.self_heal_secs is Some
        }),
{
}

} // verus!
