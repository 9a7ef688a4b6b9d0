//! What is refused of a change of the fleet and in which words, and what a change
//! that was made leaves behind.

use vstd::prelude::*;
use vstd::string::*;
use crate::inventory::config::{stated_device, stated_devices, DeviceConfig, RawGroupModel, Resolved};
use crate::inventory::edit::{
    departed_from, next_generation, no_device, no_group, two_ids, LiveFleet,
};
use crate::inventory::export::switched_off;
use crate::inventory::refusal::{refusal_for, ConfigError, ConfigErrorModel, RefusalModel};
use crate::inventory::removal::{group_naming, removal_reason, removal_refusal, reset_reason};
use crate::inventory::summary::DeviceSummary;
use crate::memory::outbox_model::{told_count, with_told, OutboxModel};
use crate::sorted::{first_is_first, first_with_id, Identified};

verus! {

// ---- refusals --------------------------------------------------------------

/// What each fault of a document is told as: an id that is taken as a conflict, a
/// group that still names a device as a block, and all else in its own words.
pub proof fn each_fault_is_told_as_what_it_is(id: Seq<char>, group: Seq<char>, what: Seq<char>)
    ensures
        refusal_for(ConfigErrorModel::DuplicateId(id)) == RefusalModel::Duplicate(
            "'"@ + (id + ("' already names a device or group; use PUT /v1/inventory/devices/"@ + (id
                + " to replace it"@))),
        ),
        refusal_for(ConfigErrorModel::UnknownGroupMember { group, device: id })
            == RefusalModel::Blocked(
            "group '"@ + (group + ("' still names device '"@ + (id
                + "'; remove it from the group first"@))),
        ),
        refusal_for(ConfigErrorModel::Parse(what)) == RefusalModel::Malformed(what),
        refusal_for(ConfigErrorModel::MissingField(what)) == RefusalModel::Malformed(what),
        refusal_for(ConfigErrorModel::UnknownDisabledField(what)) == RefusalModel::Malformed(what),
        refusal_for(ConfigErrorModel::EmptyGroup(what)) == RefusalModel::Malformed(what),
        refusal_for(ConfigErrorModel::Io(what)) == RefusalModel::Malformed(what),
        refusal_for(ConfigErrorModel::UnsupportedFormat(what)) == RefusalModel::Malformed(what),
{
    assert("'"@ + id + "' already names a device or group; use PUT /v1/inventory/devices/"@ + id
        + " to replace it"@ =~= "'"@ + (id
        + ("' already names a device or group; use PUT /v1/inventory/devices/"@ + (id
        + " to replace it"@))));
    assert("group '"@ + group + "' still names device '"@ + id
        + "'; remove it from the group first"@ =~= "group '"@ + (group
        + ("' still names device '"@ + (id + "'; remove it from the group first"@))));
}

/// What is told of an id that names nothing, and of a request that names two.
pub proof fn an_id_is_refused_by_name(kind: Seq<char>, stated: Seq<char>, id: Seq<char>)
    ensures
        no_device(id) == RefusalModel::Unknown("no device '"@ + (id + "' is configured"@)),
        no_group(id) == RefusalModel::Unknown("no group '"@ + (id + "' is configured"@)),
        two_ids(kind, stated, id) == RefusalModel::Malformed(
            "the body names "@ + (kind + (" '"@ + (stated + ("' and the path names '"@ + (id
                + "'; a replace states the id once"@))))),
        ),
{
    assert("no device '"@ + id + "' is configured"@ =~= "no device '"@ + (id
        + "' is configured"@));
    assert("no group '"@ + id + "' is configured"@ =~= "no group '"@ + (id + "' is configured"@));
    assert("the body names "@ + kind + " '"@ + stated + "' and the path names '"@ + id
        + "'; a replace states the id once"@ =~= "the body names "@ + (kind + (" '"@ + (stated
        + ("' and the path names '"@ + (id + "'; a replace states the id once"@))))));
}

/// Why writes were withdrawn.
pub proof fn each_withdrawal_has_its_reason()
    ensures
        removal_reason() == "the device was removed from the fleet"@,
        reset_reason() == "the device was removed by an inventory reset"@,
{
}

/// The group that stands in the way of a removal is the first that names the device.
pub proof fn the_first_group_that_names_a_device_is_named(
    groups: Seq<RawGroupModel>,
    device: Seq<char>,
    i: int,
)
    requires
        0 <= i < groups.len(),
        groups[i].devices.contains(device),
        forall|k: int| 0 <= k < i ==> !(#[trigger] groups[k]).devices.contains(device),
    ensures
        group_naming(groups, device) == Some(groups[i].id),
    decreases groups.len(),
{
    let rest = groups.drop_last();
    if i < rest.len() {
        the_first_group_that_names_a_device_is_named(rest, device, i);
    } else {
        no_group_names(rest, device);
    }
}

proof fn no_group_names(groups: Seq<RawGroupModel>, device: Seq<char>)
    requires
        forall|k: int| 0 <= k < groups.len() ==> !(#[trigger] groups[k]).devices.contains(device),
    ensures
        group_naming(groups, device) is None,
    decreases groups.len(),
{
    if groups.len() > 0 {
        let rest = groups.drop_last();
        assert forall|k: int| 0 <= k < rest.len() implies !(#[trigger] rest[k]).devices.contains(
            device,
        ) by {
            assert(rest[k] == groups[k]);
        }
        no_group_names(rest, device);
        assert(!groups[groups.len() - 1].devices.contains(device));
    }
}

/// A removal is refused for an id that no device has, before all else; for a group
/// that names the device; and for a document that would not resolve without it. It
/// is refused for nothing else.
pub proof fn a_removal_is_refused_for_three_reasons(
    fleet: LiveFleet,
    id: Seq<char>,
    resolved: Resolved,
    fault: ConfigError,
)
    ensures
        ({
            let known = first_with_id(fleet.document.devices@, id) is Some;
            let group = group_naming(fleet.document@.groups, id);
            &&& !known ==> removal_refusal(fleet, id, Ok(resolved)) == Some(no_device(id))
                && removal_refusal(fleet, id, Err(fault)) == Some(no_device(id))
            &&& known && group is Some ==> removal_refusal(fleet, id, Ok(resolved)) is Some
                && removal_refusal(fleet, id, Ok(resolved))->0 is Blocked && removal_refusal(
                fleet,
                id,
                Err(fault),
            ) == removal_refusal(fleet, id, Ok(resolved))
            &&& known && group is None ==> removal_refusal(fleet, id, Ok(resolved)) is None
                && removal_refusal(fleet, id, Err(fault)) == Some(refusal_for(fault@))
        }),
{
}

// ---- changes ---------------------------------------------------------------

/// Every change is told from the one before it, and counted on by one until the
/// count starts over.
pub proof fn every_change_is_counted(generation: u64)
    ensures
        next_generation(generation) != generation,
        generation < u64::MAX ==> next_generation(generation) == generation + 1,
        next_generation(u64::MAX) == 0,
{
}

/// A document that is taken over states its devices one by one, in their order.
pub proof fn devices_are_stated_one_by_one(devices: Seq<DeviceConfig>, i: int)
    requires
        0 <= i < devices.len(),
    ensures
        stated_devices(devices).len() == devices.len(),
        stated_devices(devices)[i] == stated_device(devices[i]),
        stated_devices(devices)[i].id == devices[i].id@,
{
}

/// The devices that departed are those that the fleet showed and that the new
/// document does not describe, in the order in which they were shown.
pub proof fn the_departed_are_no_longer_described(
    a: Seq<DeviceSummary>,
    b: Seq<DeviceSummary>,
    after: Resolved,
)
    ensures
        departed_from(a + b, after) == departed_from(a, after) + departed_from(b, after),
        a.len() == 1 ==> departed_from(a, after) == if exists|k: int|
            0 <= k < after.devices@.len() && (#[trigger] after.devices@[k]).id@ == a[0].id@ {
            Seq::empty()
        } else {
            seq![a[0].id@]
        },
    decreases b.len(),
{
    if a.len() == 1 {
        reveal_with_fuel(departed_from, 2);
        let id = a[0].id@;
        assert(departed_from(a.drop_last(), after) =~= Seq::<Seq<char>>::empty());
        first_is_first(after.devices@, id);
        if first_with_id(after.devices@, id) is Some {
            let k = first_with_id(after.devices@, id)->0;
            assert(after.devices@[k].key() == id);
            assert(after.devices@[k].id@ == id);
        }
        if exists|k: int|
            0 <= k < after.devices@.len() && (#[trigger] after.devices@[k]).id@ == id {
            let k = choose|k: int|
                0 <= k < after.devices@.len() && (#[trigger] after.devices@[k]).id@ == id;
            assert(after.devices@[k].key() == id);
        }
        assert(departed_from(a, after) =~= if first_with_id(after.devices@, id) is Some {
            Seq::empty()
        } else {
            seq![id]
        });
    }
    if b.len() == 0 {
        assert(a + b =~= a);
        assert(departed_from(a, after) + departed_from(b, after) =~= departed_from(a, after));
    } else {
        the_departed_are_no_longer_described(a, b.drop_last(), after);
        assert((a + b).drop_last() =~= a + b.drop_last());
        assert(departed_from(a + b, after) =~= departed_from(a, after) + departed_from(b, after));
    }
}

/// Only a field that is switched off may be promoted; one that was refused and is
/// still watched may not. Their order is kept.
pub proof fn only_what_is_switched_off_is_promoted(
    a: Seq<(Seq<char>, bool)>,
    b: Seq<(Seq<char>, bool)>,
)
    ensures
        switched_off(a + b) == switched_off(a) + switched_off(b),
        a.len() == 1 ==> switched_off(a) == if a[0].1 {
            seq![a[0].0]
        } else {
            Seq::empty()
        },
    decreases b.len(),
{
    if a.len() == 1 {
        reveal_with_fuel(switched_off, 2);
        assert(switched_off(a.drop_last()) =~= Seq::<Seq<char>>::empty());
        assert(switched_off(a) =~= if a[0].1 {
            seq![a[0].0]
        } else {
            Seq::empty()
        });
    }
    if b.len() == 0 {
        assert(a + b =~= a);
        assert(switched_off(a) + switched_off(b) =~= switched_off(a));
    } else {
        only_what_is_switched_off_is_promoted(a, b.drop_last());
        assert((a + b).drop_last() =~= a + b.drop_last());
        assert(switched_off(a + b) =~= switched_off(a) + switched_off(b));
    }
}

/// A group is told of one field more by a field it was not told of, and of no more
/// by one that it was; a group that was told nothing counts none.
pub proof fn what_a_group_was_told_is_counted(
    m: OutboxModel,
    group: Seq<char>,
    e: crate::api::ExpectationModel,
)
    requires
        m.groups.contains_key(group) ==> m.groups[group].dom().finite(),
    ensures
        !m.groups.contains_key(group) ==> told_count(m, group) == 0,
        told_count(with_told(m, group, e), group) == told_count(m, group) + if m.told(
            group,
            e.field,
        ) is Some {
            0nat
        } else {
            1
        },
{
}

} // verus!
