//! The configured devices and groups, ordered by id.

use vstd::prelude::*;
use crate::inventory::config::copy_all;
use crate::inventory::summary::{DeviceSummary, GroupSummary};
use crate::sorted::{by_id, find_by_id, first_with_id, is_sorted_copy, sort_by_id};
use crate::text;

verus! {

/// The devices and groups of the fleet. A group's members stay in the order in
/// which they were written.
pub struct MemoryCatalog {
    devices: Vec<DeviceSummary>,
    groups: Vec<GroupSummary>,
}

/// The devices that an id addresses: the device itself, or a group's members.
pub open spec fn addressed(
    devices: Seq<DeviceSummary>,
    groups: Seq<GroupSummary>,
    id: Seq<char>,
) -> Option<Seq<Seq<char>>> {
    if first_with_id(devices, id) is Some {
        Some(seq![id])
    } else {
        match first_with_id(groups, id) {
            Some(i) => Some(text::views(groups[i].members@)),
            None => None,
        }
    }
}

impl MemoryCatalog {
    #[verifier::type_invariant]
    spec fn wf(self) -> bool {
        by_id(self.devices@) && by_id(self.groups@)
    }

    pub closed spec fn all_devices(self) -> Seq<DeviceSummary> {
        self.devices@
    }

    pub closed spec fn all_groups(self) -> Seq<GroupSummary> {
        self.groups@
    }

    /// A catalog over these devices and groups.
    pub fn new(devices: Vec<DeviceSummary>, groups: Vec<GroupSummary>) -> (r: Self)
        ensures
            is_sorted_copy(r.all_devices(), devices@),
            is_sorted_copy(r.all_groups(), groups@),
    {
        MemoryCatalog { devices: sort_by_id(devices), groups: sort_by_id(groups) }
    }

    /// Takes over other devices and groups, all of them.
    pub fn replace(&mut self, devices: Vec<DeviceSummary>, groups: Vec<GroupSummary>)
        ensures
            is_sorted_copy(final(self).all_devices(), devices@),
            is_sorted_copy(final(self).all_groups(), groups@),
    {
        *self = MemoryCatalog::new(devices, groups);
    }

    /// Every device, ordered by id.
    pub fn devices(&self) -> (r: &Vec<DeviceSummary>)
        ensures
            r@ == self.all_devices(),
            by_id(r@),
    {
        proof {
            use_type_invariant(self);
        }
        &self.devices
    }

    /// Every group, ordered by id.
    pub fn groups(&self) -> (r: &Vec<GroupSummary>)
        ensures
            r@ == self.all_groups(),
            by_id(r@),
    {
        proof {
            use_type_invariant(self);
        }
        &self.groups
    }

    /// The device with an id.
    pub fn device(&self, id: &str) -> (r: Option<&DeviceSummary>)
        ensures
            r is Some <==> first_with_id(self.all_devices(), id@) is Some,
            r is Some ==> *(r->0) == self.all_devices()[first_with_id(self.all_devices(), id@)->0],
    {
        match find_by_id(&self.devices, id) {
            Some(i) => Some(&self.devices[i]),
            None => None,
        }
    }

    /// The group with an id.
    pub fn group(&self, id: &str) -> (r: Option<&GroupSummary>)
        ensures
            r is Some <==> first_with_id(self.all_groups(), id@) is Some,
            r is Some ==> *(r->0) == self.all_groups()[first_with_id(self.all_groups(), id@)->0],
    {
        match find_by_id(&self.groups, id) {
            Some(i) => Some(&self.groups[i]),
            None => None,
        }
    }

    /// Whether an id names anything.
    pub fn contains(&self, id: &str) -> (r: bool)
        ensures
            r == (addressed(self.all_devices(), self.all_groups(), id@) is Some),
    {
        self.device(id).is_some() || self.group(id).is_some()
    }

    /// The devices that an id addresses, where it names anything.
    pub fn members(&self, id: &str) -> (r: Option<Vec<String>>)
        ensures
            r is Some <==> addressed(self.all_devices(), self.all_groups(), id@) is Some,
            r is Some ==> text::views(r->0@) == addressed(
                self.all_devices(),
                self.all_groups(),
                id@,
            )->0,
    {
        if self.device(id).is_some() {
            let only: Vec<String> = vec![id.to_owned()];
            proof {
                assert(text::views(only@) =~= seq![id@]);
            }
            return Some(only);
        }
        match self.group(id) {
            Some(group) => Some(copy_all(&group.members)),
            None => None,
        }
    }
}

impl Default for MemoryCatalog {
    fn default() -> (r: Self)
        ensures
            r.all_devices().len() == 0,
            r.all_groups().len() == 0,
    {
        MemoryCatalog { devices: Vec::new(), groups: Vec::new() }
    }
}

} // verus!
