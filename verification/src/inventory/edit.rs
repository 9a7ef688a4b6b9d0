//! Changing the fleet while the server runs.
//!
//! A change is made in two steps. The first says what the document would become;
//! the caller resolves that document; and the second takes it over, or leaves
//! everything as it was where it did not resolve.

use vstd::prelude::*;
use vstd::string::*;
use crate::inventory::config::{
    devices_model, groups_model, raw_of_all, raw_of_group_write, raw_of_write, stated_devices,
    written_device, written_group, DeviceWrite, GroupWrite, RawConfig, RawConfigModel, RawDevice,
    RawDeviceModel, RawGroup, RawGroupModel, Resolved,
};
use crate::inventory::refusal::{
    refusal_for, refusal_of, ConfigError, InventoryRefusal, RefusalModel,
};
use crate::inventory::summary::{
    shows, shows_all, shows_all_groups, shows_group, summarize, summarize_all,
    summarize_all_groups, summarize_group, DeviceSummary, GroupSummary,
};
use crate::memory::catalog::MemoryCatalog;
use crate::sorted::{find_by_id, first_with_id, is_sorted_copy};
use crate::text;
use crate::text::{join2, join3, same};

verus! {

/// The fleet as it runs: the document it comes from, what it shows, and how often
/// it has changed.
pub struct LiveFleet {
    pub document: RawConfig,
    pub catalog: MemoryCatalog,
    /// Goes up with every change, for those who wait for one.
    pub generation: u64,
    /// Whether the reads of a device go when it does.
    pub cleanup_on_remove: bool,
}

/// What a removal did.
#[derive(Debug, PartialEq, Eq)]
pub struct Removed {
    pub device: String,
    pub writes_canceled: usize,
    /// How many reads went with the device, where reads go.
    pub reads_dropped: Option<usize>,
}

/// What a reset did.
#[derive(Debug, PartialEq, Eq)]
pub struct Reset {
    /// The devices of the fleet now.
    pub devices: Vec<DeviceSummary>,
    /// The ids of those that are no longer in it.
    pub departed: Vec<String>,
}

pub open spec fn other_device(id: Seq<char>) -> spec_fn(RawDeviceModel) -> bool {
    |d: RawDeviceModel| d.id != id
}

pub open spec fn other_group(id: Seq<char>) -> spec_fn(RawGroupModel) -> bool {
    |g: RawGroupModel| g.id != id
}

pub open spec fn no_device(id: Seq<char>) -> RefusalModel {
    RefusalModel::Unknown("no device '"@ + id + "' is configured"@)
}

pub open spec fn no_group(id: Seq<char>) -> RefusalModel {
    RefusalModel::Unknown("no group '"@ + id + "' is configured"@)
}

pub open spec fn two_ids(kind: Seq<char>, stated: Seq<char>, id: Seq<char>) -> RefusalModel {
    RefusalModel::Malformed(
        "the body names "@ + kind + " '"@ + stated + "' and the path names '"@ + id
            + "'; a replace states the id once"@,
    )
}

fn both_ids(kind: &str, stated: &str, id: &str) -> (r: InventoryRefusal)
    ensures
        r@ == two_ids(kind@, stated@, id@),
{
    let head: String = join3("the body names ", kind, " '");
    let middle: String = join3(head.as_str(), stated, "' and the path names '");
    InventoryRefusal::Malformed(join3(middle.as_str(), id, "'; a replace states the id once"))
}

/// Whether a catalog shows what a document resolved to.
pub open spec fn catalog_shows(catalog: MemoryCatalog, resolved: Resolved) -> bool {
    &&& exists|s: Seq<DeviceSummary>|
        shows_all(s, resolved.devices@) && #[trigger] is_sorted_copy(catalog.all_devices(), s)
    &&& exists|s: Seq<GroupSummary>|
        shows_all_groups(s, resolved.groups@) && #[trigger] is_sorted_copy(catalog.all_groups(), s)
}

/// The count after one more change.
pub open spec fn next_generation(generation: u64) -> u64 {
    if generation == u64::MAX {
        0
    } else {
        (generation + 1) as u64
    }
}

proof fn filter_step<T>(s: Seq<T>, n: int, keep: spec_fn(T) -> bool)
    requires
        0 <= n < s.len(),
    ensures
        s.take(n + 1).filter(keep) == (if keep(s[n]) {
            s.take(n).filter(keep).push(s[n])
        } else {
            s.take(n).filter(keep)
        }),
{
    reveal(Seq::filter);
    let next = s.take(n + 1);
    assert(next.drop_last() =~= s.take(n));
    assert(next.last() == s[n]);
}

impl LiveFleet {
    /// The document with a device more.
    pub fn with_added(&self, write: DeviceWrite) -> (r: Result<RawConfig, InventoryRefusal>)
        ensures
            r is Ok <==> write.id is Some,
            r is Err ==> r->Err_0@ == RefusalModel::Malformed(
                "an added device must state an `id`; the URL does not name one"@,
            ),
            r is Ok ==> r->Ok_0@ == (RawConfigModel {
                devices: self.document@.devices.push(written_device(write.id->0@, write)),
                ..self.document@
            }),
    {
        let id: String = match &write.id {
            Some(id) => id.clone(),
            None => {
                return Err(
                    InventoryRefusal::Malformed(
                        "an added device must state an `id`; the URL does not name one".to_owned(),
                    ),
                );
            },
        };
        let mut edited: RawConfig = self.document.clone();
        let ghost before = edited.devices@;
        let raw: RawDevice = raw_of_write(id, write);
        edited.devices.push(raw);
        proof {
            assert(devices_model(edited.devices@) =~= devices_model(before).push(raw@));
        }
        let r: Result<RawConfig, InventoryRefusal> = Ok(edited);
        r
    }

    /// The document with a device replaced where it stands.
    pub fn with_replaced(&self, id: &str, write: DeviceWrite) -> (r: Result<
        RawConfig,
        InventoryRefusal,
    >)
        ensures
            r is Ok <==> (write.id is None || write.id->0@ == id@) && first_with_id(
                self.document.devices@,
                id@,
            ) is Some,
            r is Err && write.id is Some && write.id->0@ != id@ ==> r->Err_0@ == two_ids(
                "device"@,
                write.id->0@,
                id@,
            ),
            r is Err && !(write.id is Some && write.id->0@ != id@) ==> r->Err_0@ == no_device(id@),
            r is Ok ==> r->Ok_0@ == (RawConfigModel {
                devices: self.document@.devices.update(
                    first_with_id(self.document.devices@, id@)->0,
                    written_device(id@, write),
                ),
                ..self.document@
            }),
    {
        match &write.id {
            Some(stated) => {
                if !same(stated.as_str(), id) {
                    return Err(both_ids("device", stated.as_str(), id));
                }
            },
            None => {},
        }
        match find_by_id(&self.document.devices, id) {
            None => Err(InventoryRefusal::Unknown(join3("no device '", id, "' is configured"))),
            Some(i) => {
                let mut edited: RawConfig = self.document.clone();
                let ghost before = edited.devices@;
                proof {
                    assert(devices_model(before).len() == devices_model(
                        self.document.devices@,
                    ).len());
                }
                let raw: RawDevice = raw_of_write(id.to_owned(), write);
                edited.devices.set(i, raw);
                proof {
                    assert(devices_model(edited.devices@) =~= devices_model(before).update(
                        i as int,
                        raw@,
                    ));
                }
                let r: Result<RawConfig, InventoryRefusal> = Ok(edited);
                r
            },
        }
    }

    /// The document without a device.
    pub fn without(&self, id: &str) -> (r: Result<RawConfig, InventoryRefusal>)
        ensures
            r is Ok <==> first_with_id(self.document.devices@, id@) is Some,
            r is Err ==> r->Err_0@ == no_device(id@),
            r is Ok ==> r->Ok_0@ == (RawConfigModel {
                devices: self.document@.devices.filter(other_device(id@)),
                ..self.document@
            }),
    {
        if find_by_id(&self.document.devices, id).is_none() {
            return Err(InventoryRefusal::Unknown(join3("no device '", id, "' is configured")));
        }
        let mut edited: RawConfig = self.document.clone();
        let mut kept: Vec<RawDevice> = Vec::new();
        let ghost all = self.document@.devices;
        let mut i: usize = 0;
        proof {
            reveal(Seq::filter);
            assert(devices_model(kept@) =~= all.take(0).filter(other_device(id@)));
            assert(devices_model(edited.devices@).len() == all.len());
        }
        while i < edited.devices.len()
            invariant
                i <= edited.devices.len(),
                all == devices_model(edited.devices@),
                devices_model(kept@) == all.take(i as int).filter(other_device(id@)),
            decreases edited.devices.len() - i,
        {
            let ghost before = kept@;
            proof {
                filter_step(all, i as int, other_device(id@));
            }
            if !same(edited.devices[i].id.as_str(), id) {
                kept.push(edited.devices[i].clone());
                proof {
                    assert(devices_model(kept@) =~= devices_model(before).push(all[i as int]));
                }
            }
            i = i + 1;
        }
        proof {
            assert(all.take(all.len() as int) =~= all);
        }
        edited.devices = kept;
        let r: Result<RawConfig, InventoryRefusal> = Ok(edited);
        r
    }

    /// The document with a group more.
    pub fn with_added_group(&self, write: GroupWrite) -> (r: Result<RawConfig, InventoryRefusal>)
        ensures
            r is Ok <==> write.id is Some,
            r is Err ==> r->Err_0@ == RefusalModel::Malformed(
                "an added group must state an `id`; the URL does not name one"@,
            ),
            r is Ok ==> r->Ok_0@ == (RawConfigModel {
                groups: self.document@.groups.push(written_group(write.id->0@, write)),
                ..self.document@
            }),
    {
        let id: String = match &write.id {
            Some(id) => id.clone(),
            None => {
                return Err(
                    InventoryRefusal::Malformed(
                        "an added group must state an `id`; the URL does not name one".to_owned(),
                    ),
                );
            },
        };
        let mut edited: RawConfig = self.document.clone();
        let ghost before = edited.groups@;
        let raw: RawGroup = raw_of_group_write(id, write);
        edited.groups.push(raw);
        proof {
            assert(groups_model(edited.groups@) =~= groups_model(before).push(raw@));
        }
        let r: Result<RawConfig, InventoryRefusal> = Ok(edited);
        r
    }

    /// The document with a group replaced where it stands.
    pub fn with_replaced_group(&self, id: &str, write: GroupWrite) -> (r: Result<
        RawConfig,
        InventoryRefusal,
    >)
        ensures
            r is Ok <==> (write.id is None || write.id->0@ == id@) && first_with_id(
                self.document.groups@,
                id@,
            ) is Some,
            r is Err && write.id is Some && write.id->0@ != id@ ==> r->Err_0@ == two_ids(
                "group"@,
                write.id->0@,
                id@,
            ),
            r is Err && !(write.id is Some && write.id->0@ != id@) ==> r->Err_0@ == no_group(id@),
            r is Ok ==> r->Ok_0@ == (RawConfigModel {
                groups: self.document@.groups.update(
                    first_with_id(self.document.groups@, id@)->0,
                    written_group(id@, write),
                ),
                ..self.document@
            }),
    {
        match &write.id {
            Some(stated) => {
                if !same(stated.as_str(), id) {
                    return Err(both_ids("group", stated.as_str(), id));
                }
            },
            None => {},
        }
        match find_by_id(&self.document.groups, id) {
            None => Err(InventoryRefusal::Unknown(join3("no group '", id, "' is configured"))),
            Some(i) => {
                let mut edited: RawConfig = self.document.clone();
                let ghost before = edited.groups@;
                proof {
                    assert(groups_model(before).len() == groups_model(self.document.groups@).len());
                }
                let raw: RawGroup = raw_of_group_write(id.to_owned(), write);
                edited.groups.set(i, raw);
                proof {
                    assert(groups_model(edited.groups@) =~= groups_model(before).update(
                        i as int,
                        raw@,
                    ));
                }
                let r: Result<RawConfig, InventoryRefusal> = Ok(edited);
                r
            },
        }
    }

    /// The document without a group.
    pub fn without_group(&self, id: &str) -> (r: Result<RawConfig, InventoryRefusal>)
        ensures
            r is Ok <==> first_with_id(self.document.groups@, id@) is Some,
            r is Err ==> r->Err_0@ == no_group(id@),
            r is Ok ==> r->Ok_0@ == (RawConfigModel {
                groups: self.document@.groups.filter(other_group(id@)),
                ..self.document@
            }),
    {
        if find_by_id(&self.document.groups, id).is_none() {
            return Err(InventoryRefusal::Unknown(join3("no group '", id, "' is configured")));
        }
        let mut edited: RawConfig = self.document.clone();
        let mut kept: Vec<RawGroup> = Vec::new();
        let ghost all = self.document@.groups;
        let mut i: usize = 0;
        proof {
            reveal(Seq::filter);
            assert(groups_model(kept@) =~= all.take(0).filter(other_group(id@)));
            assert(groups_model(edited.groups@).len() == all.len());
        }
        while i < edited.groups.len()
            invariant
                i <= edited.groups.len(),
                all == groups_model(edited.groups@),
                groups_model(kept@) == all.take(i as int).filter(other_group(id@)),
            decreases edited.groups.len() - i,
        {
            let ghost before = kept@;
            proof {
                filter_step(all, i as int, other_group(id@));
            }
            if !same(edited.groups[i].id.as_str(), id) {
                kept.push(edited.groups[i].clone());
                proof {
                    assert(groups_model(kept@) =~= groups_model(before).push(all[i as int]));
                }
            }
            i = i + 1;
        }
        proof {
            assert(all.take(all.len() as int) =~= all);
        }
        edited.groups = kept;
        let r: Result<RawConfig, InventoryRefusal> = Ok(edited);
        r
    }

    fn show(&mut self, resolved: &Resolved)
        ensures
            final(self).document == old(self).document,
            final(self).cleanup_on_remove == old(self).cleanup_on_remove,
            final(self).generation == next_generation(old(self).generation),
            catalog_shows(final(self).catalog, *resolved),
    {
        self.catalog.replace(
            summarize_all(&resolved.devices),
            summarize_all_groups(&resolved.groups),
        );
        self.generation = if self.generation == u64::MAX {
            0
        } else {
            self.generation + 1
        };
    }

    /// Takes over an edited document with what it resolved to, or leaves all as
    /// it was where it did not resolve. The devices are written down as they
    /// resolved, with nothing left to inherit; the groups stay as edited.
    pub fn amend(
        &mut self,
        edited: RawConfig,
        resolution: Result<Resolved, ConfigError>,
    ) -> (r: Result<Resolved, InventoryRefusal>)
        ensures
            r is Ok <==> resolution is Ok,
            r is Err ==> *final(self) == *old(self) && r->Err_0@ == refusal_for(
                resolution->Err_0@,
            ),
            r is Ok ==> r->Ok_0 == resolution->Ok_0 && final(self).document@ == (RawConfigModel {
                devices: stated_devices(resolution->Ok_0.devices@),
                groups: edited@.groups,
                ..old(self).document@
            }) && catalog_shows(final(self).catalog, resolution->Ok_0) && final(self).generation
                == next_generation(old(self).generation) && final(self).cleanup_on_remove == old(self).cleanup_on_remove,
    {
        match resolution {
            Err(e) => Err(refusal_of(e)),
            Ok(resolved) => {
                self.document.devices = raw_of_all(&resolved.devices);
                self.document.groups = edited.groups;
                self.show(&resolved);
                Ok(resolved)
            },
        }
    }

    /// Takes over the document of the file, as it is written there, or leaves all
    /// as it was where the file could not be read or does not resolve.
    pub fn restore(
        &mut self,
        path: &str,
        reloaded: Result<RawConfig, String>,
        resolution: Result<Resolved, ConfigError>,
    ) -> (r: Result<Reset, InventoryRefusal>)
        ensures
            r is Ok <==> reloaded is Ok && resolution is Ok,
            r is Err ==> *final(self) == *old(self),
            reloaded is Err ==> r->Err_0@ == RefusalModel::Source(
                "reading "@ + path@ + ": "@ + reloaded->Err_0@,
            ),
            reloaded is Ok && resolution is Err ==> r->Err_0@ == refusal_for(resolution->Err_0@),
            r is Ok ==> final(self).document@ == reloaded->Ok_0@ && catalog_shows(
                final(self).catalog,
                resolution->Ok_0,
            ) && final(self).generation == next_generation(old(self).generation) && final(self).cleanup_on_remove == old(self).cleanup_on_remove && shows_all(
                r->Ok_0.devices@,
                resolution->Ok_0.devices@,
            ) && text::views(r->Ok_0.departed@) == departed_from(
                old(self).catalog.all_devices(),
                resolution->Ok_0,
            ),
    {
        match reloaded {
            Err(e) => {
                let head: String = join3("reading ", path, ": ");
                Err(InventoryRefusal::Source(join2(head.as_str(), e.as_str())))
            },
            Ok(document) => match resolution {
                Err(e) => Err(refusal_of(e)),
                Ok(resolved) => {
                    let departed: Vec<String> = departed(self.catalog.devices(), &resolved);
                    self.document = document;
                    self.show(&resolved);
                    let devices: Vec<DeviceSummary> = summarize_all(&resolved.devices);
                    Ok(Reset { devices, departed })
                },
            },
        }
    }
}

/// The ids of devices that a document no longer describes, in their order.
pub open spec fn departed_from(before: Seq<DeviceSummary>, after: Resolved) -> Seq<Seq<char>>
    decreases before.len(),
{
    if before.len() == 0 {
        Seq::empty()
    } else if first_with_id(after.devices@, before.last().id@) is Some {
        departed_from(before.drop_last(), after)
    } else {
        departed_from(before.drop_last(), after).push(before.last().id@)
    }
}

fn departed(before: &Vec<DeviceSummary>, after: &Resolved) -> (r: Vec<String>)
    ensures
        text::views(r@) == departed_from(before@, *after),
{
    let mut out: Vec<String> = Vec::new();
    let mut i: usize = 0;
    proof {
        assert(text::views(out@) =~= departed_from(before@.take(0), *after));
    }
    while i < before.len()
        invariant
            i <= before.len(),
            text::views(out@) == departed_from(before@.take(i as int), *after),
        decreases before.len() - i,
    {
        let ghost so_far = out@;
        proof {
            assert(before@.take(i + 1).drop_last() =~= before@.take(i as int));
            assert(before@.take(i + 1).last() == before@[i as int]);
        }
        if find_by_id(&after.devices, before[i].id.as_str()).is_none() {
            out.push(before[i].id.clone());
            proof {
                assert(text::views(out@) =~= text::views(so_far).push(before@[i as int].id@));
            }
        }
        i = i + 1;
    }
    proof {
        assert(before@.take(before@.len() as int) =~= before@);
    }
    out
}

/// What the fleet shows of a device after a change.
pub fn summary_of(resolved: &Resolved, id: &str) -> (r: Result<DeviceSummary, InventoryRefusal>)
    ensures
        r is Ok <==> first_with_id(resolved.devices@, id@) is Some,
        r is Ok ==> shows(r->Ok_0, resolved.devices@[first_with_id(resolved.devices@, id@)->0]),
        r is Err ==> r->Err_0@ == RefusalModel::Malformed(
            "device '"@ + id@ + "' was not in the applied fleet"@,
        ),
{
    match find_by_id(&resolved.devices, id) {
        Some(i) => Ok(summarize(&resolved.devices[i])),
        None => Err(
            InventoryRefusal::Malformed(join3("device '", id, "' was not in the applied fleet")),
        ),
    }
}

/// What the fleet shows of a group after a change.
pub fn group_summary_of(resolved: &Resolved, id: &str) -> (r: Result<
    GroupSummary,
    InventoryRefusal,
>)
    ensures
        r is Ok <==> first_with_id(resolved.groups@, id@) is Some,
        r is Ok ==> shows_group(
            r->Ok_0,
            resolved.groups@[first_with_id(resolved.groups@, id@)->0],
        ),
        r is Err ==> r->Err_0@ == RefusalModel::Malformed(
            "group '"@ + id@ + "' was not in the applied fleet"@,
        ),
{
    match find_by_id(&resolved.groups, id) {
        Some(i) => Ok(summarize_group(&resolved.groups[i])),
        None => Err(
            InventoryRefusal::Malformed(join3("group '", id, "' was not in the applied fleet")),
        ),
    }
}

} // verus!
