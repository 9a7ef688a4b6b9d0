//! The set of known devices, by id.

use vstd::prelude::*;
use std::sync::Arc;
use crate::inventory::config::DeviceConfig;
use crate::text;

verus! {

type Devices = dashmap::DashMap<String, Arc<DeviceConfig>>;

/// What a map of devices holds.
pub uninterp spec fn devices_in(m: dashmap::DashMap<String, Arc<DeviceConfig>>) -> Map<Seq<char>, DeviceConfig>;

/// `DashMap::new`: a map that holds nothing.
#[verifier::external_body]
fn no_devices() -> (r: Devices)
    ensures
        forall|k: Seq<char>| !devices_in(r).contains_key(k),
{
    dashmap::DashMap::new()
}

/// `DashMap::insert`: puts a value at a key, in place of what was there.
#[verifier::external_body]
fn put_device(m: &mut Devices, id: String, device: Arc<DeviceConfig>)
    ensures
        devices_in(*final(m)) == devices_in(*old(m)).insert(id@, *device),
{
    m.insert(id, device);
}

/// `DashMap::get`: a handle on the value at a key, if there is one.
#[verifier::external_body]
fn device_at(m: &Devices, id: &str) -> (r: Option<Arc<DeviceConfig>>)
    ensures
        r is Some <==> devices_in(*m).contains_key(id@),
        r is Some ==> *(r->0) == devices_in(*m)[id@],
{
    m.get(id).map(|found| Arc::clone(found.value()))
}

/// `DashMap::iter`: every key once, in no order that is promised.
#[verifier::external_body]
fn ids_in(m: &Devices) -> (r: Vec<String>)
    ensures
        text::views(r@).no_duplicates(),
        forall|k: Seq<char>| #[trigger] text::views(r@).contains(k) <==> devices_in(*m).contains_key(k),
{
    m.iter().map(|entry| entry.key().clone()).collect()
}

/// `DashMap::len`: how many keys the map holds.
#[verifier::external_body]
fn count_in(m: &Devices) -> (r: usize)
    ensures
        r == devices_in(*m).dom().len(),
{
    m.len()
}

/// `DashMap::is_empty`: whether the map holds no key.
#[verifier::external_body]
fn none_in(m: &Devices) -> (r: bool)
    ensures
        r <==> forall|k: Seq<char>| !devices_in(*m).contains_key(k),
{
    m.is_empty()
}

/// The devices by id, of two with one id the later.
pub open spec fn by_last(configs: Seq<DeviceConfig>) -> Map<Seq<char>, DeviceConfig>
    decreases configs.len(),
{
    if configs.len() == 0 {
        Map::empty()
    } else {
        by_last(configs.drop_last()).insert(configs.last().id@, configs.last())
    }
}

/// A lookup table of devices. Every lookup of an id gives a handle on the same
/// device.
pub struct Registry {
    devices: Devices,
}

impl View for Registry {
    type V = Map<Seq<char>, DeviceConfig>;

    closed spec fn view(&self) -> Map<Seq<char>, DeviceConfig> {
        devices_in(self.devices)
    }
}

impl Registry {
    /// A registry of these devices.
    pub fn from_configs(configs: Vec<DeviceConfig>) -> (r: Self)
        ensures
            r@ == by_last(configs@),
    {
        let ghost all = configs@;
        let mut rest: Vec<DeviceConfig> = configs;
        let mut devices: Devices = no_devices();
        let n: usize = rest.len();
        let mut i: usize = 0;
        proof {
            assert(devices_in(devices) =~= by_last(all.take(0)));
            assert(all.skip(0) =~= all);
        }
        while i < n
            invariant
                i <= n,
                n == all.len(),
                rest@ == all.skip(i as int),
                devices_in(devices) == by_last(all.take(i as int)),
            decreases n - i,
        {
            let config: DeviceConfig = rest.remove(0);
            let id: String = config.id.clone();
            proof {
                assert(config == all[i as int]);
                assert(all.take(i + 1).drop_last() =~= all.take(i as int));
                assert(all.skip(i as int).remove(0) =~= all.skip(i + 1));
            }
            put_device(&mut devices, id, Arc::new(config));
            i = i + 1;
        }
        proof {
            assert(all.take(n as int) =~= all);
        }
        Registry { devices }
    }

    /// The device with an id.
    pub fn device(&self, id: &str) -> (r: Option<Arc<DeviceConfig>>)
        ensures
            r is Some <==> self@.contains_key(id@),
            r is Some ==> *(r->0) == self@[id@],
    {
        device_at(&self.devices, id)
    }

    /// The ids of every device, each once, in no particular order.
    pub fn ids(&self) -> (r: Vec<String>)
        ensures
            text::views(r@).no_duplicates(),
            forall|k: Seq<char>| #[trigger]
                text::views(r@).contains(k) <==> self@.contains_key(k),
    {
        ids_in(&self.devices)
    }

    /// How many devices there are.
    pub fn len(&self) -> (r: usize)
        ensures
            r == self@.dom().len(),
    {
        count_in(&self.devices)
    }

    /// Whether there is no device.
    pub fn is_empty(&self) -> (r: bool)
        ensures
            r == (self@ == Map::<Seq<char>, DeviceConfig>::empty()),
    {
        let r: bool = none_in(&self.devices);
        proof {
            if r {
                assert(self@ =~= Map::<Seq<char>, DeviceConfig>::empty());
            }
        }
        r
    }
}

} // verus!
