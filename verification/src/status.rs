//! What is observed of a device's connection, and of the fields it refuses.

use vstd::prelude::*;
use crate::inventory::summary::{AutoDisabledField, ConnectionStatus};
use crate::sorted::{is_sorted_copy, sort_by_id, Identified};
use crate::time::Duration;

verus! {

/// What a device says of its own connection.
#[derive(Debug, Clone, Copy, PartialEq, Eq, Structural)]
pub enum Connectivity {
    Warm,
    Busy,
    Cold,
    Gated,
}

/// A field that a device has refused, as the device keeps it.
#[derive(Debug, PartialEq, Eq)]
pub struct RefusedField {
    pub name: String,
    pub refusals: u32,
    pub disabled: bool,
    /// The time until the field is tried again, where it will be.
    pub retry_in: Option<Duration>,
}

/// What is observed of one device.
#[derive(Debug, PartialEq, Eq)]
pub struct Observation {
    pub connection: ConnectionStatus,
    pub auto_disabled: Vec<AutoDisabledField>,
}

impl Default for Observation {
    fn default() -> (r: Self)
        ensures
            r.connection == ConnectionStatus::Unknown,
            r.auto_disabled@.len() == 0,
    {
        Observation { connection: ConnectionStatus::Unknown, auto_disabled: Vec::new() }
    }
}

pub open spec fn status_of(connectivity: Connectivity) -> ConnectionStatus {
    match connectivity {
        Connectivity::Warm => ConnectionStatus::Warm,
        Connectivity::Busy => ConnectionStatus::Busy,
        Connectivity::Cold => ConnectionStatus::Cold,
        Connectivity::Gated => ConnectionStatus::Gated,
    }
}

/// The status that a device's own account comes to.
pub fn to_dto(connectivity: Connectivity) -> (r: ConnectionStatus)
    ensures
        r == status_of(connectivity),
{
    match connectivity {
        Connectivity::Warm => ConnectionStatus::Warm,
        Connectivity::Busy => ConnectionStatus::Busy,
        Connectivity::Cold => ConnectionStatus::Cold,
        Connectivity::Gated => ConnectionStatus::Gated,
    }
}

/// Whether an entry shows a refused field. The wait is in whole seconds.
pub open spec fn shows_field(shown: AutoDisabledField, field: RefusedField) -> bool {
    &&& shown.name@ == field.name@
    &&& shown.refusals == field.refusals
    &&& shown.disabled == field.disabled
    &&& shown.retry_in_secs == match field.retry_in {
        Some(wait) => Some((wait@ / 1_000_000_000) as u64),
        None => None,
    }
}

/// The entry that shows a refused field.
pub fn to_field_dto(field: &RefusedField) -> (r: AutoDisabledField)
    ensures
        shows_field(r, *field),
{
    AutoDisabledField {
        name: field.name.clone(),
        refusals: field.refusals,
        disabled: field.disabled,
        retry_in_secs: match field.retry_in {
            Some(wait) => Some(wait.as_secs()),
            None => None,
        },
    }
}

/// What a device says of itself.
#[derive(Debug, PartialEq, Eq)]
pub struct Account {
    pub connectivity: Connectivity,
    pub refused: Vec<RefusedField>,
}

/// Whether an observation is that of a device.
pub open spec fn observes(o: Observation, account: Account) -> bool {
    &&& o.connection == status_of(account.connectivity)
    &&& o.auto_disabled@.len() == account.refused@.len()
    &&& forall|i: int|
        0 <= i < account.refused@.len() ==> shows_field(
            #[trigger] o.auto_disabled@[i],
            account.refused@[i],
        )
}

/// What is observed of a device, from its own account of itself; nothing where
/// there is no such device.
pub fn observe(device: Option<&Account>) -> (r: Observation)
    ensures
        device is Some ==> observes(r, *(device->0)),
        device is None ==> r.connection == ConnectionStatus::Unknown && r.auto_disabled@.len() == 0,
{
    match device {
        None => Observation::default(),
        Some(account) => {
            let mut auto_disabled: Vec<AutoDisabledField> = Vec::new();
            let mut i: usize = 0;
            while i < account.refused.len()
                invariant
                    i <= account.refused.len(),
                    auto_disabled@.len() == i,
                    forall|j: int|
                        0 <= j < i ==> shows_field(#[trigger] auto_disabled@[j], account.refused@[j]),
                decreases account.refused.len() - i,
            {
                auto_disabled.push(to_field_dto(&account.refused[i]));
                i = i + 1;
            }
            Observation { connection: to_dto(account.connectivity), auto_disabled }
        },
    }
}

/// What is observed of the device with an id.
#[derive(Debug, PartialEq, Eq)]
pub struct Observed {
    pub id: String,
    pub observation: Observation,
}

impl Identified for Observed {
    open spec fn key(&self) -> Seq<char> {
        self.id@
    }

    fn id_text(&self) -> (r: &str) {
        self.id.as_str()
    }
}

/// Whether observations are those of devices, one each and in their order.
pub open spec fn observes_all(all: Seq<Observed>, devices: Seq<(String, Account)>) -> bool {
    all.len() == devices.len() && forall|i: int|
        0 <= i < devices.len() ==> (#[trigger] all[i]).id@ == devices[i].0@ && observes(
            all[i].observation,
            devices[i].1,
        )
}

/// What is observed of every device, ordered by id.
pub fn observe_all(devices: &Vec<(String, Account)>) -> (r: Vec<Observed>)
    ensures
        exists|all: Seq<Observed>|
            observes_all(all, devices@) && #[trigger] is_sorted_copy(r@, all),
{
    let mut all: Vec<Observed> = Vec::new();
    let mut i: usize = 0;
    while i < devices.len()
        invariant
            i <= devices.len(),
            all@.len() == i,
            forall|j: int|
                0 <= j < i ==> (#[trigger] all@[j]).id@ == devices@[j].0@ && observes(
                    all@[j].observation,
                    devices@[j].1,
                ),
        decreases devices.len() - i,
    {
        all.push(
            Observed { id: devices[i].0.clone(), observation: observe(Some(&devices[i].1)) },
        );
        i = i + 1;
    }
    let ghost unsorted = all@;
    let r: Vec<Observed> = sort_by_id(all);
    proof {
        assert(observes_all(unsorted, devices@));
        assert(is_sorted_copy(r@, unsorted));
    }
    r
}

} // verus!
