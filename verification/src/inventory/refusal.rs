//! Why a document does not resolve, and what a caller is told of it.

use vstd::prelude::*;
use vstd::string::*;
use crate::text::join3;

verus! {

/// Why a document of devices does not resolve. All but the first two carry the
/// words of whoever found the fault.
#[derive(Debug, PartialEq, Eq)]
pub enum ConfigError {
    /// The id names more than one device or group.
    DuplicateId(String),
    /// The group names a device that is not there.
    UnknownGroupMember { group: String, device: String },
    /// The text is not a document.
    Parse(String),
    /// A device has no value for a setting that needs one.
    MissingField(String),
    /// A device declines a field that does not exist.
    UnknownDisabledField(String),
    /// A group has no members.
    EmptyGroup(String),
    /// The file could not be read.
    Io(String),
    /// The file is of a kind that is not read.
    UnsupportedFormat(String),
}

pub enum ConfigErrorModel {
    DuplicateId(Seq<char>),
    UnknownGroupMember { group: Seq<char>, device: Seq<char> },
    Parse(Seq<char>),
    MissingField(Seq<char>),
    UnknownDisabledField(Seq<char>),
    EmptyGroup(Seq<char>),
    Io(Seq<char>),
    UnsupportedFormat(Seq<char>),
}

impl View for ConfigError {
    type V = ConfigErrorModel;

    open spec fn view(&self) -> ConfigErrorModel {
        match self {
            ConfigError::DuplicateId(id) => ConfigErrorModel::DuplicateId(id@),
            ConfigError::UnknownGroupMember { group, device } =>
                ConfigErrorModel::UnknownGroupMember { group: group@, device: device@ },
            ConfigError::Parse(what) => ConfigErrorModel::Parse(what@),
            ConfigError::MissingField(what) => ConfigErrorModel::MissingField(what@),
            ConfigError::UnknownDisabledField(what) => ConfigErrorModel::UnknownDisabledField(
                what@,
            ),
            ConfigError::EmptyGroup(what) => ConfigErrorModel::EmptyGroup(what@),
            ConfigError::Io(what) => ConfigErrorModel::Io(what@),
            ConfigError::UnsupportedFormat(what) => ConfigErrorModel::UnsupportedFormat(what@),
        }
    }
}

fn join5(a: &str, b: &str, c: &str, d: &str, e: &str) -> (r: String)
    ensures
        r@ == a@ + b@ + c@ + d@ + e@,
{
    let head: String = join3(a, b, c);
    join3(head.as_str(), d, e)
}

/// Why a change of the fleet was refused.
#[derive(Debug, PartialEq, Eq)]
pub enum InventoryRefusal {
    /// The request makes no sense.
    Malformed(String),
    /// The id is taken.
    Duplicate(String),
    /// Nothing has the id.
    Unknown(String),
    /// Something else still needs what the request would remove.
    Blocked(String),
    /// The document could not be read or written.
    Source(String),
}

pub enum RefusalModel {
    Malformed(Seq<char>),
    Duplicate(Seq<char>),
    Unknown(Seq<char>),
    Blocked(Seq<char>),
    Source(Seq<char>),
}

impl View for InventoryRefusal {
    type V = RefusalModel;

    open spec fn view(&self) -> RefusalModel {
        match self {
            InventoryRefusal::Malformed(s) => RefusalModel::Malformed(s@),
            InventoryRefusal::Duplicate(s) => RefusalModel::Duplicate(s@),
            InventoryRefusal::Unknown(s) => RefusalModel::Unknown(s@),
            InventoryRefusal::Blocked(s) => RefusalModel::Blocked(s@),
            InventoryRefusal::Source(s) => RefusalModel::Source(s@),
        }
    }
}

/// What a caller is told of a document that does not resolve: an id that is
/// taken is a conflict, a group in the way blocks the change, and all else is
/// the request's own fault.
pub open spec fn refusal_for(e: ConfigErrorModel) -> RefusalModel {
    match e {
        ConfigErrorModel::DuplicateId(id) => RefusalModel::Duplicate(
            "'"@ + id + "' already names a device or group; use PUT /v1/inventory/devices/"@ + id
                + " to replace it"@,
        ),
        ConfigErrorModel::UnknownGroupMember { group, device } => RefusalModel::Blocked(
            "group '"@ + group + "' still names device '"@ + device
                + "'; remove it from the group first"@,
        ),
        ConfigErrorModel::Parse(what)
        | ConfigErrorModel::MissingField(what)
        | ConfigErrorModel::UnknownDisabledField(what)
        | ConfigErrorModel::EmptyGroup(what)
        | ConfigErrorModel::Io(what)
        | ConfigErrorModel::UnsupportedFormat(what) => RefusalModel::Malformed(what),
    }
}

/// Maps a document that does not resolve onto what a caller is told.
pub fn refusal_of(err: ConfigError) -> (r: InventoryRefusal)
    ensures
        r@ == refusal_for(err@),
{
    match err {
        ConfigError::DuplicateId(id) => InventoryRefusal::Duplicate(
            join5(
                "'",
                id.as_str(),
                "' already names a device or group; use PUT /v1/inventory/devices/",
                id.as_str(),
                " to replace it",
            ),
        ),
        ConfigError::UnknownGroupMember { group, device } => InventoryRefusal::Blocked(
            join5(
                "group '",
                group.as_str(),
                "' still names device '",
                device.as_str(),
                "'; remove it from the group first",
            ),
        ),
        ConfigError::Parse(what)
        | ConfigError::MissingField(what)
        | ConfigError::UnknownDisabledField(what)
        | ConfigError::EmptyGroup(what)
        | ConfigError::Io(what)
        | ConfigError::UnsupportedFormat(what) => InventoryRefusal::Malformed(what),
    }
}

} // verus!
