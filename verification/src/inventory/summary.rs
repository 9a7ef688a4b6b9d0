//! What the fleet shows of its devices and groups: everything but secrets.

use vstd::prelude::*;
use crate::api::Barrier;
use crate::inventory::config::{copy_all, DeviceConfig, GroupConfig};
use crate::protocol::value::hex_digit;
use crate::sorted::Identified;
use crate::text;

verus! {

/// What a connection looks like.
#[derive(Debug, Clone, Copy, PartialEq, Eq, Structural)]
pub enum ConnectionStatus {
    /// Open and idle.
    Warm,
    /// Open and in use.
    Busy,
    /// Not open.
    Cold,
    /// Not open, and not to be opened yet.
    Gated,
    /// Not observed.
    Unknown,
}

/// A field that a device has refused, and whether that has switched it off.
#[derive(Debug, PartialEq, Eq)]
pub struct AutoDisabledField {
    pub name: String,
    pub refusals: u32,
    pub disabled: bool,
    /// The seconds until the field is tried again, where it will be.
    pub retry_in_secs: Option<u64>,
}

/// A device as the fleet shows it.
#[derive(Debug, PartialEq, Eq)]
pub struct DeviceSummary {
    pub id: String,
    pub uuid: String,
    pub host: String,
    pub port: u16,
    pub eager: bool,
    pub status: ConnectionStatus,
    pub disabled_fields: Vec<String>,
    pub auto_disabled_fields: Vec<AutoDisabledField>,
}

impl Identified for DeviceSummary {
    open spec fn key(&self) -> Seq<char> {
        self.id@
    }

    fn id_text(&self) -> (r: &str) {
        self.id.as_str()
    }
}

/// A group as the fleet shows it.
#[derive(Debug, PartialEq, Eq)]
pub struct GroupSummary {
    pub id: String,
    pub members: Vec<String>,
    pub barrier_timeout_secs: u64,
    pub barrier: Barrier,
}

impl Identified for GroupSummary {
    open spec fn key(&self) -> Seq<char> {
        self.id@
    }

    fn id_text(&self) -> (r: &str) {
        self.id.as_str()
    }
}

/// A hexadecimal digit in lower case.
pub open spec fn low_hex(n: int) -> char {
    text::lower(hex_digit(n))
}

/// The last hexadecimal digits of a number, so many of them.
pub open spec fn hex_tail(n: nat, digits: nat) -> Seq<char>
    decreases digits,
{
    if digits == 0 {
        Seq::empty()
    } else {
        hex_tail(n / 16, (digits - 1) as nat).push(low_hex((n % 16) as int))
    }
}

/// An identity as text: hexadecimal digits, eight, four, four, four and twelve,
/// with hyphens between them.
pub open spec fn uuid_text(n: u128) -> Seq<char> {
    let all = hex_tail(n as nat, 32);
    all.subrange(0, 8) + seq!['-'] + all.subrange(8, 12) + seq!['-'] + all.subrange(12, 16) + seq![
        '-',
    ] + all.subrange(16, 20) + seq!['-'] + all.subrange(20, 32)
}

/// `uuid::Uuid`'s `Display` for the identity with this value: its hexadecimal
/// digits in lower case, hyphenated.
#[verifier::external_body]
fn uuid_string(n: u128) -> (r: String)
    ensures
        r@ == uuid_text(n),
{
    uuid::Uuid::from_u128(n).to_string()
}

/// Whether a summary shows a device, whose connection has not been looked at.
pub open spec fn shows(s: DeviceSummary, config: DeviceConfig) -> bool {
    &&& s.id@ == config.id@
    &&& s.uuid@ == uuid_text(config.uuid)
    &&& s.host@ == config.host@
    &&& s.port == config.port
    &&& s.eager == config.eager
    &&& s.status == ConnectionStatus::Unknown
    &&& text::views(s.disabled_fields@) == text::views(config.disabled_fields@)
    &&& s.auto_disabled_fields@.len() == 0
}

/// A device as the fleet shows it, before anything is observed of it.
pub fn summarize(config: &DeviceConfig) -> (r: DeviceSummary)
    ensures
        shows(r, *config),
{
    DeviceSummary {
        id: config.id.clone(),
        uuid: uuid_string(config.uuid),
        host: config.host.clone(),
        port: config.port,
        eager: config.eager,
        status: ConnectionStatus::Unknown,
        disabled_fields: copy_all(&config.disabled_fields),
        auto_disabled_fields: Vec::new(),
    }
}

/// Whether a summary shows a group.
pub open spec fn shows_group(s: GroupSummary, config: GroupConfig) -> bool {
    &&& s.id@ == config.id@
    &&& text::views(s.members@) == text::views(config.device_ids@)
    &&& s.barrier_timeout_secs == config.barrier_timeout@ / 1_000_000_000
    &&& s.barrier == config.barrier
}

/// A group as the fleet shows it.
pub fn summarize_group(config: &GroupConfig) -> (r: GroupSummary)
    ensures
        shows_group(r, *config),
{
    GroupSummary {
        id: config.id.clone(),
        members: copy_all(&config.device_ids),
        barrier_timeout_secs: config.barrier_timeout.as_secs(),
        barrier: config.barrier,
    }
}

pub open spec fn shows_all(s: Seq<DeviceSummary>, configs: Seq<DeviceConfig>) -> bool {
    s.len() == configs.len() && forall|i: int| 0 <= i < s.len() ==> shows(#[trigger] s[i], configs[i])
}

/// Every device as the fleet shows it, in their order.
pub fn summarize_all(configs: &Vec<DeviceConfig>) -> (r: Vec<DeviceSummary>)
    ensures
        shows_all(r@, configs@),
{
    let mut out: Vec<DeviceSummary> = Vec::new();
    let mut i: usize = 0;
    while i < configs.len()
        invariant
            i <= configs.len(),
            out@.len() == i,
            forall|j: int| 0 <= j < i ==> shows(#[trigger] out@[j], configs@[j]),
        decreases configs.len() - i,
    {
        out.push(summarize(&configs[i]));
        i = i + 1;
    }
    out
}

pub open spec fn shows_all_groups(s: Seq<GroupSummary>, configs: Seq<GroupConfig>) -> bool {
    s.len() == configs.len() && forall|i: int|
        0 <= i < s.len() ==> shows_group(#[trigger] s[i], configs[i])
}

/// Every group as the fleet shows it, in their order.
pub fn summarize_all_groups(configs: &Vec<GroupConfig>) -> (r: Vec<GroupSummary>)
    ensures
        shows_all_groups(r@, configs@),
{
    let mut out: Vec<GroupSummary> = Vec::new();
    let mut i: usize = 0;
    while i < configs.len()
        invariant
            i <= configs.len(),
            out@.len() == i,
            forall|j: int| 0 <= j < i ==> shows_group(#[trigger] out@[j], configs@[j]),
        decreases configs.len() - i,
    {
        out.push(summarize_group(&configs[i]));
        i = i + 1;
    }
    out
}

} // verus!
