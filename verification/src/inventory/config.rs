//! Devices and groups, as the document writes them and as they resolve.

use vstd::prelude::*;
use vstd::string::*;
use crate::api::Barrier;
use crate::sorted::Identified;
use crate::text;
use crate::text::text_of;
use crate::time::Duration;

verus! {

pub open spec fn texts_of(v: Option<Vec<String>>) -> Option<Seq<Seq<char>>> {
    match v {
        Some(v) => Some(text::views(v@)),
        None => None,
    }
}

pub fn copy_text(s: &Option<String>) -> (r: Option<String>)
    ensures
        text_of(r) == text_of(*s),
{
    match s {
        Some(s) => Some(s.clone()),
        None => None,
    }
}

pub fn copy_all(v: &Vec<String>) -> (r: Vec<String>)
    ensures
        r@ == v@,
{
    let mut out: Vec<String> = Vec::new();
    let mut i: usize = 0;
    while i < v.len()
        invariant
            i <= v.len(),
            out@ == v@.take(i as int),
        decreases v.len() - i,
    {
        out.push(v[i].clone());
        proof {
            assert(v@.take(i + 1) =~= v@.take(i as int).push(v@[i as int]));
        }
        i = i + 1;
    }
    proof {
        assert(v@.take(v@.len() as int) =~= v@);
    }
    out
}

pub fn copy_texts(v: &Option<Vec<String>>) -> (r: Option<Vec<String>>)
    ensures
        texts_of(r) == texts_of(*v),
{
    match v {
        Some(v) => Some(copy_all(v)),
        None => None,
    }
}

/// The seconds of a delay, none of them where there is no delay.
pub open spec fn secs_or_none(d: Option<Duration>) -> u64 {
    match d {
        Some(d) => (d@ / 1_000_000_000) as u64,
        None => 0,
    }
}

pub fn whole_secs(d: Option<Duration>) -> (r: u64)
    ensures
        r == secs_or_none(d),
{
    match d {
        Some(d) => d.as_secs(),
        None => 0,
    }
}

// ---- as they resolve -------------------------------------------------------

/// A device with every setting settled.
#[derive(Debug, PartialEq, Eq)]
pub struct DeviceConfig {
    pub id: String,
    pub host: String,
    pub port: u16,
    pub username: String,
    pub password: String,
    pub connect_timeout: Duration,
    pub exchange_timeout: Duration,
    pub eager: bool,
    pub sis_keepalive: Option<Duration>,
    pub eager_retry: Option<Duration>,
    pub cold_backoff: Option<Duration>,
    /// The identity of this configuration.
    pub uuid: u128,
    /// The fields the device declines, in order.
    pub disabled_fields: Vec<String>,
    pub auto_disable_after: u32,
    pub self_heal: Option<Duration>,
}

impl Identified for DeviceConfig {
    open spec fn key(&self) -> Seq<char> {
        self.id@
    }

    fn id_text(&self) -> (r: &str) {
        self.id.as_str()
    }
}

/// A group with every setting settled.
#[derive(Debug, PartialEq, Eq)]
pub struct GroupConfig {
    pub id: String,
    pub device_ids: Vec<String>,
    pub barrier_timeout: Duration,
    pub barrier: Barrier,
}

impl Identified for GroupConfig {
    open spec fn key(&self) -> Seq<char> {
        self.id@
    }

    fn id_text(&self) -> (r: &str) {
        self.id.as_str()
    }
}

/// What a document resolves to.
#[derive(Debug, PartialEq, Eq)]
pub struct Resolved {
    pub devices: Vec<DeviceConfig>,
    pub groups: Vec<GroupConfig>,
}

// ---- as the document writes them -------------------------------------------

/// A device as written. What it leaves out it inherits.
#[derive(Debug, PartialEq, Eq)]
pub struct RawDevice {
    pub id: String,
    pub host: String,
    pub port: Option<u16>,
    pub username: Option<String>,
    pub password: Option<String>,
    pub connect_secs: Option<u64>,
    pub exchange_secs: Option<u64>,
    pub eager: Option<bool>,
    pub sis_keepalive_secs: Option<u64>,
    pub eager_retry_secs: Option<u64>,
    pub cold_backoff_secs: Option<u64>,
    pub disabled_fields: Option<Vec<String>>,
    pub auto_disable_after: Option<u32>,
    pub self_heal_secs: Option<u64>,
}

pub struct RawDeviceModel {
    pub id: Seq<char>,
    pub host: Seq<char>,
    pub port: Option<u16>,
    pub username: Option<Seq<char>>,
    pub password: Option<Seq<char>>,
    pub connect_secs: Option<u64>,
    pub exchange_secs: Option<u64>,
    pub eager: Option<bool>,
    pub sis_keepalive_secs: Option<u64>,
    pub eager_retry_secs: Option<u64>,
    pub cold_backoff_secs: Option<u64>,
    pub disabled_fields: Option<Seq<Seq<char>>>,
    pub auto_disable_after: Option<u32>,
    pub self_heal_secs: Option<u64>,
}

impl View for RawDevice {
    type V = RawDeviceModel;

    open spec fn view(&self) -> RawDeviceModel {
        RawDeviceModel {
            id: self.id@,
            host: self.host@,
            port: self.port,
            username: text_of(self.username),
            password: text_of(self.password),
            connect_secs: self.connect_secs,
            exchange_secs: self.exchange_secs,
            eager: self.eager,
            sis_keepalive_secs: self.sis_keepalive_secs,
            eager_retry_secs: self.eager_retry_secs,
            cold_backoff_secs: self.cold_backoff_secs,
            disabled_fields: texts_of(self.disabled_fields),
            auto_disable_after: self.auto_disable_after,
            self_heal_secs: self.self_heal_secs,
        }
    }
}

impl Clone for RawDevice {
    fn clone(&self) -> (r: Self)
        ensures
            r@ == self@,
    {
        RawDevice {
            id: self.id.clone(),
            host: self.host.clone(),
            port: self.port,
            username: copy_text(&self.username),
            password: copy_text(&self.password),
            connect_secs: self.connect_secs,
            exchange_secs: self.exchange_secs,
            eager: self.eager,
            sis_keepalive_secs: self.sis_keepalive_secs,
            eager_retry_secs: self.eager_retry_secs,
            cold_backoff_secs: self.cold_backoff_secs,
            disabled_fields: copy_texts(&self.disabled_fields),
            auto_disable_after: self.auto_disable_after,
            self_heal_secs: self.self_heal_secs,
        }
    }
}

impl Identified for RawDevice {
    open spec fn key(&self) -> Seq<char> {
        self.id@
    }

    fn id_text(&self) -> (r: &str) {
        self.id.as_str()
    }
}

/// A group as written.
#[derive(Debug, PartialEq, Eq)]
pub struct RawGroup {
    pub id: String,
    pub devices: Vec<String>,
    pub barrier_timeout_secs: Option<u64>,
    pub barrier: Option<Barrier>,
}

pub struct RawGroupModel {
    pub id: Seq<char>,
    pub devices: Seq<Seq<char>>,
    pub barrier_timeout_secs: Option<u64>,
    pub barrier: Option<Barrier>,
}

impl View for RawGroup {
    type V = RawGroupModel;

    open spec fn view(&self) -> RawGroupModel {
        RawGroupModel {
            id: self.id@,
            devices: text::views(self.devices@),
            barrier_timeout_secs: self.barrier_timeout_secs,
            barrier: self.barrier,
        }
    }
}

impl Clone for RawGroup {
    fn clone(&self) -> (r: Self)
        ensures
            r@ == self@,
    {
        RawGroup {
            id: self.id.clone(),
            devices: copy_all(&self.devices),
            barrier_timeout_secs: self.barrier_timeout_secs,
            barrier: self.barrier,
        }
    }
}

impl Identified for RawGroup {
    open spec fn key(&self) -> Seq<char> {
        self.id@
    }

    fn id_text(&self) -> (r: &str) {
        self.id.as_str()
    }
}

/// What every device of a document falls back on.
#[derive(Debug, PartialEq, Eq)]
pub struct DeviceDefaults {
    pub username: Option<String>,
    pub password: Option<String>,
}

/// The document of devices and groups.
#[derive(Debug, PartialEq, Eq)]
pub struct RawConfig {
    pub defaults: DeviceDefaults,
    pub devices: Vec<RawDevice>,
    pub groups: Vec<RawGroup>,
}

pub struct RawConfigModel {
    pub username: Option<Seq<char>>,
    pub password: Option<Seq<char>>,
    pub devices: Seq<RawDeviceModel>,
    pub groups: Seq<RawGroupModel>,
}

pub open spec fn devices_model(devices: Seq<RawDevice>) -> Seq<RawDeviceModel> {
    devices.map_values(|d: RawDevice| d@)
}

pub open spec fn groups_model(groups: Seq<RawGroup>) -> Seq<RawGroupModel> {
    groups.map_values(|g: RawGroup| g@)
}

impl View for RawConfig {
    type V = RawConfigModel;

    open spec fn view(&self) -> RawConfigModel {
        RawConfigModel {
            username: text_of(self.defaults.username),
            password: text_of(self.defaults.password),
            devices: devices_model(self.devices@),
            groups: groups_model(self.groups@),
        }
    }
}

fn copy_devices(devices: &Vec<RawDevice>) -> (r: Vec<RawDevice>)
    ensures
        devices_model(r@) == devices_model(devices@),
{
    let mut out: Vec<RawDevice> = Vec::new();
    let mut i: usize = 0;
    while i < devices.len()
        invariant
            i <= devices.len(),
            out@.len() == i,
            forall|j: int| 0 <= j < i ==> (#[trigger] out@[j])@ == devices@[j]@,
        decreases devices.len() - i,
    {
        out.push(devices[i].clone());
        i = i + 1;
    }
    proof {
        assert(devices_model(out@) =~= devices_model(devices@));
    }
    out
}

fn copy_groups(groups: &Vec<RawGroup>) -> (r: Vec<RawGroup>)
    ensures
        groups_model(r@) == groups_model(groups@),
{
    let mut out: Vec<RawGroup> = Vec::new();
    let mut i: usize = 0;
    while i < groups.len()
        invariant
            i <= groups.len(),
            out@.len() == i,
            forall|j: int| 0 <= j < i ==> (#[trigger] out@[j])@ == groups@[j]@,
        decreases groups.len() - i,
    {
        out.push(groups[i].clone());
        i = i + 1;
    }
    proof {
        assert(groups_model(out@) =~= groups_model(groups@));
    }
    out
}

impl Clone for RawConfig {
    fn clone(&self) -> (r: Self)
        ensures
            r@ == self@,
    {
        RawConfig {
            defaults: DeviceDefaults {
                username: copy_text(&self.defaults.username),
                password: copy_text(&self.defaults.password),
            },
            devices: copy_devices(&self.devices),
            groups: copy_groups(&self.groups),
        }
    }
}

// ---- what a caller writes --------------------------------------------------

/// A device as a caller writes it. The id may be left to the address.
#[derive(Debug, PartialEq, Eq)]
pub struct DeviceWrite {
    pub id: Option<String>,
    pub host: String,
    pub port: Option<u16>,
    pub username: Option<String>,
    pub password: Option<String>,
    pub connect_secs: Option<u64>,
    pub exchange_secs: Option<u64>,
    pub eager: Option<bool>,
    pub sis_keepalive_secs: Option<u64>,
    pub eager_retry_secs: Option<u64>,
    pub cold_backoff_secs: Option<u64>,
    pub disabled_fields: Option<Vec<String>>,
    pub auto_disable_after: Option<u32>,
    pub self_heal_secs: Option<u64>,
}

/// A group as a caller writes it. The id may be left to the address.
#[derive(Debug, PartialEq, Eq)]
pub struct GroupWrite {
    pub id: Option<String>,
    pub devices: Vec<String>,
    pub barrier_timeout_secs: Option<u64>,
    pub barrier: Option<Barrier>,
}

/// The document's device for what a caller writes under an id.
pub open spec fn written_device(id: Seq<char>, write: DeviceWrite) -> RawDeviceModel {
    RawDeviceModel {
        id,
        host: write.host@,
        port: write.port,
        username: text_of(write.username),
        password: text_of(write.password),
        connect_secs: write.connect_secs,
        exchange_secs: write.exchange_secs,
        eager: write.eager,
        sis_keepalive_secs: write.sis_keepalive_secs,
        eager_retry_secs: write.eager_retry_secs,
        cold_backoff_secs: write.cold_backoff_secs,
        disabled_fields: texts_of(write.disabled_fields),
        auto_disable_after: write.auto_disable_after,
        self_heal_secs: write.self_heal_secs,
    }
}

/// Turns what a caller writes into the document's device.
pub fn raw_of_write(id: String, write: DeviceWrite) -> (r: RawDevice)
    ensures
        r@ == written_device(id@, write),
{
    RawDevice {
        id,
        host: write.host,
        port: write.port,
        username: write.username,
        password: write.password,
        connect_secs: write.connect_secs,
        exchange_secs: write.exchange_secs,
        eager: write.eager,
        sis_keepalive_secs: write.sis_keepalive_secs,
        eager_retry_secs: write.eager_retry_secs,
        cold_backoff_secs: write.cold_backoff_secs,
        disabled_fields: write.disabled_fields,
        auto_disable_after: write.auto_disable_after,
        self_heal_secs: write.self_heal_secs,
    }
}

/// The document's group for what a caller writes under an id.
pub open spec fn written_group(id: Seq<char>, write: GroupWrite) -> RawGroupModel {
    RawGroupModel {
        id,
        devices: text::views(write.devices@),
        barrier_timeout_secs: write.barrier_timeout_secs,
        barrier: write.barrier,
    }
}

/// Turns what a caller writes into the document's group.
pub fn raw_of_group_write(id: String, write: GroupWrite) -> (r: RawGroup)
    ensures
        r@ == written_group(id@, write),
{
    RawGroup {
        id,
        devices: write.devices,
        barrier_timeout_secs: write.barrier_timeout_secs,
        barrier: write.barrier,
    }
}

/// A settled device as the document would write it, with nothing left out, so
/// that no later default changes it.
pub open spec fn stated_device(config: DeviceConfig) -> RawDeviceModel {
    RawDeviceModel {
        id: config.id@,
        host: config.host@,
        port: Some(config.port),
        username: Some(config.username@),
        password: Some(config.password@),
        connect_secs: Some((config.connect_timeout@ / 1_000_000_000) as u64),
        exchange_secs: Some((config.exchange_timeout@ / 1_000_000_000) as u64),
        eager: Some(config.eager),
        sis_keepalive_secs: Some(secs_or_none(config.sis_keepalive)),
        eager_retry_secs: Some(secs_or_none(config.eager_retry)),
        cold_backoff_secs: Some(secs_or_none(config.cold_backoff)),
        disabled_fields: Some(text::views(config.disabled_fields@)),
        auto_disable_after: Some(config.auto_disable_after),
        self_heal_secs: Some(secs_or_none(config.self_heal)),
    }
}

/// Projects a settled device back onto the document.
pub fn raw_of(config: &DeviceConfig) -> (r: RawDevice)
    ensures
        r@ == stated_device(*config),
{
    RawDevice {
        id: config.id.clone(),
        host: config.host.clone(),
        port: Some(config.port),
        username: Some(config.username.clone()),
        password: Some(config.password.clone()),
        connect_secs: Some(config.connect_timeout.as_secs()),
        exchange_secs: Some(config.exchange_timeout.as_secs()),
        eager: Some(config.eager),
        sis_keepalive_secs: Some(whole_secs(config.sis_keepalive)),
        eager_retry_secs: Some(whole_secs(config.eager_retry)),
        cold_backoff_secs: Some(whole_secs(config.cold_backoff)),
        disabled_fields: Some(copy_all(&config.disabled_fields)),
        auto_disable_after: Some(config.auto_disable_after),
        self_heal_secs: Some(whole_secs(config.self_heal)),
    }
}

pub open spec fn stated_devices(devices: Seq<DeviceConfig>) -> Seq<RawDeviceModel> {
    devices.map_values(|d: DeviceConfig| stated_device(d))
}

/// Projects settled devices back onto the document, in their order.
pub fn raw_of_all(devices: &Vec<DeviceConfig>) -> (r: Vec<RawDevice>)
    ensures
        devices_model(r@) == stated_devices(devices@),
{
    let mut out: Vec<RawDevice> = Vec::new();
    let mut i: usize = 0;
    while i < devices.len()
        invariant
            i <= devices.len(),
            out@.len() == i,
            forall|j: int| 0 <= j < i ==> (#[trigger] out@[j])@ == stated_device(devices@[j]),
        decreases devices.len() - i,
    {
        out.push(raw_of(&devices[i]));
        i = i + 1;
    }
    proof {
        assert(devices_model(out@) =~= stated_devices(devices@));
    }
    out
}

} // verus!
