//! The document that describes the fleet as it runs.

use vstd::prelude::*;
use crate::api::Barrier;
use crate::configuration::{file_name, last_name};
use crate::inventory::config::{copy_all, secs_or_none, whole_secs, DeviceConfig, GroupConfig};
use crate::inventory::summary::AutoDisabledField;
use crate::ordered::{in_order, OrderedMap};
use crate::sorted::{is_sorted_copy, sort_by_id};
use crate::text;
use crate::text::{chars_of, copy_range, same, string_of};

verus! {

/// The kinds of file an export can be.
#[derive(Debug, Clone, Copy, PartialEq, Eq, Structural)]
pub enum ExportFormat {
    Toml,
    Json,
    Yaml,
}

/// What an export is asked for.
#[derive(Debug, Clone, Copy, PartialEq, Eq, Structural)]
pub struct ExportQuery {
    pub format: ExportFormat,
    /// Whether the fields that a device was found to refuse are written down as
    /// fields it declines.
    pub promote_auto_disabled_fields_to_disabled_fields: bool,
    /// Whether passwords are written down.
    pub include_secrets: bool,
}

/// The extension of the file that a path names: what stands behind the last dot
/// of its last name, unless the name starts with that dot.
pub open spec fn extension_of(path: Seq<char>) -> Option<Seq<char>> {
    let name = last_name(path);
    match last_dot(name) {
        Some(at) => if at == 0 || name == ".."@ {
            None
        } else {
            Some(name.skip(at + 1))
        },
        None => None,
    }
}

/// Where the last dot of a name stands.
pub open spec fn last_dot(name: Seq<char>) -> Option<int>
    decreases name.len(),
{
    if name.len() == 0 {
        None
    } else if name.last() == '.' {
        Some(name.len() - 1)
    } else {
        last_dot(name.drop_last())
    }
}

pub open spec fn format_named(extension: Option<Seq<char>>) -> ExportFormat {
    match extension {
        Some(e) => if e == "json"@ {
            ExportFormat::Json
        } else if e == "yaml"@ || e == "yml"@ {
            ExportFormat::Yaml
        } else {
            ExportFormat::Toml
        },
        None => ExportFormat::Toml,
    }
}

fn extension(path: &str) -> (r: Option<String>)
    ensures
        r is Some <==> extension_of(path@) is Some,
        r is Some ==> r->0@ == extension_of(path@)->0,
{
    let name: String = file_name(path);
    let cs: Vec<char> = chars_of(name.as_str());
    let mut at: usize = cs.len();
    proof {
        assert(cs@.take(cs@.len() as int) =~= cs@);
    }
    while at > 0 && cs[at - 1] != '.'
        invariant
            at <= cs.len(),
            last_dot(cs@) == last_dot(cs@.take(at as int)),
        decreases at,
    {
        proof {
            assert(cs@.take(at as int).drop_last() =~= cs@.take(at - 1));
        }
        at = at - 1;
    }
    if at <= 1 || same(name.as_str(), "..") {
        return None;
    }
    let tail: Vec<char> = copy_range(cs.as_slice(), at, cs.len());
    proof {
        assert(tail@ =~= cs@.skip(at as int));
    }
    Some(string_of(tail.as_slice()))
}

/// The kind of file that a path names, by its extension.
pub fn format_of(path: &str) -> (r: ExportFormat)
    ensures
        r == format_named(extension_of(path@)),
{
    match extension(path) {
        Some(e) => {
            if same(e.as_str(), "json") {
                ExportFormat::Json
            } else if same(e.as_str(), "yaml") || same(e.as_str(), "yml") {
                ExportFormat::Yaml
            } else {
                ExportFormat::Toml
            }
        },
        None => ExportFormat::Toml,
    }
}

/// What the file that survives a restart is asked for: everything the server
/// needs to reach its devices again, and nothing it has only inferred.
pub fn persist_query(path: &str) -> (r: ExportQuery)
    ensures
        r == (ExportQuery {
            format: format_named(extension_of(path@)),
            promote_auto_disabled_fields_to_disabled_fields: false,
            include_secrets: true,
        }),
{
    ExportQuery {
        format: format_of(path),
        promote_auto_disabled_fields_to_disabled_fields: false,
        include_secrets: true,
    }
}

// ---- the document ----------------------------------------------------------

/// What an exported document falls back on.
#[derive(Debug, PartialEq, Eq)]
pub struct ExportDefaults {
    pub username: Option<String>,
    pub password: Option<String>,
}

impl ExportDefaults {
    /// Whether the whole table can be left out.
    pub fn is_empty(&self) -> (r: bool)
        ensures
            r == (self.username is None && self.password is None),
    {
        self.username.is_none() && self.password.is_none()
    }
}

/// A device, with nothing left to inherit.
#[derive(Debug, PartialEq, Eq)]
pub struct ExportDevice {
    pub id: String,
    pub host: String,
    pub port: u16,
    pub username: String,
    /// There only where secrets were asked for.
    pub password: Option<String>,
    pub connect_secs: u64,
    pub exchange_secs: u64,
    pub eager: bool,
    pub sis_keepalive_secs: u64,
    pub eager_retry_secs: u64,
    pub cold_backoff_secs: u64,
    pub disabled_fields: Vec<String>,
    pub auto_disable_after: u32,
    pub self_heal_secs: u64,
}

/// A group, with nothing left to inherit.
#[derive(Debug, PartialEq, Eq)]
pub struct ExportGroup {
    pub id: String,
    pub devices: Vec<String>,
    pub barrier_timeout_secs: u64,
    pub barrier: &'static str,
}

/// The whole document.
#[derive(Debug, PartialEq, Eq)]
pub struct ExportDocument {
    pub defaults: ExportDefaults,
    pub devices: Vec<ExportDevice>,
    pub groups: Vec<ExportGroup>,
}

/// Field names.
#[derive(Debug, PartialEq, Eq)]
pub struct Names(pub Vec<String>);

impl View for Names {
    type V = Seq<Seq<char>>;

    open spec fn view(&self) -> Seq<Seq<char>> {
        text::views(self.0@)
    }
}

/// The fields that a device's entry declines: those it declares, and with them,
/// where that was asked for, those it was found to refuse.
pub open spec fn declined_fields(
    device: DeviceConfig,
    promoted: Map<Seq<char>, Seq<Seq<char>>>,
    query: ExportQuery,
) -> Set<Seq<char>> {
    let declared = text::views(device.disabled_fields@).to_set();
    if query.promote_auto_disabled_fields_to_disabled_fields && promoted.contains_key(device.id@) {
        declared.union(promoted[device.id@].to_set())
    } else {
        declared
    }
}

/// Whether an entry is that of a device.
pub open spec fn describes(
    e: ExportDevice,
    device: DeviceConfig,
    promoted: Map<Seq<char>, Seq<Seq<char>>>,
    query: ExportQuery,
) -> bool {
    &&& e.id@ == device.id@
    &&& e.host@ == device.host@
    &&& e.port == device.port
    &&& e.username@ == device.username@
    &&& e.password is Some <==> query.include_secrets
    &&& e.password is Some ==> e.password->0@ == device.password@
    &&& e.connect_secs == device.connect_timeout@ / 1_000_000_000
    &&& e.exchange_secs == device.exchange_timeout@ / 1_000_000_000
    &&& e.eager == device.eager
    &&& e.sis_keepalive_secs == secs_or_none(device.sis_keepalive)
    &&& e.eager_retry_secs == secs_or_none(device.eager_retry)
    &&& e.cold_backoff_secs == secs_or_none(device.cold_backoff)
    &&& in_order(text::views(e.disabled_fields@))
    &&& forall|f: Seq<char>|
        text::views(e.disabled_fields@).contains(f) <==> #[trigger] declined_fields(
            device,
            promoted,
            query,
        ).contains(f)
    &&& e.auto_disable_after == device.auto_disable_after
    &&& e.self_heal_secs == secs_or_none(device.self_heal)
}

pub open spec fn barrier_spelling(barrier: Barrier) -> Seq<char> {
    match barrier {
        Barrier::FailBatch => "fail_batch"@,
        Barrier::DispatchReady => "dispatch_ready"@,
    }
}

/// Whether an entry is that of a group.
pub open spec fn describes_group(e: ExportGroup, group: GroupConfig) -> bool {
    &&& e.id@ == group.id@
    &&& text::views(e.devices@) == text::views(group.device_ids@)
    &&& e.barrier_timeout_secs == group.barrier_timeout@ / 1_000_000_000
    &&& e.barrier@ == barrier_spelling(group.barrier)
}

/// Puts names into a set.
fn put_names(set: &mut OrderedMap<()>, names: &Vec<String>)
    ensures
        forall|f: Seq<char>| #[trigger]
            final(set)@.contains_key(f) <==> old(set)@.contains_key(f) || text::views(
                names@,
            ).contains(f),
{
    let mut i: usize = 0;
    let ghost all = text::views(names@);
    while i < names.len()
        invariant
            i <= names.len(),
            all == text::views(names@),
            forall|f: Seq<char>| #[trigger]
                set@.contains_key(f) <==> old(set)@.contains_key(f) || all.take(i as int).contains(
                    f,
                ),
        decreases names.len() - i,
    {
        let ghost before = set@;
        set.insert(names[i].clone(), ());
        proof {
            let next = all.take(i + 1);
            let done = all.take(i as int);
            assert(next =~= done.push(all[i as int]));
            assert forall|f: Seq<char>| #[trigger]
                set@.contains_key(f) <==> old(set)@.contains_key(f) || next.contains(f) by {
                assert(before.contains_key(f) <==> old(set)@.contains_key(f) || done.contains(f));
                if done.contains(f) {
                    let x = choose|x: int| 0 <= x < done.len() && done[x] == f;
                    assert(next[x] == f);
                }
                if next.contains(f) {
                    let x = choose|x: int| 0 <= x < next.len() && next[x] == f;
                    if x < i {
                        assert(done[x] == f);
                    }
                }
                if f == all[i as int] {
                    assert(next[i as int] == f);
                }
            }
        }
        i = i + 1;
    }
    proof {
        assert(all.take(names@.len() as int) =~= all);
    }
}

/// The names of a set, in order.
fn names_in(set: &OrderedMap<()>) -> (r: Vec<String>)
    ensures
        in_order(text::views(r@)),
        forall|f: Seq<char>| #[trigger] text::views(r@).contains(f) <==> set@.contains_key(f),
{
    let mut out: Vec<String> = Vec::new();
    let n: usize = set.len();
    let mut i: usize = 0;
    while i < n
        invariant
            i <= n,
            n == set.keys().len(),
            text::views(out@) == set.keys().take(i as int),
        decreases n - i,
    {
        let entry: (&String, &()) = set.at(i);
        let name: String = entry.0.clone();
        let ghost before = out@;
        out.push(name);
        proof {
            assert(text::views(out@) =~= text::views(before).push(name@));
            assert(set.keys().take(i + 1) =~= set.keys().take(i as int).push(set.keys()[i as int]));
        }
        i = i + 1;
    }
    proof {
        assert(set.keys().take(n as int) =~= set.keys());
    }
    out
}

/// The entry of a device.
fn device_entry(
    device: &DeviceConfig,
    promoted: &OrderedMap<Names>,
    query: &ExportQuery,
) -> (r: ExportDevice)
    ensures
        describes(r, *device, promoted@, *query),
{
    let mut disabled: OrderedMap<()> = OrderedMap::new();
    put_names(&mut disabled, &device.disabled_fields);
    if query.promote_auto_disabled_fields_to_disabled_fields {
        match promoted.get(device.id.as_str()) {
            Some(inferred) => {
                put_names(&mut disabled, &inferred.0);
            },
            None => {},
        }
    }
    let password: Option<String> = if query.include_secrets {
        Some(device.password.clone())
    } else {
        None
    };
    ExportDevice {
        id: device.id.clone(),
        host: device.host.clone(),
        port: device.port,
        username: device.username.clone(),
        password,
        connect_secs: device.connect_timeout.as_secs(),
        exchange_secs: device.exchange_timeout.as_secs(),
        eager: device.eager,
        sis_keepalive_secs: whole_secs(device.sis_keepalive),
        eager_retry_secs: whole_secs(device.eager_retry),
        cold_backoff_secs: whole_secs(device.cold_backoff),
        disabled_fields: names_in(&disabled),
        auto_disable_after: device.auto_disable_after,
        self_heal_secs: whole_secs(device.self_heal),
    }
}

/// The entry of a group.
fn group_entry(group: &GroupConfig) -> (r: ExportGroup)
    ensures
        describes_group(r, *group),
{
    ExportGroup {
        id: group.id.clone(),
        devices: copy_all(&group.device_ids),
        barrier_timeout_secs: group.barrier_timeout.as_secs(),
        barrier: match group.barrier {
            Barrier::FailBatch => "fail_batch",
            Barrier::DispatchReady => "dispatch_ready",
        },
    }
}

/// The document that describes the fleet, with an entry for each device and each
/// group in their order and every setting stated. `promoted` holds what each
/// device was found to refuse.
pub fn render(
    fleet: &Vec<DeviceConfig>,
    groups: &Vec<GroupConfig>,
    promoted: &OrderedMap<Names>,
    query: &ExportQuery,
) -> (r: ExportDocument)
    ensures
        r.defaults.username is None && r.defaults.password is None,
        r.devices@.len() == fleet@.len(),
        forall|i: int|
            0 <= i < fleet@.len() ==> describes(
                #[trigger] r.devices@[i],
                fleet@[i],
                promoted@,
                *query,
            ),
        r.groups@.len() == groups@.len(),
        forall|i: int|
            0 <= i < groups@.len() ==> describes_group(#[trigger] r.groups@[i], groups@[i]),
{
    let mut devices: Vec<ExportDevice> = Vec::new();
    let mut i: usize = 0;
    while i < fleet.len()
        invariant
            i <= fleet.len(),
            devices@.len() == i,
            forall|j: int|
                0 <= j < i ==> describes(#[trigger] devices@[j], fleet@[j], promoted@, *query),
        decreases fleet.len() - i,
    {
        devices.push(device_entry(&fleet[i], promoted, query));
        i = i + 1;
    }
    let mut out: Vec<ExportGroup> = Vec::new();
    let mut n: usize = 0;
    while n < groups.len()
        invariant
            n <= groups.len(),
            out@.len() == n,
            forall|j: int| 0 <= j < n ==> describes_group(#[trigger] out@[j], groups@[j]),
        decreases groups.len() - n,
    {
        out.push(group_entry(&groups[n]));
        n = n + 1;
    }
    ExportDocument {
        defaults: ExportDefaults { username: None, password: None },
        devices,
        groups: out,
    }
}

/// Whether entries are those of devices, one each and in their order.
pub open spec fn describes_all(
    entries: Seq<ExportDevice>,
    devices: Seq<DeviceConfig>,
    promoted: Map<Seq<char>, Seq<Seq<char>>>,
    query: ExportQuery,
) -> bool {
    entries.len() == devices.len() && forall|i: int|
        0 <= i < devices.len() ==> describes(#[trigger] entries[i], devices[i], promoted, query)
}

/// The document that describes a fleet in no particular order: its devices
/// ordered by id.
pub fn export(
    fleet: Vec<DeviceConfig>,
    groups: &Vec<GroupConfig>,
    promoted: &OrderedMap<Names>,
    query: &ExportQuery,
) -> (r: ExportDocument)
    ensures
        r.defaults.username is None && r.defaults.password is None,
        exists|sorted: Seq<DeviceConfig>| #[trigger]
            is_sorted_copy(sorted, fleet@) && describes_all(
                r.devices@,
                sorted,
                promoted@,
                *query,
            ),
        r.groups@.len() == groups@.len(),
        forall|i: int|
            0 <= i < groups@.len() ==> describes_group(#[trigger] r.groups@[i], groups@[i]),
{
    let ghost all = fleet@;
    let sorted: Vec<DeviceConfig> = sort_by_id(fleet);
    let r: ExportDocument = render(&sorted, groups, promoted, query);
    proof {
        assert(is_sorted_copy(sorted@, all));
        assert(describes_all(r.devices@, sorted@, promoted@, *query));
    }
    r
}

/// Only the refused fields that are switched off: a field that was refused and
/// is still watched is no fact about the device yet.
pub open spec fn switched_off(fields: Seq<(Seq<char>, bool)>) -> Seq<Seq<char>>
    decreases fields.len(),
{
    if fields.len() == 0 {
        Seq::empty()
    } else if fields.last().1 {
        switched_off(fields.drop_last()).push(fields.last().0)
    } else {
        switched_off(fields.drop_last())
    }
}

pub open spec fn refusals_model(fields: Seq<AutoDisabledField>) -> Seq<
    (Seq<char>, bool),
> {
    fields.map_values(|f: AutoDisabledField| (f.name@, f.disabled))
}

/// The fields that an export may promote, of those a device was found to refuse.
pub fn promotable(fields: &Vec<AutoDisabledField>) -> (r: Names)
    ensures
        r@ == switched_off(refusals_model(fields@)),
{
    let mut out: Vec<String> = Vec::new();
    let ghost all = refusals_model(fields@);
    let mut i: usize = 0;
    proof {
        assert(text::views(out@) =~= switched_off(all.take(0)));
    }
    while i < fields.len()
        invariant
            i <= fields.len(),
            all == refusals_model(fields@),
            text::views(out@) == switched_off(all.take(i as int)),
        decreases fields.len() - i,
    {
        let ghost before = out@;
        proof {
            assert(all.take(i + 1).drop_last() =~= all.take(i as int));
            assert(all.take(i + 1).last() == (fields@[i as int].name@, fields@[i as int].disabled));
        }
        if fields[i].disabled {
            out.push(fields[i].name.clone());
            proof {
                assert(text::views(out@) =~= text::views(before).push(fields@[i as int].name@));
            }
        }
        i = i + 1;
    }
    proof {
        assert(all.take(fields@.len() as int) =~= all);
    }
    Names(out)
}

} // verus!
