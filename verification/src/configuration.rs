//! Server configuration: what the file, its defaults table and the built-in
//! values come to, and what the command line puts above them.

use vstd::prelude::*;
use vstd::string::*;
use crate::text;
use crate::text::{chars_of, copy_range, join2, join3, same, string_of, text_of};
use crate::time::Duration;

verus! {

/// The devices file, where nothing names one.
pub const DEFAULT_DEVICES_CONFIG_PATH: &'static str = "devices.toml";

pub const DEFAULT_INTERVAL_SECS: u64 = 30;

/// The one field that is polled where nothing names any.
pub const DEFAULT_FIELD: &'static str = "RUNNING_STATE";

/// The entry that stands for every field of the catalog.
pub const ALL_FIELDS: &'static str = "*";

pub const DEFAULT_HOST: &'static str = "127.0.0.1";

pub const DEFAULT_PORT: u16 = 8080;

pub const DEFAULT_INTENT_RELAY_POLL_MS: u64 = 250;

pub const DEFAULT_MAX_ATTEMPTS: u32 = 3;

/// The prefix of the environment variables that write the document.
pub const ENV_PREFIX: &'static str = "SISMATIC_SERVER";

/// What stands between the parts of such a variable's name.
pub const ENV_SEPARATOR: &'static str = "__";

pub const ENV_LIST_SEPARATOR: &'static str = ",";

/// The key that [`CONFIG_PATH_ENV`] comes to without the prefix.
pub const ENV_CONFIG_PATH_KEY: &'static str = "config";

/// The variable that names the config file to read.
pub const CONFIG_PATH_ENV: &'static str = "SISMATIC_SERVER__CONFIG";

/// The config file, where nothing names one.
pub const DEFAULT_CONFIG_PATH: &'static str = "configuration.yaml";

// ---- the document as written -----------------------------------------------

/// One entry of a field list as written: a name, and the interval where it pins
/// one.
#[derive(Debug, PartialEq, Eq)]
pub struct RawField {
    pub name: String,
    pub interval_secs: Option<u64>,
}

pub struct RawFieldModel {
    pub name: Seq<char>,
    pub interval_secs: Option<u64>,
}

impl View for RawField {
    type V = RawFieldModel;

    open spec fn view(&self) -> RawFieldModel {
        RawFieldModel { name: self.name@, interval_secs: self.interval_secs }
    }
}

impl Clone for RawField {
    fn clone(&self) -> (r: Self)
        ensures
            r == *self,
    {
        RawField { name: self.name.clone(), interval_secs: self.interval_secs }
    }
}

impl RawFieldModel {
    pub open spec fn wildcard(self) -> bool {
        self.name == ALL_FIELDS@
    }
}

impl RawField {
    /// A field that inherits its interval.
    pub fn named(name: &str) -> (r: Self)
        ensures
            r@ == (RawFieldModel { name: name@, interval_secs: None }),
    {
        RawField { name: name.to_owned(), interval_secs: None }
    }

    /// Whether the entry stands for every field of the catalog.
    pub fn is_wildcard(&self) -> (r: bool)
        ensures
            r == self@.wildcard(),
    {
        same(self.name.as_str(), ALL_FIELDS)
    }
}

pub open spec fn raw_model(fields: Seq<RawField>) -> Seq<RawFieldModel> {
    fields.map_values(|f: RawField| f@)
}

/// The intent relay's section as written.
#[derive(Debug, PartialEq, Eq)]
pub struct RawIntentRelay {
    pub poll_ms: Option<u64>,
    pub max_attempts: Option<u32>,
}

/// The polling section as written.
#[derive(Debug, PartialEq, Eq)]
pub struct RawSync {
    /// What every field inherits unless it pins its own.
    pub interval_secs: Option<u64>,
    pub fields: Option<Vec<RawField>>,
}

/// The listening section as written.
#[derive(Debug, PartialEq, Eq)]
pub struct RawHttp {
    pub host: Option<String>,
    pub port: Option<u16>,
}

/// What the sections fall back on.
#[derive(Debug, PartialEq, Eq)]
pub struct Defaults {
    pub devices_config_path: Option<String>,
    pub interval_secs: Option<u64>,
    pub fields: Option<Vec<RawField>>,
    pub host: Option<String>,
    pub port: Option<u16>,
}

impl Default for Defaults {
    fn default() -> (r: Self)
        ensures
            r.devices_config_path is None,
            r.interval_secs is None,
            r.fields is None,
            r.host is None,
            r.port is None,
    {
        Defaults {
            devices_config_path: None,
            interval_secs: None,
            fields: None,
            host: None,
            port: None,
        }
    }
}

/// The document as written, with every entry optional.
#[derive(Debug, PartialEq, Eq)]
pub struct RawServerConfig {
    pub defaults: Defaults,
    pub devices_config_path: Option<String>,
    pub intent_relay: Option<RawIntentRelay>,
    pub sync: Option<RawSync>,
    pub http: Option<RawHttp>,
}

impl Default for RawServerConfig {
    fn default() -> (r: Self)
        ensures
            r.defaults.devices_config_path is None,
            r.defaults.interval_secs is None,
            r.defaults.fields is None,
            r.defaults.host is None,
            r.defaults.port is None,
            r.devices_config_path is None,
            r.intent_relay is None,
            r.sync is None,
            r.http is None,
    {
        RawServerConfig {
            defaults: Defaults::default(),
            devices_config_path: None,
            intent_relay: None,
            sync: None,
            http: None,
        }
    }
}

// ---- the document resolved -------------------------------------------------

/// How the intent relay drains the outbox.
#[derive(Debug, Clone, Copy, PartialEq, Eq)]
pub struct IntentRelayConfig {
    /// How often it looks.
    pub poll: Duration,
    /// How many tries a write gets in all.
    pub max_attempts: u32,
}

/// One field and how often it is polled, or nothing for never.
#[derive(Debug, PartialEq, Eq)]
pub struct FieldConfig {
    pub name: String,
    pub interval: Option<Duration>,
}

pub struct FieldConfigModel {
    pub name: Seq<char>,
    pub interval: Option<nat>,
}

/// The length of an interval, where there is one.
pub open spec fn length_of(interval: Option<Duration>) -> Option<nat> {
    match interval {
        Some(d) => Some(d@),
        None => None,
    }
}

impl View for FieldConfig {
    type V = FieldConfigModel;

    open spec fn view(&self) -> FieldConfigModel {
        FieldConfigModel { name: self.name@, interval: length_of(self.interval) }
    }
}

impl Clone for FieldConfig {
    fn clone(&self) -> (r: Self)
        ensures
            r == *self,
    {
        FieldConfig { name: self.name.clone(), interval: self.interval }
    }
}

pub open spec fn fields_model(fields: Seq<FieldConfig>) -> Seq<FieldConfigModel> {
    fields.map_values(|f: FieldConfig| f@)
}

/// What is polled.
#[derive(Debug, PartialEq, Eq)]
pub struct SyncConfig {
    /// What a field inherits that pins nothing, or nothing for never.
    pub default_interval: Option<Duration>,
    /// Every field of the list, the ones that are never polled among them.
    pub fields: Vec<FieldConfig>,
}

/// Where the server listens.
#[derive(Debug, PartialEq, Eq)]
pub struct HttpConfig {
    pub host: String,
    pub port: u16,
}

/// A config with every entry settled.
#[derive(Debug, PartialEq, Eq)]
pub struct ServerConfig {
    pub devices_config_path: String,
    pub intent_relay: IntentRelayConfig,
    pub sync: SyncConfig,
    pub http: HttpConfig,
}

fn copy_fields(fields: &Vec<FieldConfig>) -> (r: Vec<FieldConfig>)
    ensures
        r@ == fields@,
{
    let mut out: Vec<FieldConfig> = Vec::new();
    let mut i: usize = 0;
    while i < fields.len()
        invariant
            i <= fields.len(),
            out@ == fields@.take(i as int),
        decreases fields.len() - i,
    {
        out.push(fields[i].clone());
        proof {
            assert(fields@.take(i + 1) =~= fields@.take(i as int).push(fields@[i as int]));
        }
        i = i + 1;
    }
    proof {
        assert(fields@.take(fields@.len() as int) =~= fields@);
    }
    out
}

impl Clone for ServerConfig {
    fn clone(&self) -> (r: Self)
        ensures
            r@ == self@,
    {
        ServerConfig {
            devices_config_path: self.devices_config_path.clone(),
            intent_relay: self.intent_relay,
            sync: SyncConfig {
                default_interval: self.sync.default_interval,
                fields: copy_fields(&self.sync.fields),
            },
            http: HttpConfig { host: self.http.host.clone(), port: self.http.port },
        }
    }
}

pub struct ServerConfigModel {
    pub devices_config_path: Seq<char>,
    pub poll: nat,
    pub max_attempts: u32,
    pub default_interval: Option<nat>,
    pub fields: Seq<FieldConfigModel>,
    pub host: Seq<char>,
    pub port: u16,
}

impl View for ServerConfig {
    type V = ServerConfigModel;

    open spec fn view(&self) -> ServerConfigModel {
        ServerConfigModel {
            devices_config_path: self.devices_config_path@,
            poll: self.intent_relay.poll@,
            max_attempts: self.intent_relay.max_attempts,
            default_interval: length_of(self.sync.default_interval),
            fields: fields_model(self.sync.fields@),
            host: self.http.host@,
            port: self.http.port,
        }
    }
}

// ---- paths -----------------------------------------------------------------

/// A path without the separators and the dots behind its last name.
pub open spec fn settled(path: Seq<char>) -> Seq<char>
    decreases path.len(),
{
    if path.len() > 1 && path.last() == '/' {
        settled(path.drop_last())
    } else if path.len() > 1 && path.last() == '.' && path[path.len() - 2] == '/' {
        settled(path.drop_last())
    } else {
        path
    }
}

/// Where the last name of a path starts: behind its last separator.
pub open spec fn last_name_at(path: Seq<char>) -> nat
    decreases path.len(),
{
    if path.len() == 0 || path.last() == '/' {
        path.len()
    } else {
        last_name_at(path.drop_last())
    }
}

/// The last name of a path.
pub open spec fn last_name(path: Seq<char>) -> Seq<char> {
    let whole = settled(path);
    whole.skip(last_name_at(whole) as int)
}

/// The directory that a path lies in. A bare name lies in the working directory,
/// which is the empty path; so does what is no name at all.
pub open spec fn directory_of(path: Seq<char>) -> Seq<char> {
    let whole = settled(path);
    let at = last_name_at(whole) as int;
    if at == whole.len() {
        Seq::empty()
    } else {
        settled(whole.take(at))
    }
}

/// A path as seen from a directory: itself if it starts at the root.
pub open spec fn seen_from(base: Seq<char>, path: Seq<char>) -> Seq<char> {
    if (path.len() > 0 && path[0] == '/') || base.len() == 0 {
        path
    } else if base.last() == '/' {
        base + path
    } else {
        base + "/"@ + path
    }
}

fn settle(path: &Vec<char>, upto: usize) -> (r: usize)
    requires
        upto <= path.len(),
    ensures
        r <= upto,
        path@.take(r as int) == settled(path@.take(upto as int)),
{
    let mut end: usize = upto;
    while end > 1 && (path[end - 1] == '/' || (path[end - 1] == '.' && path[end - 2] == '/'))
        invariant
            end <= upto <= path.len(),
            settled(path@.take(end as int)) == settled(path@.take(upto as int)),
        decreases end,
    {
        proof {
            assert(path@.take(end as int).drop_last() =~= path@.take(end - 1));
        }
        end = end - 1;
    }
    end
}

fn name_start(path: &Vec<char>, end: usize) -> (r: usize)
    requires
        end <= path.len(),
    ensures
        r <= end,
        r == last_name_at(path@.take(end as int)),
{
    let mut at: usize = end;
    let ghost whole = path@.take(end as int);
    while at > 0 && path[at - 1] != '/'
        invariant
            at <= end <= path.len(),
            whole == path@.take(end as int),
            last_name_at(whole) == last_name_at(path@.take(at as int)),
        decreases at,
    {
        proof {
            assert(path@.take(at as int).drop_last() =~= path@.take(at - 1));
        }
        at = at - 1;
    }
    at
}

/// The directory that a config file lies in.
pub fn base_dir(config_path: &str) -> (r: String)
    ensures
        r@ == directory_of(config_path@),
{
    let path: Vec<char> = chars_of(config_path);
    let end: usize = settle(&path, path.len());
    proof {
        assert(path@.take(path@.len() as int) =~= path@);
    }
    let ghost whole = path@.take(end as int);
    let at: usize = name_start(&path, end);
    if at == end {
        return String::new();
    }
    let stop: usize = settle(&path, at);
    proof {
        assert(whole.take(at as int) =~= path@.take(at as int));
        assert(path@.subrange(0, stop as int) =~= path@.take(stop as int));
    }
    let dir: Vec<char> = copy_range(path.as_slice(), 0, stop);
    string_of(dir.as_slice())
}

/// The last name of a path.
pub fn file_name(path: &str) -> (r: String)
    ensures
        r@ == last_name(path@),
{
    let cs: Vec<char> = chars_of(path);
    let end: usize = settle(&cs, cs.len());
    let ghost whole = cs@.take(end as int);
    let at: usize = name_start(&cs, end);
    let name: Vec<char> = copy_range(cs.as_slice(), at, end);
    proof {
        assert(cs@.take(cs@.len() as int) =~= cs@);
        assert(name@ =~= whole.skip(at as int));
    }
    string_of(name.as_slice())
}

/// A path as seen from a directory.
pub fn anchored(base: &str, path: &str) -> (r: String)
    ensures
        r@ == seen_from(base@, path@),
{
    let b: Vec<char> = chars_of(base);
    let p: Vec<char> = chars_of(path);
    if (p.len() > 0 && p[0] == '/') || b.len() == 0 {
        path.to_owned()
    } else if b[b.len() - 1] == '/' {
        join2(base, path)
    } else {
        join3(base, "/", path)
    }
}

/// Which config file to read: the one of the command line, else the one of the
/// environment, else the one that ships.
pub fn resolve_config_path(arg: Option<String>, env: Option<String>) -> (r: String)
    ensures
        r@ == chosen_text(arg, env, DEFAULT_CONFIG_PATH@),
{
    choose_text(arg, env, DEFAULT_CONFIG_PATH)
}

// ---- layers ----------------------------------------------------------------

/// The first of two layers that says anything, or the built-in value.
pub open spec fn chosen_text(
    first: Option<String>,
    second: Option<String>,
    built_in: Seq<char>,
) -> Seq<char> {
    match first {
        Some(s) => s@,
        None => match second {
            Some(s) => s@,
            None => built_in,
        },
    }
}

pub open spec fn chosen<T>(first: Option<T>, second: Option<T>, built_in: T) -> T {
    match first {
        Some(x) => x,
        None => match second {
            Some(x) => x,
            None => built_in,
        },
    }
}

fn choose_text(first: Option<String>, second: Option<String>, built_in: &str) -> (r: String)
    ensures
        r@ == chosen_text(first, second, built_in@),
{
    match first {
        Some(s) => s,
        None => match second {
            Some(s) => s,
            None => built_in.to_owned(),
        },
    }
}

/// An interval in seconds: none of them means never.
pub open spec fn every(secs: nat) -> Option<nat> {
    if secs > 0 {
        Some(secs * 1_000_000_000)
    } else {
        None
    }
}

/// How often the relay looks. It looks at the least once a millisecond, for it
/// cannot be told never to look.
pub fn handle_poll(ms: u64) -> (r: Duration)
    ensures
        r@ == (if ms > 1 {
            ms
        } else {
            1
        }) * 1_000_000,
{
    if ms > 1 {
        Duration::from_millis(ms)
    } else {
        Duration::from_millis(1)
    }
}

/// Reads an interval in seconds, of which none means never.
pub fn handle_interval(secs: u64) -> (r: Option<Duration>)
    ensures
        length_of(r) == every(secs as nat),
{
    if secs > 0 {
        Some(Duration::from_secs(secs))
    } else {
        None
    }
}

// ---- the schedule ----------------------------------------------------------

/// What an entry sets, or what it inherits.
pub open spec fn entry_interval(entry: RawFieldModel, inherited: Option<nat>) -> Option<nat> {
    match entry.interval_secs {
        Some(secs) => every(secs as nat),
        None => inherited,
    }
}

/// What the last entry with a name sets for it, where it is named.
pub open spec fn explicit(
    raw: Seq<RawFieldModel>,
    inherited: Option<nat>,
    name: Seq<char>,
) -> Option<Option<nat>>
    decreases raw.len(),
{
    if raw.len() == 0 {
        None
    } else if !raw.last().wildcard() && raw.last().name == name {
        Some(entry_interval(raw.last(), inherited))
    } else {
        explicit(raw.drop_last(), inherited, name)
    }
}

/// What the first wildcard fills with, where there is one.
pub open spec fn first_fill(raw: Seq<RawFieldModel>, inherited: Option<nat>) -> Option<Option<nat>>
    decreases raw.len(),
{
    if raw.len() == 0 {
        None
    } else {
        match first_fill(raw.drop_last(), inherited) {
            Some(fill) => Some(fill),
            None => if raw.last().wildcard() {
                Some(entry_interval(raw.last(), inherited))
            } else {
                None
            },
        }
    }
}

/// What a name comes to: what it sets for itself wherever it stands, or what the
/// first wildcard fills with.
pub open spec fn settled_interval(
    raw: Seq<RawFieldModel>,
    inherited: Option<nat>,
    name: Seq<char>,
) -> Option<nat> {
    match explicit(raw, inherited, name) {
        Some(interval) => interval,
        None => match first_fill(raw, inherited) {
            Some(fill) => fill,
            None => inherited,
        },
    }
}

/// Every name that the list mentions, in order. A wildcard mentions the whole
/// catalog.
pub open spec fn mentions(raw: Seq<RawFieldModel>, catalog: Seq<Seq<char>>) -> Seq<Seq<char>>
    decreases raw.len(),
{
    if raw.len() == 0 {
        Seq::empty()
    } else if raw.last().wildcard() {
        mentions(raw.drop_last(), catalog) + catalog
    } else {
        mentions(raw.drop_last(), catalog).push(raw.last().name)
    }
}

/// The names without the repeats, each where it first stands.
pub open spec fn distinct(names: Seq<Seq<char>>) -> Seq<Seq<char>>
    decreases names.len(),
{
    if names.len() == 0 {
        Seq::empty()
    } else {
        let before = distinct(names.drop_last());
        if before.contains(names.last()) {
            before
        } else {
            before.push(names.last())
        }
    }
}

/// What a list of names comes to.
pub open spec fn settled_fields(
    raw: Seq<RawFieldModel>,
    inherited: Option<nat>,
    names: Seq<Seq<char>>,
) -> Seq<FieldConfigModel> {
    names.map_values(
        |name: Seq<char>|
            FieldConfigModel { name, interval: settled_interval(raw, inherited, name) },
    )
}

/// The schedule of a list: each name it mentions once, in the order it first
/// mentions them, with what the name comes to.
pub open spec fn resolved_fields(
    raw: Seq<RawFieldModel>,
    inherited: Option<nat>,
    catalog: Seq<Seq<char>>,
) -> Seq<FieldConfigModel> {
    settled_fields(raw, inherited, distinct(mentions(raw, catalog)))
}

fn interval_of_entry(entry: &RawField, inherited: Option<Duration>) -> (r: Option<Duration>)
    ensures
        length_of(r) == entry_interval(entry@, length_of(inherited)),
{
    match entry.interval_secs {
        Some(secs) => handle_interval(secs),
        None => inherited,
    }
}

/// What the last entry with a name sets for it.
fn find_explicit(raw: &Vec<RawField>, inherited: Option<Duration>, name: &str) -> (r: Option<
    Option<Duration>,
>)
    ensures
        r is Some <==> explicit(raw_model(raw@), length_of(inherited), name@) is Some,
        r is Some ==> length_of(r->0) == explicit(
            raw_model(raw@),
            length_of(inherited),
            name@,
        )->0,
{
    let ghost full = raw_model(raw@);
    let mut i: usize = raw.len();
    proof {
        assert(full.take(raw@.len() as int) =~= full);
    }
    while i > 0
        invariant
            i <= raw.len(),
            full == raw_model(raw@),
            explicit(full.take(i as int), length_of(inherited), name@) == explicit(
                full,
                length_of(inherited),
                name@,
            ),
        decreases i,
    {
        proof {
            assert(full.take(i as int).drop_last() =~= full.take(i - 1));
            assert(full.take(i as int).last() == raw@[i - 1]@);
        }
        i = i - 1;
        if !raw[i].is_wildcard() && same(raw[i].name.as_str(), name) {
            return Some(interval_of_entry(&raw[i], inherited));
        }
    }
    None
}

/// What the first wildcard fills with.
fn find_fill(raw: &Vec<RawField>, inherited: Option<Duration>) -> (r: Option<Option<Duration>>)
    ensures
        r is Some <==> first_fill(raw_model(raw@), length_of(inherited)) is Some,
        r is Some ==> length_of(r->0) == first_fill(raw_model(raw@), length_of(inherited))->0,
{
    let ghost full = raw_model(raw@);
    let mut i: usize = 0;
    while i < raw.len()
        invariant
            i <= raw.len(),
            full == raw_model(raw@),
            first_fill(full.take(i as int), length_of(inherited)) is None,
        decreases raw.len() - i,
    {
        proof {
            assert(full.take(i + 1).drop_last() =~= full.take(i as int));
            assert(full.take(i + 1).last() == raw@[i as int]@);
        }
        if raw[i].is_wildcard() {
            proof {
                fill_stays(full, length_of(inherited), i + 1);
            }
            return Some(interval_of_entry(&raw[i], inherited));
        }
        i = i + 1;
    }
    proof {
        assert(full.take(raw@.len() as int) =~= full);
    }
    None
}

proof fn fill_stays(raw: Seq<RawFieldModel>, inherited: Option<nat>, n: int)
    requires
        0 <= n <= raw.len(),
        first_fill(raw.take(n), inherited) is Some,
    ensures
        first_fill(raw, inherited) == first_fill(raw.take(n), inherited),
    decreases raw.len(),
{
    assert(raw.take(raw.len() as int) =~= raw);
    if n < raw.len() {
        let shorter = raw.drop_last();
        assert(shorter.take(n) =~= raw.take(n));
        fill_stays(shorter, inherited, n);
    }
}

/// What a name comes to.
fn find_interval(raw: &Vec<RawField>, inherited: Option<Duration>, name: &str) -> (r: Option<
    Duration,
>)
    ensures
        length_of(r) == settled_interval(raw_model(raw@), length_of(inherited), name@),
{
    match find_explicit(raw, inherited, name) {
        Some(interval) => interval,
        None => match find_fill(raw, inherited) {
            Some(fill) => fill,
            None => inherited,
        },
    }
}

pub open spec fn names_of(fields: Seq<FieldConfigModel>) -> Seq<Seq<char>> {
    fields.map_values(|f: FieldConfigModel| f.name)
}

fn already(fields: &Vec<FieldConfig>, name: &str) -> (r: bool)
    ensures
        r == names_of(fields_model(fields@)).contains(name@),
{
    let mut i: usize = 0;
    while i < fields.len()
        invariant
            i <= fields.len(),
            forall|j: int| 0 <= j < i ==> #[trigger] names_of(fields_model(fields@))[j] != name@,
        decreases fields.len() - i,
    {
        if same(fields[i].name.as_str(), name) {
            proof {
                assert(names_of(fields_model(fields@))[i as int] == name@);
            }
            return true;
        }
        i = i + 1;
    }
    false
}

/// Adds a name to the schedule, where it is new.
fn add_name(
    fields: &mut Vec<FieldConfig>,
    raw: &Vec<RawField>,
    inherited: Option<Duration>,
    name: &str,
    Ghost(names): Ghost<Seq<Seq<char>>>,
)
    requires
        fields_model(old(fields)@) == settled_fields(
            raw_model(raw@),
            length_of(inherited),
            distinct(names),
        ),
    ensures
        fields_model(final(fields)@) == settled_fields(
            raw_model(raw@),
            length_of(inherited),
            distinct(names.push(name@)),
        ),
{
    proof {
        assert(names.push(name@).drop_last() =~= names);
        assert(names_of(fields_model(fields@)) =~= distinct(names));
    }
    if !already(fields, name) {
        let ghost before = fields_model(fields@);
        fields.push(
            FieldConfig { name: name.to_owned(), interval: find_interval(raw, inherited, name) },
        );
        proof {
            assert(fields_model(fields@) =~= settled_fields(
                raw_model(raw@),
                length_of(inherited),
                distinct(names.push(name@)),
            ));
        }
    }
}

/// Expands the wildcard and folds the entries of a field list into one schedule.
pub fn resolve_fields(
    raw: &Vec<RawField>,
    default_interval: Option<Duration>,
    catalog: &Vec<String>,
) -> (r: Vec<FieldConfig>)
    ensures
        fields_model(r@) == resolved_fields(
            raw_model(raw@),
            length_of(default_interval),
            text::views(catalog@),
        ),
{
    let mut fields: Vec<FieldConfig> = Vec::new();
    let ghost full = raw_model(raw@);
    let ghost inherited = length_of(default_interval);
    let ghost all = text::views(catalog@);
    let mut i: usize = 0;
    proof {
        assert(fields_model(fields@) =~= settled_fields(
            full,
            inherited,
            distinct(mentions(full.take(0), all)),
        ));
    }
    while i < raw.len()
        invariant
            i <= raw.len(),
            full == raw_model(raw@),
            inherited == length_of(default_interval),
            all == text::views(catalog@),
            fields_model(fields@) == settled_fields(
                full,
                inherited,
                distinct(mentions(full.take(i as int), all)),
            ),
        decreases raw.len() - i,
    {
        let ghost before = mentions(full.take(i as int), all);
        proof {
            assert(full.take(i + 1).drop_last() =~= full.take(i as int));
            assert(full.take(i + 1).last() == raw@[i as int]@);
        }
        if raw[i].is_wildcard() {
            let mut n: usize = 0;
            proof {
                assert(before + all.take(0) =~= before);
            }
            while n < catalog.len()
                invariant
                    n <= catalog.len(),
                    full == raw_model(raw@),
                    inherited == length_of(default_interval),
                    all == text::views(catalog@),
                    fields_model(fields@) == settled_fields(
                        full,
                        inherited,
                        distinct(before + all.take(n as int)),
                    ),
                decreases catalog.len() - n,
            {
                add_name(
                    &mut fields,
                    raw,
                    default_interval,
                    catalog[n].as_str(),
                    Ghost(before + all.take(n as int)),
                );
                proof {
                    assert((before + all.take(n as int)).push(all[n as int]) =~= before + all.take(
                        n + 1,
                    ));
                }
                n = n + 1;
            }
            proof {
                assert(all.take(catalog@.len() as int) =~= all);
            }
        } else {
            add_name(&mut fields, raw, default_interval, raw[i].name.as_str(), Ghost(before));
        }
        i = i + 1;
    }
    proof {
        assert(full.take(raw@.len() as int) =~= full);
    }
    fields
}

// ---- the whole document ----------------------------------------------------

pub open spec fn sync_interval(raw: RawServerConfig) -> Option<u64> {
    match raw.sync {
        Some(sync) => sync.interval_secs,
        None => None,
    }
}

pub open spec fn sync_fields(raw: RawServerConfig) -> Option<Vec<RawField>> {
    match raw.sync {
        Some(sync) => sync.fields,
        None => None,
    }
}

pub open spec fn http_host(raw: RawServerConfig) -> Option<String> {
    match raw.http {
        Some(http) => http.host,
        None => None,
    }
}

pub open spec fn http_port(raw: RawServerConfig) -> Option<u16> {
    match raw.http {
        Some(http) => http.port,
        None => None,
    }
}

pub open spec fn relay_poll(raw: RawServerConfig) -> u64 {
    match raw.intent_relay {
        Some(relay) => chosen(relay.poll_ms, None, DEFAULT_INTENT_RELAY_POLL_MS),
        None => DEFAULT_INTENT_RELAY_POLL_MS,
    }
}

pub open spec fn relay_attempts(raw: RawServerConfig) -> u32 {
    match raw.intent_relay {
        Some(relay) => chosen(relay.max_attempts, None, DEFAULT_MAX_ATTEMPTS),
        None => DEFAULT_MAX_ATTEMPTS,
    }
}

/// The field list: that of the section, else that of the defaults table, else
/// the built-in one.
pub open spec fn field_list(raw: RawServerConfig) -> Seq<RawFieldModel> {
    match sync_fields(raw) {
        Some(fields) => raw_model(fields@),
        None => match raw.defaults.fields {
            Some(fields) => raw_model(fields@),
            None => seq![RawFieldModel { name: DEFAULT_FIELD@, interval_secs: None }],
        },
    }
}

/// What a document comes to: each entry is that of its section, else that of the
/// defaults table, else the built-in one. A path is seen from the directory of
/// the document.
pub open spec fn resolved(
    base: Seq<char>,
    raw: RawServerConfig,
    catalog: Seq<Seq<char>>,
) -> ServerConfigModel {
    let inherited = every(
        chosen(sync_interval(raw), raw.defaults.interval_secs, DEFAULT_INTERVAL_SECS) as nat,
    );
    ServerConfigModel {
        devices_config_path: seen_from(
            base,
            chosen_text(
                raw.devices_config_path,
                raw.defaults.devices_config_path,
                DEFAULT_DEVICES_CONFIG_PATH@,
            ),
        ),
        poll: (if relay_poll(raw) > 1 {
            relay_poll(raw) as nat
        } else {
            1
        }) * 1_000_000,
        max_attempts: relay_attempts(raw),
        default_interval: inherited,
        fields: resolved_fields(field_list(raw), inherited, catalog),
        host: chosen_text(http_host(raw), raw.defaults.host, DEFAULT_HOST@),
        port: chosen(http_port(raw), raw.defaults.port, DEFAULT_PORT),
    }
}

/// Folds the defaults table and the built-in values into a document. `catalog`
/// holds the names of every field a device can be asked for.
pub fn resolve_config(base: &str, raw: RawServerConfig, catalog: &Vec<String>) -> (r: ServerConfig)
    ensures
        r@ == resolved(base@, raw, text::views(catalog@)),
{
    let ghost whole = raw;
    let defaults: Defaults = raw.defaults;
    let relay: RawIntentRelay = match raw.intent_relay {
        Some(relay) => relay,
        None => RawIntentRelay { poll_ms: None, max_attempts: None },
    };
    let sync: RawSync = match raw.sync {
        Some(sync) => sync,
        None => RawSync { interval_secs: None, fields: None },
    };
    let http: RawHttp = match raw.http {
        Some(http) => http,
        None => RawHttp { host: None, port: None },
    };
    let path: String = choose_text(
        raw.devices_config_path,
        defaults.devices_config_path,
        DEFAULT_DEVICES_CONFIG_PATH,
    );
    let secs: u64 = match sync.interval_secs {
        Some(secs) => secs,
        None => match defaults.interval_secs {
            Some(secs) => secs,
            None => DEFAULT_INTERVAL_SECS,
        },
    };
    let default_interval: Option<Duration> = handle_interval(secs);
    let list: Vec<RawField> = match sync.fields {
        Some(fields) => fields,
        None => match defaults.fields {
            Some(fields) => fields,
            None => vec![RawField::named(DEFAULT_FIELD)],
        },
    };
    proof {
        assert(raw_model(list@) =~= field_list(whole));
    }
    let fields: Vec<FieldConfig> = resolve_fields(&list, default_interval, catalog);
    let poll_ms: u64 = match relay.poll_ms {
        Some(ms) => ms,
        None => DEFAULT_INTENT_RELAY_POLL_MS,
    };
    let max_attempts: u32 = match relay.max_attempts {
        Some(n) => n,
        None => DEFAULT_MAX_ATTEMPTS,
    };
    let port: u16 = match http.port {
        Some(port) => port,
        None => match defaults.port {
            Some(port) => port,
            None => DEFAULT_PORT,
        },
    };
    ServerConfig {
        devices_config_path: anchored(base, path.as_str()),
        intent_relay: IntentRelayConfig { poll: handle_poll(poll_ms), max_attempts },
        sync: SyncConfig { default_interval, fields },
        http: HttpConfig { host: choose_text(http.host, defaults.host, DEFAULT_HOST), port },
    }
}

// ---- the command line ------------------------------------------------------

/// What the command line names, which is above every layer of the document.
#[derive(Debug, PartialEq, Eq)]
pub struct Overrides {
    pub devices_config_path: Option<String>,
    pub host: Option<String>,
    pub port: Option<u16>,
}

pub struct OverridesModel {
    pub devices_config_path: Option<Seq<char>>,
    pub host: Option<Seq<char>>,
    pub port: Option<u16>,
}

impl View for Overrides {
    type V = OverridesModel;

    open spec fn view(&self) -> OverridesModel {
        OverridesModel {
            devices_config_path: text_of(self.devices_config_path),
            host: text_of(self.host),
            port: self.port,
        }
    }
}

impl Clone for Overrides {
    fn clone(&self) -> (r: Self)
        ensures
            r == *self,
    {
        Overrides {
            devices_config_path: match &self.devices_config_path {
                Some(path) => Some(path.clone()),
                None => None,
            },
            host: match &self.host {
                Some(host) => Some(host.clone()),
                None => None,
            },
            port: self.port,
        }
    }
}

impl Default for Overrides {
    fn default() -> (r: Self)
        ensures
            r@ == nothing_overridden(),
    {
        Overrides { devices_config_path: None, host: None, port: None }
    }
}

pub open spec fn nothing_overridden() -> OverridesModel {
    OverridesModel { devices_config_path: None, host: None, port: None }
}

/// A config under overrides. A path of the command line is taken as it is typed.
pub open spec fn overridden(config: ServerConfigModel, over: OverridesModel) -> ServerConfigModel {
    ServerConfigModel {
        devices_config_path: chosen(over.devices_config_path, None, config.devices_config_path),
        host: chosen(over.host, None, config.host),
        port: chosen(over.port, None, config.port),
        ..config
    }
}

/// Two sets of overrides as one, the first above the second.
pub open spec fn merged(outer: OverridesModel, inner: OverridesModel) -> OverridesModel {
    OverridesModel {
        devices_config_path: if outer.devices_config_path is Some {
            outer.devices_config_path
        } else {
            inner.devices_config_path
        },
        host: if outer.host is Some {
            outer.host
        } else {
            inner.host
        },
        port: if outer.port is Some {
            outer.port
        } else {
            inner.port
        },
    }
}

impl ServerConfig {
    /// Puts the command line above a config that is settled already.
    pub fn with_overrides(self, overrides: Overrides) -> (r: Self)
        ensures
            r@ == overridden(self@, overrides@),
    {
        ServerConfig {
            devices_config_path: match overrides.devices_config_path {
                Some(path) => path,
                None => self.devices_config_path,
            },
            intent_relay: self.intent_relay,
            sync: self.sync,
            http: HttpConfig {
                host: match overrides.host {
                    Some(host) => host,
                    None => self.http.host,
                },
                port: match overrides.port {
                    Some(port) => port,
                    None => self.http.port,
                },
            },
        }
    }
}

} // verus!
