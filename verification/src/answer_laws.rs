//! What callers are answered, and what the log is told: each function by its own
//! result.

use vstd::prelude::*;
use vstd::string::*;
use std::sync::Arc;
use crate::api::{
    ApiError, DeviceDesiredRecordingState, ErrorCode, Phase, Read, ReadModel, ReadValue,
    RecordingState, TimeSpan,
};
use crate::configuration::{handle_interval, handle_poll, resolve_config_path};
use crate::devices::registry::Registry;
use crate::devices::transport;
use crate::devices::transport::{ConnectError, TransportError};
use crate::inventory::config::{
    raw_of, DeviceConfig, DeviceWrite, GroupWrite, RawConfig, RawDevice,
};
use crate::inventory::config_laws;
use crate::inventory::export::{
    extension_of, persist_query, ExportDefaults, ExportFormat, ExportQuery,
};
use crate::inventory::edit::LiveFleet;
use crate::inventory::refusal::InventoryRefusal;
use crate::memory::outbox::MemoryOutbox;
use crate::memory::store::{in_span, read_models, MemoryStore};
use crate::memory::store_model::of_series;
use crate::protocol::commands::Command;
use crate::protocol::instructions::{
    setting_echoed, Decode, Instruction, Reply, UnknownInstruction,
};
use crate::protocol::laws;
use crate::protocol::payload_helpers::{first_chars, framed, normal_all, RCDR, RCDR_LOWER};
use crate::protocol::register::{Register, MAX_VALUE_LEN};
use crate::protocol::states;
use crate::retention;
use crate::retention::{
    retention_from_secs, retention_from_signed, Level, Notice, Retention, StoreConfig,
};
use crate::settings::{unreadable, ConfigRefusal};
use crate::store::error::{api_error_of_read, api_error_of_write, ReadError, WriteError};
use crate::store::group;
use crate::sorted::{first_is_first, first_with_id, Identified};
use crate::store::lifecycle::{Swept, Usage};
use crate::sync::health;
use crate::sync::poll::{PollLoop, Refusal, Tick};
use crate::sync::schedule;
use crate::sync::schedule::Change;
use crate::text;
use crate::time;
use crate::time::Duration;
use crate::units;
use crate::web;
use crate::web::AppError;

verus! {

// ---- answers ---------------------------------------------------------------

/// A device that is not there is not found, an instruction that is none is a bad
/// request, and a device that fails is a bad gateway.
pub proof fn each_failed_request_has_its_status(e: AppError, status: u16)
    requires
        call_ensures(AppError::status, (&e,), status),
    ensures
        e is UnknownDevice ==> status == 404,
        e is BadInstruction ==> status == 400,
        e is Device ==> status == 502,
{
}

/// A failed request is told in its own words; an unknown device by its id.
pub proof fn each_failed_request_has_its_words(e: AppError, words: String)
    requires
        call_ensures(AppError::message, (&e,), words),
    ensures
        e matches AppError::UnknownDevice(id) ==> words@ == "unknown device '"@ + (id@ + "'"@),
        e matches AppError::BadInstruction(m) ==> words@ == m@,
        e matches AppError::Device(m) ==> words@ == m@,
{
    if let AppError::UnknownDevice(id) = e {
        assert("unknown device '"@ + id@ + "'"@ =~= "unknown device '"@ + (id@ + "'"@));
    }
}

/// A name that is not in the catalog is told by the name.
pub proof fn an_unknown_instruction_is_named(name: String, words: String)
    requires
        call_ensures(UnknownInstruction::message, (&UnknownInstruction(name),), words),
    ensures
        words@ == "no built-in instruction named '"@ + (name@ + "'"@),
{
    assert("no built-in instruction named '"@ + name@ + "'"@
        =~= "no built-in instruction named '"@ + (name@ + "'"@));
}

/// A failure of the store is internal, and says whether a read or a write failed.
pub proof fn a_failure_of_the_store_is_internal(m: String, read: ApiError, write: ApiError)
    requires
        call_ensures(api_error_of_read, (&ReadError::Backend(m),), read),
        call_ensures(api_error_of_write, (&WriteError::Backend(m),), write),
    ensures
        read.code == ErrorCode::Internal && read.rejection is None,
        read.message@ == "store read failed: "@ + m@,
        write.code == ErrorCode::Internal && write.rejection is None,
        write.message@ == "store write failed: "@ + m@,
{
    assert(ReadError::Backend(m)@ == m@);
    assert(WriteError::Backend(m)@ == m@);
}

/// A password that is not taken fails the dial, and a failing channel says so.
pub proof fn a_failed_dial_has_its_words(
    success: bool,
    r: Result<(), ConnectError>,
    m: String,
    words: String,
)
    requires
        call_ensures(transport::admitted, (success,), r),
        call_ensures(TransportError::message, (&TransportError::Io(m),), words),
    ensures
        r is Ok <==> success,
        !success ==> r->Err_0@ == "password authentication rejected"@,
        words@ == "transport i/o error: "@ + m@,
{
    assert(TransportError::Io(m)@ == m@);
}

/// A file that cannot be read is named with the reason.
pub proof fn an_unreadable_file_is_named(path: &str, err: &str, r: ConfigRefusal)
    requires
        call_ensures(unreadable, (path, err), r),
    ensures
        r is Source,
        r->Source_0@ == "reading "@ + (path@ + (": "@ + err@)),
{
    assert("reading "@ + path@ + ": "@ + err@ =~= "reading "@ + (path@ + (": "@ + err@)));
}

// ---- the log ---------------------------------------------------------------

/// What a sweep is worth in the log: nothing expired is for those who look closely,
/// something removed for everyone, and a budget that bites is a warning.
pub proof fn each_sweep_has_its_line(
    report: retention::Report,
    line: Notice,
    swept: Swept,
    done: Notice,
    policy: StoreConfig,
    start: Notice,
)
    requires
        call_ensures(retention::announce, (report,), line),
        call_ensures(retention::announce_sweep, (&swept,), done),
        call_ensures(retention::announce_policy, (&policy,), start),
    ensures
        report == retention::Report::Quiet <==> line.level == Level::Debug,
        report != retention::Report::Quiet <==> line.level == Level::Warn,
        report == retention::Report::Quiet ==> line.message@ == "store swept"@,
        report is Evicting ==> line.message@
            == "the memory budget is discarding reads the retention window would have kept; raise store.max_memory or shorten store.retain"@,
        report == retention::Report::OverBudget ==> line.message@
            == "the store cannot fit within store.max_memory even with no history at all; the budget is below what one reading per polled field costs"@,
        swept.entries == 0 ==> done.level == Level::Debug && done.message@
            == "nothing had expired"@,
        swept.entries > 0 ==> done.level == Level::Info && done.message@
            == "expired reads removed from the store"@,
        policy.cleanup is Some ==> start.level == Level::Info && start.message@
            == "store sweeper running"@,
        policy.cleanup is None ==> start.level == Level::Warn && start.message@
            == "store cleanup is disabled; recorded history will be bounded by the memory budget alone"@,
{
}

/// What a poll is worth in the log: the start of an outage is a warning, its end is
/// for everyone, and what goes on is for those who look closely.
pub proof fn each_poll_has_its_line(report: health::Report, line: Option<Notice>)
    requires
        call_ensures(health::announce, (report,), line),
    ensures
        report == health::Report::Silent <==> line is None,
        report == health::Report::Onset ==> line->0.level == Level::Warn && line->0.message@
            == "polling this field started failing"@,
        report == health::Report::Ongoing ==> line->0.level == Level::Debug && line->0.message@
            == "polling this field is still failing"@,
        report == health::Report::Recovery ==> line->0.level == Level::Info && line->0.message@
            == "polling this field recovered"@,
        report == health::Report::Refusal ==> line->0.level == Level::Debug && line->0.message@
            == "the device refused this field"@,
{
}

/// What a refusal is worth in the log: each that is counted is for those who look
/// closely; the one that switches a field off is for everyone, and says whether the
/// field will be tried again; and one of a field that is off is worth nothing.
pub proof fn each_refusal_has_its_line(
    poll: PollLoop,
    refusal: Refusal,
    line: Option<Notice>,
    was_off: bool,
    again: Option<Notice>,
)
    requires
        call_ensures(PollLoop::announce_refusal, (&poll, refusal), line),
        call_ensures(PollLoop::announce_answer, (&poll, was_off), again),
    ensures
        refusal == Refusal::Still <==> line is None,
        refusal is Counted ==> line->0.level == Level::Debug && line->0.message@
            == "the device refused this field"@,
        refusal is Disabled && poll.self_heal is Some ==> line->0.level == Level::Info
            && line->0.message@
            == "auto-disabling this field after consecutive refusals; it will be tried again"@,
        refusal is Disabled && poll.self_heal is None ==> line->0.level == Level::Info
            && line->0.message@
            == "auto-disabling this field after consecutive refusals; add it to this device's `disabled_fields` to make it permanent, or set `self_heal_secs` to retry it"@,
        was_off <==> again is Some,
        was_off ==> again->0.level == Level::Info && again->0.message@
            == "an auto-disabled field answered again and is no longer disabled"@,
{
}

/// A tick asks for a field that is not off. For one that is, it says for how many
/// whole seconds more, or that it is for good.
pub proof fn a_tick_asks_unless_the_field_is_off(poll: PollLoop, wait: Duration, r: Tick)
    requires
        wait@ <= time::duration_max(),
    ensures
        call_ensures(PollLoop::tick, (&poll, None), r) ==> r is Ask,
        call_ensures(PollLoop::tick, (&poll, Some(None)), r) ==> r is Skip && r->retry_in_secs
            is None && r->notice.message@ == "skipping a poll of a permanently disabled field"@,
        call_ensures(PollLoop::tick, (&poll, Some(Some(wait))), r) ==> r is Skip
            && r->retry_in_secs is Some && config_laws::cut_to(wait, r->retry_in_secs->0)
            && r->notice.message@ == "skipping a poll of an auto-disabled field"@,
{
}

/// A loop is started up, for a field of the catalog alone.
pub proof fn a_loop_is_started_for_a_known_field(
    device: String,
    field: String,
    self_heal: Option<Duration>,
    reconciled: bool,
    known: bool,
    r: Result<PollLoop, Notice>,
)
    requires
        call_ensures(PollLoop::start, (device, field, self_heal, reconciled, known), r),
    ensures
        r is Ok <==> known,
        known ==> r->Ok_0.health == health::Health::Up && r->Ok_0.device == device
            && r->Ok_0.field == field && r->Ok_0.self_heal == self_heal && r->Ok_0.reconciled
            == reconciled,
        !known ==> r->Err_0.level == Level::Warn && r->Err_0.message@
            == "unknown query field; poll loop not started"@,
{
}

/// A pass that moved anything is for everyone, and one that did not for those who
/// look closely.
pub proof fn a_pass_is_reported_by_what_moved(change: Change, r: Level)
    requires
        call_ensures(schedule::report, (change,), r),
    ensures
        r == Level::Debug || r == Level::Info,
        r == Level::Info <==> change.started > 0 || change.stopped > 0 || change.retimed > 0
            || change.rebound > 0,
{
}

// ---- settings --------------------------------------------------------------

/// The config file is that of the command line; else that of the environment; else
/// the one that ships.
pub proof fn the_config_file_is_layered(arg: Option<String>, env: Option<String>, r: String)
    requires
        call_ensures(resolve_config_path, (arg, env), r),
    ensures
        arg is Some ==> r@ == arg->0@,
        arg is None && env is Some ==> r@ == env->0@,
        arg is None && env is None ==> r@ == "configuration.yaml"@,
{
}

/// A pause between two looks is so many milliseconds, and one at the least; an
/// interval is so many seconds, and none of them is never.
pub proof fn pauses_and_intervals_are_read(
    ms: u64,
    pause: Duration,
    secs: u64,
    interval: Option<Duration>,
)
    requires
        call_ensures(handle_poll, (ms,), pause),
        call_ensures(handle_interval, (secs,), interval),
    ensures
        ms > 0 ==> pause@ == ms * 1_000_000,
        ms == 0 ==> pause@ == 1_000_000,
        secs == 0 <==> interval is None,
        interval is Some ==> interval->0@ == secs * 1_000_000_000,
{
}

/// A number of seconds to keep is that window; none, and fewer than none, is
/// refused.
pub proof fn a_retention_in_seconds_is_read(
    secs: u64,
    r: Result<Retention, String>,
    signed: i64,
    s: Result<Retention, String>,
)
    requires
        call_ensures(retention_from_secs, (secs,), r),
        call_ensures(retention_from_signed, (signed,), s),
    ensures
        secs > 0 ==> r is Ok && r->Ok_0@ == retention::RetentionModel::Age(
            secs as nat * 1_000_000_000,
        ),
        secs == 0 ==> r is Err,
        signed > 0 ==> s is Ok && s->Ok_0@ == retention::RetentionModel::Age(
            signed as nat * 1_000_000_000,
        ),
        signed == 0 ==> s is Err,
        signed < 0 ==> s is Err && s->Err_0@ == "retention cannot be negative: -"@ + text::decimal(
            (-(signed as int)) as nat,
        ),
{
    reveal_strlit("retention cannot be negative: ");
    reveal_strlit("retention cannot be negative: -");
    reveal_strlit("-");
    let d = text::decimal((-(signed as int)) as nat);
    assert("retention cannot be negative: "@ + ("-"@ + d) =~= "retention cannot be negative: -"@
        + d);
}

/// The file that survives a restart holds secrets, and nothing that was only
/// inferred.
pub proof fn what_survives_a_restart(path: &str, r: ExportQuery, d: ExportDefaults, empty: bool)
    requires
        call_ensures(persist_query, (path,), r),
        call_ensures(ExportDefaults::is_empty, (&d,), empty),
    ensures
        r.include_secrets,
        !r.promote_auto_disabled_fields_to_disabled_fields,
        extension_of(path@) == Some("json"@) <==> r.format == ExportFormat::Json,
        extension_of(path@) == Some("yaml"@) || extension_of(path@) == Some("yml"@) <==> r.format
            == ExportFormat::Yaml,
        empty <==> d.username is None && d.password is None,
{
    reveal_strlit("json");
    reveal_strlit("yaml");
    reveal_strlit("yml");
    assert("json"@[0] == 'j' && "yaml"@[0] == 'y' && "yml"@[0] == 'y');
}

/// A new outbox has nothing in it, tries as often as it was told and once at the
/// least, and waits half a second for each try that was spent.
pub proof fn a_new_outbox_is_empty(tries: u32, r: MemoryOutbox)
    requires
        call_ensures(MemoryOutbox::with_max_attempts, (tries,), r),
    ensures
        r@.max_attempts == if tries == 0 {
            1
        } else {
            tries
        },
        r@.backoff == 500 * 1_000_000,
        forall|k: Seq<char>| !r@.logs.contains_key(k),
        forall|k: Seq<char>| !r@.records.contains_key(k),
        forall|k: Seq<char>| !r@.batches.contains_key(k),
        forall|k: Seq<char>| !r@.groups.contains_key(k),
{
}

// ---- the wire --------------------------------------------------------------

/// Each register by the number that it is written to.
pub proof fn each_register_is_indexed(x: Register, index: u8)
    requires
        x != Register::Creator,
        call_ensures(Register::index, (x,), index),
    ensures
        index == 0 <==> x == Register::Contributor,
        index == 1 <==> x == Register::Coverage,
        index == 2 <==> x == Register::Presenter,
        index == 4 <==> x == Register::Description,
        index == 5 <==> x == Register::Format,
        index == 7 <==> x == Register::Language,
        index == 8 <==> x == Register::Publisher,
        index == 9 <==> x == Register::Relation,
        index == 10 <==> x == Register::Rights,
        index == 11 <==> x == Register::Source,
        index == 12 <==> x == Register::Subject,
        index == 13 <==> x == Register::Title,
        index == 14 <==> x == Register::Type,
        index == 15 <==> x == Register::SystemName,
        index == 16 <==> x == Register::Course,
{
}

/// A register write on the line, in full: the escape, the register's number behind
/// an `M`, an asterisk, the value, the recorder's suffix and a carriage return.
pub proof fn a_register_write_in_full(x: Register, value: &str, r: Instruction<Reply>)
    requires
        x != Register::Creator,
        value@.len() <= 127,
        call_ensures(Register::instruction, (x, value), r),
    ensures
        x == Register::Source ==> r.payload@ == "\x1b"@ + "M11"@ + "*"@ + value@ + "RCDR\r"@,
        x == Register::Subject ==> r.payload@ == "\x1b"@ + "M12"@ + "*"@ + value@ + "RCDR\r"@,
        x == Register::Title ==> r.payload@ == "\x1b"@ + "M13"@ + "*"@ + value@ + "RCDR\r"@,
        x == Register::Course ==> r.payload@ == "\x1b"@ + "M16"@ + "*"@ + value@ + "RCDR\r"@,
        r.payload@ == "\x1b"@ + x.address_text() + "*"@ + value@ + "RCDR\r"@,
{
    laws::each_register_is_addressed_in_text();
    laws::a_register_write_on_the_line(x.address_text(), value@);
}

/// A command on the line, in full.
pub proof fn a_command_in_full(x: Command, r: Instruction<Reply>)
    requires
        call_ensures(Command::instruction, (x,), r),
    ensures
        x == Command::Stop ==> r.payload@ == "\x1bY0RCDR\r"@ && r.name@ == "STOPRECORDING"@,
        x == Command::Start ==> r.payload@ == "\x1bY1RCDR\r"@ && r.name@ == "STARTRECORDING"@,
        x == Command::Pause ==> r.payload@ == "\x1bY2RCDR\r"@ && r.name@ == "PAUSERECORDING"@,
{
    laws::each_command_on_the_line();
}

/// Each recording state by its word, and whether a take is open in it.
pub proof fn each_state_has_its_word(s: states::RecordingState, word: &'static str, open: bool)
    requires
        call_ensures(states::RecordingState::name, (s,), word),
        call_ensures(states::RecordingState::is_recording, (s,), open),
    ensures
        s == states::RecordingState::Stopped ==> word@ == "stopped"@ && !open,
        s == states::RecordingState::Started ==> word@ == "started"@ && open,
        s == states::RecordingState::Paused ==> word@ == "paused"@ && open,
        s == states::RecordingState::Unknown ==> word@ == "unknown"@ && !open,
{
}

/// Whether what was asked for is what is observed, for every number: a numeral is
/// satisfied by its own number and by no other.
pub proof fn a_numeral_asks_for_its_number(n: u32, want: String, k: u32, r: bool)
    requires
        want@ == text::decimal(n as nat),
        call_ensures(group::satisfies, (&ReadValue::Text(want), &ReadValue::Number(k)), r),
    ensures
        r <==> n == k,
{
    group::a_number_satisfies_its_decimal_form(n, k);
}

/// The word for a recorded state, and that it satisfies an expectation of it.
pub proof fn a_state_is_asked_for_by_its_word(
    s: RecordingState,
    word: &'static str,
    want: String,
    r: bool,
)
    requires
        call_ensures(group::state_name, (s,), word),
        want@ == word@,
        call_ensures(group::satisfies, (&ReadValue::Text(want), &ReadValue::State(s)), r),
    ensures
        r,
        s == RecordingState::Stopped <==> word@ == "stopped"@,
        s == RecordingState::Started <==> word@ == "started"@,
        s == RecordingState::Paused <==> word@ == "paused"@,
        s == RecordingState::Unknown <==> word@ == "unknown"@,
{
    reveal_strlit("stopped");
    reveal_strlit("started");
    reveal_strlit("paused");
    reveal_strlit("unknown");
    assert("stopped"@[2] == 'o' && "started"@[2] == 'a' && "paused"@[0] == 'p' && "unknown"@[0]
        == 'u');
    assert("stopped"@.len() == 7 && "started"@.len() == 7 && "paused"@.len() == 6);
    assert(text::lower_all("stopped"@) =~= "stopped"@);
    assert(text::lower_all("started"@) =~= "started"@);
    assert(text::lower_all("paused"@) =~= "paused"@);
    assert(text::lower_all("unknown"@) =~= "unknown"@);
    assert(group::bare(word@));
    group::a_state_satisfies_its_own_word(word@);
}

/// A device that is projected back onto the document resolves to itself.
pub proof fn a_projected_device_resolves_back(config: DeviceConfig, r: RawDevice)
    requires
        config_laws::in_whole_seconds(config),
        call_ensures(raw_of, (&config,), r),
    ensures
        config_laws::resolves_to(r@, config),
{
    config_laws::a_stated_device_resolves_back(config);
}

/// A native value has the shape and the content of the reply.
pub proof fn a_native_state_is_its_word(s: states::RecordingState, r: web::Native)
    requires
        call_ensures(
            web::native,
            (crate::protocol::value::Value::State(s),),
            r,
        ),
    ensures
        r is Text,
        s == states::RecordingState::Stopped ==> r->Text_0@ == "stopped"@,
        s == states::RecordingState::Started ==> r->Text_0@ == "started"@,
        s == states::RecordingState::Paused ==> r->Text_0@ == "paused"@,
        s == states::RecordingState::Unknown ==> r->Text_0@ == "unknown"@,
{
    assert(crate::protocol::value::Value::State(s)@
        == crate::protocol::value::DecodedModel::State(s));
}

// ---- requests --------------------------------------------------------------

/// A command is asked for by either of its names, in any case; what is no name of
/// one is a bad request that says so.
pub proof fn a_command_is_asked_for_by_name(name: &str, r: Result<Instruction<Reply>, AppError>)
    requires
        call_ensures(web::command, (name,), r),
    ensures
        ({
            let n = normal_all(name@);
            &&& n == "START"@ || n == "STARTRECORDING"@ ==> r is Ok && r->Ok_0.payload@
                == "\x1bY1RCDR\r"@
            &&& n == "STOP"@ || n == "STOPRECORDING"@ ==> r is Ok && r->Ok_0.payload@
                == "\x1bY0RCDR\r"@
            &&& n == "PAUSE"@ || n == "PAUSERECORDING"@ ==> r is Ok && r->Ok_0.payload@
                == "\x1bY2RCDR\r"@
            &&& r is Err ==> r->Err_0 is BadInstruction && r->Err_0->BadInstruction_0@
                == "no built-in instruction named '"@ + name@ + "'"@
        }),
{
    laws::a_command_has_two_names(normal_all(name@));
    laws::each_command_on_the_line();
}

/// A register is asked for by its name, in any case, and its write goes to its own
/// address; what is no name of one is a bad request that says so.
pub proof fn a_register_is_asked_for_by_name(
    name: &str,
    value: &str,
    x: Register,
    r: Result<Instruction<Reply>, AppError>,
)
    requires
        x != Register::Creator,
        normal_all(name@) == x.spelling(),
        value@.len() <= 127,
        call_ensures(web::register, (name, value), r),
    ensures
        r is Ok,
        r->Ok_0.name@ == x.spelling(),
        r->Ok_0.payload@ == "\x1b"@ + x.address_text() + "*"@ + value@ + "RCDR\r"@,
{
    if r is Ok {
        let y = choose|y: Register|
            #![trigger y.spelling()]
            y.addressed() && y.spelling() == normal_all(name@) && r->Ok_0.name@ == y.spelling()
                && r->Ok_0.payload@ == framed(
                y.address_text() + "*"@ + first_chars(value@, MAX_VALUE_LEN as nat) + RCDR@,
            ) && forall|b: Seq<char>|
                #[trigger] r->Ok_0.parser.decoded(b) == setting_echoed(
                    RCDR_LOWER@ + y.address_text() + "*"@,
                    b,
                );
        crate::protocol::register::names_are_distinct(x, y);
        laws::a_register_write_on_the_line(x.address_text(), value@);
    } else {
        assert(x.spelling() != normal_all(name@));
    }
}

/// A device is found by its own id, and one that is not there is told by the id.
pub proof fn a_device_is_found_by_its_id(
    registry: Registry,
    id: &str,
    r: Result<Arc<DeviceConfig>, AppError>,
)
    requires
        call_ensures(web::target, (&registry, id), r),
    ensures
        r is Ok <==> registry@.contains_key(id@),
        r is Ok ==> *(r->Ok_0) == registry@[id@],
        r is Err ==> r->Err_0 is UnknownDevice && r->Err_0->UnknownDevice_0@ == id@,
{
}

// ---- edits of the document -------------------------------------------------

/// Adding a device puts it behind the others under the id it states, and touches no
/// group; without an id it is refused.
pub proof fn an_added_device_stands_last(
    fleet: LiveFleet,
    write: DeviceWrite,
    r: Result<RawConfig, InventoryRefusal>,
)
    requires
        call_ensures(LiveFleet::with_added, (&fleet, write), r),
    ensures
        r is Ok <==> write.id is Some,
        r is Err ==> r->Err_0@ is Malformed,
        r is Ok ==> {
            &&& r->Ok_0@.devices.len() == fleet.document@.devices.len() + 1
            &&& r->Ok_0@.devices.drop_last() =~= fleet.document@.devices
            &&& r->Ok_0@.devices.last().id == write.id->0@
            &&& r->Ok_0@.devices.last().host == write.host@
            &&& r->Ok_0@.devices.last().port == write.port
            &&& r->Ok_0@.groups == fleet.document@.groups
            &&& r->Ok_0@.username == fleet.document@.username
            &&& r->Ok_0@.password == fleet.document@.password
        },
{
}

/// Adding a group puts it behind the others under the id it states, and touches no
/// device; without an id it is refused.
pub proof fn an_added_group_stands_last(
    fleet: LiveFleet,
    write: GroupWrite,
    r: Result<RawConfig, InventoryRefusal>,
)
    requires
        call_ensures(LiveFleet::with_added_group, (&fleet, write), r),
    ensures
        r is Ok <==> write.id is Some,
        r is Err ==> r->Err_0@ is Malformed,
        r is Ok ==> {
            &&& r->Ok_0@.groups.len() == fleet.document@.groups.len() + 1
            &&& r->Ok_0@.groups.drop_last() =~= fleet.document@.groups
            &&& r->Ok_0@.groups.last().id == write.id->0@
            &&& r->Ok_0@.groups.last().devices == text::views(write.devices@)
            &&& r->Ok_0@.devices == fleet.document@.devices
            &&& r->Ok_0@.username == fleet.document@.username
            &&& r->Ok_0@.password == fleet.document@.password
        },
{
}

/// Replacing a device is refused where the request states another id than the path,
/// and where there is no such device; else it is replaced where it stands, under the
/// id of the path, and everything else stays.
pub proof fn a_replaced_device_is_replaced_in_place(
    fleet: LiveFleet,
    id: &str,
    write: DeviceWrite,
    r: Result<RawConfig, InventoryRefusal>,
    i: int,
)
    requires
        call_ensures(LiveFleet::with_replaced, (&fleet, id, write), r),
        0 <= i < fleet.document.devices@.len(),
    ensures
        write.id is Some && write.id->0@ != id@ ==> r is Err && r->Err_0@ is Malformed,
        r is Ok ==> {
            &&& r->Ok_0@.devices.len() == fleet.document@.devices.len()
            &&& fleet.document.devices@[i].id@ != id@ ==> r->Ok_0@.devices[i]
                == fleet.document@.devices[i]
            &&& r->Ok_0@.groups == fleet.document@.groups
        },
        (write.id is None || write.id->0@ == id@) && fleet.document.devices@[i].id@ == id@
            && (forall|k: int| 0 <= k < i ==> (#[trigger] fleet.document.devices@[k]).id@ != id@)
            ==> r is Ok && r->Ok_0@.devices[i].id == id@ && r->Ok_0@.devices[i].host
            == write.host@,
{
    first_is_first(fleet.document.devices@, id@);
    assert(fleet.document@.devices.len() == fleet.document.devices@.len());
    assert(fleet.document.devices@[i].key() == fleet.document.devices@[i].id@);
    if first_with_id(fleet.document.devices@, id@) is Some {
        let j = first_with_id(fleet.document.devices@, id@)->0;
        assert(fleet.document.devices@[j].key() == id@);
        assert(fleet.document.devices@[j].id@ == id@);
    }
}

// ---- reads -----------------------------------------------------------------

/// What is asked of a device is its phase and its take; one that was never asked
/// anything is idle before its first.
pub proof fn a_device_is_in_its_phase(
    outbox: MemoryOutbox,
    device: &str,
    r: Result<DeviceDesiredRecordingState, ReadError>,
)
    requires
        call_ensures(MemoryOutbox::desired_recording_state, (&outbox, device), r),
    ensures
        r is Ok,
        r->Ok_0.desired_recording_state == outbox@.log(device@).phase,
        r->Ok_0.epoch == outbox@.log(device@).epoch,
        !outbox@.logs.contains_key(device@) ==> r->Ok_0.desired_recording_state == Phase::Idle
            && r->Ok_0.epoch == 0,
{
}

/// A store tells what it holds, how much that is, and under which cap.
pub proof fn a_store_tells_its_usage(store: MemoryStore, r: Result<Usage, WriteError>)
    requires
        call_ensures(MemoryStore::usage, (&store,), r),
    ensures
        r is Ok,
        r->Ok_0.bytes == store@.used(),
        r->Ok_0.entries == store@.entries.len(),
        r->Ok_0.budget == store@.budget,
        r->Ok_0.evicted == store@.evicted,
{
}

/// A reading that was recorded in a span is read back from it, and one that was not
/// is not.
pub proof fn a_recorded_reading_is_read_back(
    store: MemoryStore,
    device: &str,
    field: &str,
    span: TimeSpan,
    r: Result<Vec<Read>, ReadError>,
    read: ReadModel,
)
    requires
        call_ensures(MemoryStore::between, (&store, device, field, &span), r),
    ensures
        r is Ok,
        read_models(r->Ok_0@).contains(read) <==> store@.entries.contains(read) && read.device
            == device@ && read.field == field@ && !text::lex_lt(read.at, span.start@)
            && !text::lex_lt(span.end@, read.at),
{
    let series = store@.series(device@, field@);
    filtered(store@.entries, of_series(device@, field@), read);
    filtered(series, in_span(span), read);
}

proof fn filtered(s: Seq<ReadModel>, keep: spec_fn(ReadModel) -> bool, x: ReadModel)
    ensures
        s.filter(keep).contains(x) <==> s.contains(x) && keep(x),
    decreases s.len(),
{
    reveal(Seq::filter);
    let f = s.filter(keep);
    if s.len() > 0 {
        let rest = s.drop_last();
        filtered(rest, keep, x);
        let g = rest.filter(keep);
        if g.contains(x) {
            let i = choose|i: int| 0 <= i < g.len() && g[i] == x;
            assert(f[i] == x);
        }
        if rest.contains(x) {
            let i = choose|i: int| 0 <= i < rest.len() && rest[i] == x;
            assert(s[i] == x);
        }
        if s.last() == x && keep(x) {
            assert(f.last() == x);
        }
        if s.contains(x) && s.last() != x {
            let i = choose|i: int| 0 <= i < s.len() && s[i] == x;
            assert(rest[i] == x);
        }
        if f.contains(x) {
            let i = choose|i: int| 0 <= i < f.len() && f[i] == x;
            if i < g.len() {
                assert(g[i] == x);
            }
        }
    }
}

/// A size that is written out reads back as itself, and so does a duration.
pub proof fn what_is_written_out_reads_back(
    n: u64,
    shown: String,
    read: Result<u64, String>,
    d: Duration,
    words: String,
    back: Result<Duration, String>,
    size: &str,
    long: &str,
)
    requires
        call_ensures(units::format_bytes, (n,), shown),
        size@ == shown@,
        call_ensures(units::bytes, (size,), read),
        call_ensures(units::format_duration, (d,), words),
        long@ == words@,
        call_ensures(units::duration, (long,), back),
    ensures
        read == Ok::<u64, String>(n),
        back == Ok::<Duration, String>(d),
{
    broadcast use time::duration_ext;

    units::every_rendered_size_reads_back(n);
}

} // verus!
