//! What a document's entry stands for, and that a device, a group and everything
//! shown or written of them stay what they are on the way there and back.

use vstd::arithmetic::power::{lemma_pow0, lemma_pow1, lemma_pow_adds, lemma_pow_positive, pow};
use vstd::prelude::*;
use crate::api::Barrier;
use crate::inventory::config::{
    stated_device, written_device, written_group, DeviceConfig, DeviceWrite, GroupConfig,
    GroupWrite, RawDeviceModel, RawGroupModel,
};
use crate::inventory::export::{
    declined_fields, describes, describes_group, ExportDevice, ExportGroup, ExportQuery,
};
use crate::inventory::summary::{
    hex_tail, low_hex, shows, shows_group, uuid_text, AutoDisabledField, ConnectionStatus,
    DeviceSummary, GroupSummary,
};
use crate::status::{shows_field, status_of, Connectivity, RefusedField};
use crate::text;
use crate::text::text_of;
use crate::time;
use crate::time::Duration;

verus! {

// ---- what an entry stands for ----------------------------------------------

/// Whether a number of seconds is a duration.
pub open spec fn lasts(d: Duration, secs: u64) -> bool {
    d@ == secs * 1_000_000_000
}

/// Whether a number of seconds is an optional delay, which none of them switch off.
pub open spec fn lasts_or_never(d: Option<Duration>, secs: u64) -> bool {
    match d {
        Some(d) => secs > 0 && lasts(d, secs),
        None => secs == 0,
    }
}

/// Whether a device is what an entry resolves to that leaves nothing out: each
/// setting is the device's setting of the same name, delays in seconds, and a
/// delay of no seconds is no delay.
pub open spec fn resolves_to(entry: RawDeviceModel, config: DeviceConfig) -> bool {
    &&& entry.id == config.id@
    &&& entry.host == config.host@
    &&& entry.port == Some(config.port)
    &&& entry.username == Some(config.username@)
    &&& entry.password == Some(config.password@)
    &&& entry.connect_secs is Some && lasts(config.connect_timeout, entry.connect_secs->0)
    &&& entry.exchange_secs is Some && lasts(config.exchange_timeout, entry.exchange_secs->0)
    &&& entry.eager == Some(config.eager)
    &&& entry.sis_keepalive_secs is Some && lasts_or_never(
        config.sis_keepalive,
        entry.sis_keepalive_secs->0,
    )
    &&& entry.eager_retry_secs is Some && lasts_or_never(
        config.eager_retry,
        entry.eager_retry_secs->0,
    )
    &&& entry.cold_backoff_secs is Some && lasts_or_never(
        config.cold_backoff,
        entry.cold_backoff_secs->0,
    )
    &&& entry.disabled_fields is Some && forall|f: Seq<char>| #[trigger]
        entry.disabled_fields->0.contains(f) <==> text::views(config.disabled_fields@).contains(f)
    &&& entry.auto_disable_after == Some(config.auto_disable_after)
    &&& entry.self_heal_secs is Some && lasts_or_never(config.self_heal, entry.self_heal_secs->0)
}

/// A whole number of seconds that a duration can last.
pub open spec fn whole(d: Duration) -> bool {
    d@ % 1_000_000_000 == 0 && d@ <= time::duration_max()
}

/// No delay, or a whole number of seconds and not none.
pub open spec fn whole_or_none(d: Option<Duration>) -> bool {
    match d {
        Some(d) => d@ > 0 && whole(d),
        None => true,
    }
}

/// A device whose delays are whole seconds.
pub open spec fn in_whole_seconds(config: DeviceConfig) -> bool {
    &&& whole(config.connect_timeout)
    &&& whole(config.exchange_timeout)
    &&& whole_or_none(config.sis_keepalive)
    &&& whole_or_none(config.eager_retry)
    &&& whole_or_none(config.cold_backoff)
    &&& whole_or_none(config.self_heal)
}

/// A device that is written down as it resolved resolves back to itself, its
/// declined fields in their order.
pub proof fn a_stated_device_resolves_back(config: DeviceConfig)
    requires
        in_whole_seconds(config),
    ensures
        resolves_to(stated_device(config), config),
        stated_device(config).disabled_fields == Some(text::views(config.disabled_fields@)),
{
}

/// An entry resolves to one device: two that an entry stands for agree in every
/// setting.
pub proof fn an_entry_resolves_to_one_device(
    entry: RawDeviceModel,
    a: DeviceConfig,
    b: DeviceConfig,
)
    requires
        resolves_to(entry, a),
        resolves_to(entry, b),
    ensures
        a.id@ == b.id@,
        a.host@ == b.host@,
        a.port == b.port,
        a.username@ == b.username@,
        a.password@ == b.password@,
        a.connect_timeout == b.connect_timeout,
        a.exchange_timeout == b.exchange_timeout,
        a.eager == b.eager,
        a.sis_keepalive == b.sis_keepalive,
        a.eager_retry == b.eager_retry,
        a.cold_backoff == b.cold_backoff,
        forall|f: Seq<char>| #[trigger]
            text::views(a.disabled_fields@).contains(f) <==> text::views(
                b.disabled_fields@,
            ).contains(f),
        a.auto_disable_after == b.auto_disable_after,
        a.self_heal == b.self_heal,
{
    broadcast use time::duration_ext;

    assert forall|f: Seq<char>| #[trigger]
        text::views(a.disabled_fields@).contains(f) <==> text::views(b.disabled_fields@).contains(
            f,
        ) by {
        assert(entry.disabled_fields->0.contains(f) <==> text::views(a.disabled_fields@).contains(
            f,
        ));
    }
}

/// A delay that is not a whole number of seconds is written down as the seconds
/// that have passed in it, whichever delay it is.
pub proof fn a_stated_delay_is_cut_to_its_seconds(config: DeviceConfig)
    requires
        config.connect_timeout@ <= time::duration_max(),
        config.exchange_timeout@ <= time::duration_max(),
        config.sis_keepalive is Some && config.sis_keepalive->0@ <= time::duration_max(),
        config.eager_retry is Some && config.eager_retry->0@ <= time::duration_max(),
        config.cold_backoff is Some && config.cold_backoff->0@ <= time::duration_max(),
        config.self_heal is Some && config.self_heal->0@ <= time::duration_max(),
    ensures
        cut_to(config.connect_timeout, stated_device(config).connect_secs->0),
        cut_to(config.exchange_timeout, stated_device(config).exchange_secs->0),
        cut_to(config.sis_keepalive->0, stated_device(config).sis_keepalive_secs->0),
        cut_to(config.eager_retry->0, stated_device(config).eager_retry_secs->0),
        cut_to(config.cold_backoff->0, stated_device(config).cold_backoff_secs->0),
        cut_to(config.self_heal->0, stated_device(config).self_heal_secs->0),
{
}

/// Whether so many whole seconds have passed in a duration, and no more.
pub open spec fn cut_to(d: Duration, secs: u64) -> bool {
    secs * 1_000_000_000 <= d@ < (secs + 1) * 1_000_000_000
}

// ---- what a caller writes --------------------------------------------------

/// Whether a caller writes every setting of a device as the device has it.
pub open spec fn asks_for(write: DeviceWrite, config: DeviceConfig) -> bool {
    &&& write.host@ == config.host@
    &&& write.port == Some(config.port)
    &&& write.username is Some && write.username->0@ == config.username@
    &&& write.password is Some && write.password->0@ == config.password@
    &&& write.connect_secs is Some && lasts(config.connect_timeout, write.connect_secs->0)
    &&& write.exchange_secs is Some && lasts(config.exchange_timeout, write.exchange_secs->0)
    &&& write.eager == Some(config.eager)
    &&& write.sis_keepalive_secs is Some && lasts_or_never(
        config.sis_keepalive,
        write.sis_keepalive_secs->0,
    )
    &&& write.eager_retry_secs is Some && lasts_or_never(
        config.eager_retry,
        write.eager_retry_secs->0,
    )
    &&& write.cold_backoff_secs is Some && lasts_or_never(
        config.cold_backoff,
        write.cold_backoff_secs->0,
    )
    &&& write.disabled_fields is Some && text::views(write.disabled_fields->0@) == text::views(
        config.disabled_fields@,
    )
    &&& write.auto_disable_after == Some(config.auto_disable_after)
    &&& write.self_heal_secs is Some && lasts_or_never(config.self_heal, write.self_heal_secs->0)
}

/// What a caller writes of a device is what the document's entry resolves to.
pub proof fn a_written_device_resolves_to_what_was_asked(write: DeviceWrite, config: DeviceConfig)
    requires
        asks_for(write, config),
    ensures
        resolves_to(written_device(config.id@, write), config),
{
}

/// What a caller leaves out, the document's entry leaves out, setting by setting.
pub proof fn what_a_caller_leaves_out_stays_out(id: Seq<char>, write: DeviceWrite)
    ensures
        written_device(id, write).id == id,
        written_device(id, write).port is None <==> write.port is None,
        written_device(id, write).username is None <==> write.username is None,
        written_device(id, write).password is None <==> write.password is None,
        written_device(id, write).connect_secs is None <==> write.connect_secs is None,
        written_device(id, write).exchange_secs is None <==> write.exchange_secs is None,
        written_device(id, write).eager is None <==> write.eager is None,
        written_device(id, write).sis_keepalive_secs is None <==> write.sis_keepalive_secs is None,
        written_device(id, write).eager_retry_secs is None <==> write.eager_retry_secs is None,
        written_device(id, write).cold_backoff_secs is None <==> write.cold_backoff_secs is None,
        written_device(id, write).disabled_fields is None <==> write.disabled_fields is None,
        written_device(id, write).auto_disable_after is None <==> write.auto_disable_after is None,
        written_device(id, write).self_heal_secs is None <==> write.self_heal_secs is None,
{
}

/// Whether a group is what an entry resolves to that leaves nothing out.
pub open spec fn resolves_to_group(entry: RawGroupModel, config: GroupConfig) -> bool {
    &&& entry.id == config.id@
    &&& entry.devices == text::views(config.device_ids@)
    &&& entry.barrier_timeout_secs is Some && lasts(
        config.barrier_timeout,
        entry.barrier_timeout_secs->0,
    )
    &&& entry.barrier == Some(config.barrier)
}

/// What a caller writes of a group is what the document's entry resolves to, and
/// what the caller leaves out stays out.
pub proof fn a_written_group_resolves_to_what_was_asked(write: GroupWrite, config: GroupConfig)
    requires
        text::views(write.devices@) == text::views(config.device_ids@),
        write.barrier_timeout_secs is Some ==> lasts(
            config.barrier_timeout,
            write.barrier_timeout_secs->0,
        ),
        write.barrier is Some ==> write.barrier->0 == config.barrier,
    ensures
        write.barrier_timeout_secs is Some && write.barrier is Some ==> resolves_to_group(
            written_group(config.id@, write),
            config,
        ),
        written_group(config.id@, write).barrier_timeout_secs is None
            <==> write.barrier_timeout_secs is None,
        written_group(config.id@, write).barrier is None <==> write.barrier is None,
        written_group(config.id@, write).devices == text::views(config.device_ids@),
{
}

// ---- what is exported ------------------------------------------------------

/// An exported entry as a document reads it, with this password.
pub open spec fn entry_of(e: ExportDevice, password: Option<Seq<char>>) -> RawDeviceModel {
    RawDeviceModel {
        id: e.id@,
        host: e.host@,
        port: Some(e.port),
        username: Some(e.username@),
        password,
        connect_secs: Some(e.connect_secs),
        exchange_secs: Some(e.exchange_secs),
        eager: Some(e.eager),
        sis_keepalive_secs: Some(e.sis_keepalive_secs),
        eager_retry_secs: Some(e.eager_retry_secs),
        cold_backoff_secs: Some(e.cold_backoff_secs),
        disabled_fields: Some(text::views(e.disabled_fields@)),
        auto_disable_after: Some(e.auto_disable_after),
        self_heal_secs: Some(e.self_heal_secs),
    }
}

/// An exported device resolves back to itself where secrets were asked for; where
/// they were not, no password is written, and with the password it resolves back
/// to itself all the same. Refused fields are left out of both.
pub proof fn an_exported_device_resolves_back(
    e: ExportDevice,
    device: DeviceConfig,
    promoted: Map<Seq<char>, Seq<Seq<char>>>,
    query: ExportQuery,
)
    requires
        in_whole_seconds(device),
        describes(e, device, promoted, query),
        !query.promote_auto_disabled_fields_to_disabled_fields,
    ensures
        query.include_secrets ==> resolves_to(entry_of(e, text_of(e.password)), device),
        !query.include_secrets ==> e.password is None,
        resolves_to(entry_of(e, Some(device.password@)), device),
{
    let listed = text::views(e.disabled_fields@);
    assert forall|f: Seq<char>| #[trigger]
        listed.contains(f) <==> text::views(device.disabled_fields@).contains(f) by {
        assert(declined_fields(device, promoted, query).contains(f) <==> listed.contains(f));
    }
}

/// With refused fields asked for, an exported device declines those that it
/// declares and those that it was found to refuse, each once, and no others.
pub proof fn an_export_can_decline_what_was_refused(
    e: ExportDevice,
    device: DeviceConfig,
    promoted: Map<Seq<char>, Seq<Seq<char>>>,
    query: ExportQuery,
    f: Seq<char>,
)
    requires
        describes(e, device, promoted, query),
        query.promote_auto_disabled_fields_to_disabled_fields,
    ensures
        text::views(e.disabled_fields@).contains(f) <==> text::views(
            device.disabled_fields@,
        ).contains(f) || (promoted.contains_key(device.id@) && promoted[device.id@].contains(f)),
        text::views(e.disabled_fields@).no_duplicates(),
{
    assert(declined_fields(device, promoted, query).contains(f) <==> text::views(
        e.disabled_fields@,
    ).contains(f));
    let v = text::views(e.disabled_fields@);
    assert forall|i: int, j: int| 0 <= i < v.len() && 0 <= j < v.len() && i != j implies v[i]
        != v[j] by {
        text::lex_irreflexive(v[i]);
        if i < j {
            assert(text::lex_lt(v[i], v[j]));
        } else {
            assert(text::lex_lt(v[j], v[i]));
        }
    }
}

/// A group's barrier in a document, by its word.
pub open spec fn barrier_read(word: Seq<char>) -> Option<Barrier> {
    if word == "fail_batch"@ {
        Some(Barrier::FailBatch)
    } else if word == "dispatch_ready"@ {
        Some(Barrier::DispatchReady)
    } else {
        None
    }
}

/// An exported group resolves back to itself.
pub proof fn an_exported_group_resolves_back(e: ExportGroup, group: GroupConfig)
    requires
        describes_group(e, group),
        whole(group.barrier_timeout),
    ensures
        resolves_to_group(
            RawGroupModel {
                id: e.id@,
                devices: text::views(e.devices@),
                barrier_timeout_secs: Some(e.barrier_timeout_secs),
                barrier: barrier_read(e.barrier@),
            },
            group,
        ),
{
    reveal_strlit("fail_batch");
    reveal_strlit("dispatch_ready");
    assert("fail_batch"@.len() == 10 && "dispatch_ready"@.len() == 14);
}

// ---- what is shown ---------------------------------------------------------

/// A summary shows a device's own address, eagerness and declined fields, nothing
/// of its connection before that was looked at, and no field as refused.
pub proof fn a_summary_shows_the_device(s: DeviceSummary, config: DeviceConfig)
    requires
        shows(s, config),
    ensures
        s.id@ == config.id@,
        s.host@ == config.host@,
        s.port == config.port,
        s.eager == config.eager,
        s.status == ConnectionStatus::Unknown,
        text::views(s.disabled_fields@) == text::views(config.disabled_fields@),
        s.auto_disabled_fields@ =~= Seq::<AutoDisabledField>::empty(),
        s.uuid@.len() == 36,
{
    an_identity_reads_back(config.uuid);
}

/// A group's summary shows its members in their order, its barrier, and its
/// timeout in whole seconds.
pub proof fn a_group_summary_shows_the_group(s: GroupSummary, config: GroupConfig)
    requires
        shows_group(s, config),
    ensures
        s.id@ == config.id@,
        text::views(s.members@) == text::views(config.device_ids@),
        s.barrier == config.barrier,
        cut_to(config.barrier_timeout, s.barrier_timeout_secs),
{
}

/// A connection is shown as the device has it.
pub proof fn a_connection_is_shown_as_it_is()
    ensures
        status_of(Connectivity::Warm) == ConnectionStatus::Warm,
        status_of(Connectivity::Busy) == ConnectionStatus::Busy,
        status_of(Connectivity::Cold) == ConnectionStatus::Cold,
        status_of(Connectivity::Gated) == ConnectionStatus::Gated,
{
}

/// A refused field is shown under its name, with its refusals, whether it is
/// switched off, and the whole seconds until it is tried again, if it will be.
pub proof fn a_refused_field_is_shown_as_it_is(shown: AutoDisabledField, field: RefusedField)
    requires
        shows_field(shown, field),
        field.retry_in is Some ==> field.retry_in->0@ <= time::duration_max(),
    ensures
        shown.name@ == field.name@,
        shown.refusals == field.refusals,
        shown.disabled == field.disabled,
        shown.retry_in_secs is Some <==> field.retry_in is Some,
        shown.retry_in_secs is Some ==> cut_to(field.retry_in->0, shown.retry_in_secs->0),
{
}

// ---- identities ------------------------------------------------------------

/// The value of a hexadecimal digit in lower case, if it is one.
pub open spec fn low_hex_value(c: char) -> Option<nat> {
    if 48 <= c as u32 <= 57 {
        Some((c as u32 - 48) as nat)
    } else if 97 <= c as u32 <= 102 {
        Some((c as u32 - 87) as nat)
    } else {
        None
    }
}

/// The number that hexadecimal digits in lower case write.
pub open spec fn hex_number(s: Seq<char>) -> nat
    decreases s.len(),
{
    if s.len() == 0 {
        0
    } else {
        hex_number(s.drop_last()) * 16 + low_hex_value(s.last())->0
    }
}

proof fn hex_tail_reads_back(n: nat, digits: nat)
    ensures
        hex_tail(n, digits).len() == digits,
        forall|i: int|
            0 <= i < digits ==> low_hex_value(#[trigger] hex_tail(n, digits)[i]) is Some,
        hex_number(hex_tail(n, digits)) == n as int % pow(16, digits),
    decreases digits,
{
    lemma_pow0(16);
    lemma_pow_positive(16, digits);
    if digits > 0 {
        let k = (digits - 1) as nat;
        hex_tail_reads_back(n / 16, k);
        let t = hex_tail(n, digits);
        let u = hex_tail(n / 16, k);
        assert(t.drop_last() =~= u);
        let c = low_hex((n % 16) as int);
        assert(low_hex_value(c) == Some(n % 16));
        assert forall|i: int| 0 <= i < digits implies low_hex_value(#[trigger] t[i]) is Some by {
            if i < k {
                assert(t[i] == u[i]);
            }
        }
        lemma_pow1(16);
        lemma_pow_adds(16, 1, k);
        lemma_pow_positive(16, k);
        let p = pow(16, k);
        vstd::arithmetic::div_mod::lemma_mod_breakdown(n as int, 16, p);
    }
}

/// An identity is written as 36 characters: its 32 hexadecimal digits in lower
/// case, the highest first, with hyphens behind the eighth, twelfth, sixteenth and
/// twentieth.
pub proof fn an_identity_reads_back(n: u128)
    ensures
        ({
            let t = uuid_text(n);
            &&& t.len() == 36
            &&& t[8] == '-' && t[13] == '-' && t[18] == '-' && t[23] == '-'
            &&& hex_number(
                t.subrange(0, 8) + t.subrange(9, 13) + t.subrange(14, 18) + t.subrange(19, 23)
                    + t.subrange(24, 36),
            ) == n
            &&& forall|i: int|
                0 <= i < 36 && i != 8 && i != 13 && i != 18 && i != 23 ==> low_hex_value(
                    #[trigger] t[i],
                ) is Some
        }),
{
    let all = hex_tail(n as nat, 32);
    hex_tail_reads_back(n as nat, 32);
    let t = uuid_text(n);
    assert(t.subrange(0, 8) + t.subrange(9, 13) + t.subrange(14, 18) + t.subrange(19, 23)
        + t.subrange(24, 36) =~= all);
    assert(pow(16, 32) == u128::MAX + 1) by {
        lemma_pow1(16);
        lemma_pow_adds(16, 1, 1);
        assert(pow(16, 2) == 256);
        lemma_pow_adds(16, 2, 2);
        assert(pow(16, 4) == 65_536);
        lemma_pow_adds(16, 4, 4);
        assert(pow(16, 8) == 4_294_967_296);
        lemma_pow_adds(16, 8, 8);
        assert(pow(16, 16) == 4_294_967_296 * 4_294_967_296);
        lemma_pow_adds(16, 16, 16);
    }
    assert forall|i: int|
        0 <= i < 36 && i != 8 && i != 13 && i != 18 && i != 23 implies low_hex_value(
        #[trigger] t[i],
    ) is Some by {
        let k = if i < 8 {
            i
        } else if i < 13 {
            i - 1
        } else if i < 18 {
            i - 2
        } else if i < 23 {
            i - 3
        } else {
            i - 4
        };
        assert(t[i] == all[k]);
    }
}

} // verus!
