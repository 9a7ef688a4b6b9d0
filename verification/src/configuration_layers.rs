//! Which layer of the settings counts for each of them, and what paths come to.

use vstd::prelude::*;
use vstd::string::*;
use crate::configuration::{
    directory_of, distinct, entry_interval, every, explicit, field_list, first_fill, last_name,
    last_name_at, length_of, mentions, merged, overridden, raw_model, resolved, resolved_fields,
    seen_from, settled, settled_interval, FieldConfigModel, OverridesModel, RawFieldModel,
    RawServerConfig, ServerConfigModel,
};
use crate::inventory::export::{extension_of, format_named, last_dot, ExportFormat};
use crate::text::text_of;

verus! {

// ---- layers ----------------------------------------------------------------

/// What a document says nothing of is built in: it listens on port 8080 of this
/// machine, polls the recording state every thirty seconds, looks for writes four
/// times a second, tries each three times, and has its devices beside it.
pub proof fn an_empty_document_is_all_built_in(
    base: Seq<char>,
    raw: RawServerConfig,
    catalog: Seq<Seq<char>>,
)
    requires
        raw.devices_config_path is None,
        raw.defaults.devices_config_path is None,
        raw.defaults.interval_secs is None,
        raw.defaults.fields is None,
        raw.defaults.host is None,
        raw.defaults.port is None,
        raw.intent_relay is None,
        raw.sync is None,
        raw.http is None,
    ensures
        ({
            let c = resolved(base, raw, catalog);
            &&& c.devices_config_path == seen_from(base, "devices.toml"@)
            &&& c.poll == 250 * 1_000_000
            &&& c.max_attempts == 3
            &&& c.default_interval == Some(30 * 1_000_000_000nat)
            &&& c.fields == seq![
                FieldConfigModel {
                    name: "RUNNING_STATE"@,
                    interval: Some(30 * 1_000_000_000nat),
                },
            ]
            &&& c.host == "127.0.0.1"@
            &&& c.port == 8080
        }),
{
    reveal_strlit("RUNNING_STATE");
    reveal_strlit("*");
    let entry = RawFieldModel { name: "RUNNING_STATE"@, interval_secs: None };
    assert(entry.name.len() == 13);
    let list = seq![entry];
    let inherited = Some(30 * 1_000_000_000nat);
    assert(field_list(raw) =~= list);
    assert(list.drop_last() =~= Seq::<RawFieldModel>::empty());
    reveal_with_fuel(mentions, 2);
    assert(mentions(list, catalog) =~= seq![entry.name]);
    reveal_with_fuel(distinct, 2);
    assert(seq![entry.name].drop_last() =~= Seq::<Seq<char>>::empty());
    assert(distinct(seq![entry.name]) =~= seq![entry.name]);
    reveal_with_fuel(explicit, 2);
    assert(explicit(list, inherited, entry.name) == Some(inherited));
    assert(resolved_fields(list, inherited, catalog) =~= seq![
        FieldConfigModel { name: entry.name, interval: inherited },
    ]);
}

/// Where the server listens is what the section says; else what the defaults say;
/// else what is built in; host and port each for itself.
pub proof fn where_to_listen_is_layered(
    base: Seq<char>,
    raw: RawServerConfig,
    catalog: Seq<Seq<char>>,
)
    ensures
        ({
            let c = resolved(base, raw, catalog);
            let host = if raw.http is Some {
                text_of(raw.http->0.host)
            } else {
                None
            };
            let port = if raw.http is Some {
                raw.http->0.port
            } else {
                None
            };
            &&& host is Some ==> c.host == host->0
            &&& host is None && raw.defaults.host is Some ==> c.host == raw.defaults.host->0@
            &&& host is None && raw.defaults.host is None ==> c.host == "127.0.0.1"@
            &&& port is Some ==> c.port == port->0
            &&& port is None && raw.defaults.port is Some ==> c.port == raw.defaults.port->0
            &&& port is None && raw.defaults.port is None ==> c.port == 8080
        }),
{
}

/// The devices' file is the one the document names; else the one its defaults name;
/// else the built-in one; each seen from the directory of the document.
pub proof fn the_devices_file_is_layered(
    base: Seq<char>,
    raw: RawServerConfig,
    catalog: Seq<Seq<char>>,
)
    ensures
        ({
            let path = resolved(base, raw, catalog).devices_config_path;
            let own = raw.devices_config_path;
            let fallback = raw.defaults.devices_config_path;
            &&& own is Some ==> path == seen_from(base, own->0@)
            &&& own is None && fallback is Some ==> path == seen_from(base, fallback->0@)
            &&& own is None && fallback is None ==> path == seen_from(base, "devices.toml"@)
        }),
{
}

/// How often is polled is what the section says, in seconds; else what the defaults
/// say; else thirty seconds. None of them is never.
pub proof fn the_interval_is_layered(base: Seq<char>, raw: RawServerConfig, catalog: Seq<Seq<char>>)
    ensures
        ({
            let interval = resolved(base, raw, catalog).default_interval;
            let own = if raw.sync is Some {
                raw.sync->0.interval_secs
            } else {
                None
            };
            let secs = if own is Some {
                own->0
            } else if raw.defaults.interval_secs is Some {
                raw.defaults.interval_secs->0
            } else {
                30
            };
            &&& secs == 0 <==> interval is None
            &&& interval is Some ==> interval->0 == secs * 1_000_000_000
        }),
{
}

/// The list of fields is that of the section; else that of the defaults; else the
/// recording state alone. An empty list is a list.
pub proof fn the_field_list_is_layered(raw: RawServerConfig)
    ensures
        raw.sync is Some && raw.sync->0.fields is Some ==> field_list(raw) == raw_model(
            raw.sync->0.fields->0@,
        ),
        (raw.sync is None || raw.sync->0.fields is None) && raw.defaults.fields is Some
            ==> field_list(raw) == raw_model(raw.defaults.fields->0@),
        (raw.sync is None || raw.sync->0.fields is None) && raw.defaults.fields is None
            ==> field_list(raw) == seq![
            RawFieldModel { name: "RUNNING_STATE"@, interval_secs: None },
        ],
{
}

/// The relay looks as often as its section says, in milliseconds, and once a
/// millisecond at the most; it tries as often as its section says. Neither has a
/// default of the document's own.
pub proof fn the_relay_goes_by_its_section(
    base: Seq<char>,
    raw: RawServerConfig,
    catalog: Seq<Seq<char>>,
)
    ensures
        ({
            let c = resolved(base, raw, catalog);
            let ms = if raw.intent_relay is Some && raw.intent_relay->0.poll_ms is Some {
                raw.intent_relay->0.poll_ms->0
            } else {
                250
            };
            let tries = if raw.intent_relay is Some && raw.intent_relay->0.max_attempts is Some {
                raw.intent_relay->0.max_attempts->0
            } else {
                3
            };
            &&& ms >= 1 ==> c.poll == ms * 1_000_000
            &&& ms == 0 ==> c.poll == 1_000_000
            &&& c.max_attempts == tries
        }),
{
}

/// An override counts for its own setting and for no other, and what is not
/// overridden stays.
pub proof fn an_override_counts_for_its_setting(config: ServerConfigModel, over: OverridesModel)
    ensures
        ({
            let c = overridden(config, over);
            &&& c.devices_config_path == if over.devices_config_path is Some {
                over.devices_config_path->0
            } else {
                config.devices_config_path
            }
            &&& c.host == if over.host is Some {
                over.host->0
            } else {
                config.host
            }
            &&& c.port == if over.port is Some {
                over.port->0
            } else {
                config.port
            }
            &&& c.poll == config.poll
            &&& c.max_attempts == config.max_attempts
            &&& c.default_interval == config.default_interval
            &&& c.fields == config.fields
        }),
{
}

/// Of two sets of overrides the outer one counts, setting by setting.
pub proof fn the_outer_override_counts(outer: OverridesModel, inner: OverridesModel)
    ensures
        outer.devices_config_path is Some ==> merged(outer, inner).devices_config_path
            == outer.devices_config_path,
        outer.devices_config_path is None ==> merged(outer, inner).devices_config_path
            == inner.devices_config_path,
        outer.host is Some ==> merged(outer, inner).host == outer.host,
        outer.host is None ==> merged(outer, inner).host == inner.host,
        outer.port is Some ==> merged(outer, inner).port == outer.port,
        outer.port is None ==> merged(outer, inner).port == inner.port,
{
}

// ---- the schedule ----------------------------------------------------------

/// An interval of no seconds is never; any other is that many seconds.
pub proof fn no_seconds_is_never(secs: nat)
    ensures
        every(0) is None,
        secs > 0 ==> every(secs) == Some(secs * 1_000_000_000),
{
}

/// An entry that pins its interval goes by it, never among them, and one that does
/// not inherits.
pub proof fn an_entry_pins_or_inherits(name: Seq<char>, secs: u64, inherited: Option<nat>)
    ensures
        entry_interval(RawFieldModel { name, interval_secs: None }, inherited) == inherited,
        entry_interval(RawFieldModel { name, interval_secs: Some(0) }, inherited) is None,
        secs > 0 ==> entry_interval(RawFieldModel { name, interval_secs: Some(secs) }, inherited)
            == Some(secs as nat * 1_000_000_000),
{
}

/// Of several entries for a field the last one counts, and an entry for another
/// field, or a wildcard, counts for none.
pub proof fn the_last_entry_of_a_field_counts(
    raw: Seq<RawFieldModel>,
    entry: RawFieldModel,
    inherited: Option<nat>,
    name: Seq<char>,
)
    requires
        entry.name != "*"@,
    ensures
        settled_interval(raw.push(entry), inherited, entry.name) == entry_interval(
            entry,
            inherited,
        ),
        name != entry.name ==> settled_interval(raw.push(entry), inherited, name)
            == settled_interval(raw, inherited, name),
{
    assert(raw.push(entry).drop_last() =~= raw);
}

/// Of several wildcards the first one fills, and a field that neither an entry nor a
/// wildcard sets inherits.
pub proof fn the_first_wildcard_fills(
    raw: Seq<RawFieldModel>,
    first: RawFieldModel,
    later: RawFieldModel,
    inherited: Option<nat>,
    name: Seq<char>,
)
    requires
        first.name == "*"@,
        later.name == "*"@,
        forall|i: int| 0 <= i < raw.len() ==> (#[trigger] raw[i]).name != name,
        forall|i: int| 0 <= i < raw.len() ==> (#[trigger] raw[i]).name != "*"@,
        name != "*"@,
    ensures
        settled_interval(raw, inherited, name) == inherited,
        settled_interval(raw.push(first), inherited, name) == entry_interval(first, inherited),
        settled_interval(raw.push(first).push(later), inherited, name) == entry_interval(
            first,
            inherited,
        ),
{
    not_named(raw, inherited, name);
    assert(raw.push(first).drop_last() =~= raw);
    assert(raw.push(first).push(later).drop_last() =~= raw.push(first));
}

proof fn not_named(raw: Seq<RawFieldModel>, inherited: Option<nat>, name: Seq<char>)
    requires
        forall|i: int| 0 <= i < raw.len() ==> (#[trigger] raw[i]).name != name,
        forall|i: int| 0 <= i < raw.len() ==> (#[trigger] raw[i]).name != "*"@,
    ensures
        explicit(raw, inherited, name) is None,
        first_fill(raw, inherited) is None,
    decreases raw.len(),
{
    if raw.len() > 0 {
        let rest = raw.drop_last();
        assert forall|i: int| 0 <= i < rest.len() implies (#[trigger] rest[i]).name != name
            && rest[i].name != "*"@ by {
            assert(rest[i] == raw[i]);
        }
        not_named(rest, inherited, name);
        assert(raw[raw.len() - 1].name != name);
    }
}

proof fn distinct_goes_on(names: Seq<Seq<char>>, more: Seq<Seq<char>>)
    ensures
        distinct(names).is_prefix_of(distinct(names + more)),
    decreases more.len(),
{
    if more.len() == 0 {
        assert(names + more =~= names);
    } else {
        distinct_goes_on(names, more.drop_last());
        assert((names + more).drop_last() =~= names + more.drop_last());
        let a = distinct(names);
        let b = distinct(names + more.drop_last());
        let c = distinct(names + more);
        assert(a =~= b.subrange(0, a.len() as int));
        assert(a =~= c.subrange(0, a.len() as int));
    }
}

proof fn mentions_go_on(raw: Seq<RawFieldModel>, more: Seq<RawFieldModel>, catalog: Seq<Seq<char>>)
    ensures
        mentions(raw + more, catalog) == mentions(raw, catalog) + mentions(more, catalog),
    decreases more.len(),
{
    if more.len() == 0 {
        assert(raw + more =~= raw);
        assert(mentions(raw, catalog) + mentions(more, catalog) =~= mentions(raw, catalog));
    } else {
        mentions_go_on(raw, more.drop_last(), catalog);
        assert((raw + more).drop_last() =~= raw + more.drop_last());
        assert(mentions(raw + more, catalog) =~= mentions(raw, catalog) + mentions(more, catalog));
    }
}

/// A field keeps the place at which the list first mentions it: what is added behind
/// the list moves none of the fields before it.
pub proof fn what_is_added_comes_behind(
    raw: Seq<RawFieldModel>,
    more: Seq<RawFieldModel>,
    inherited: Option<nat>,
    catalog: Seq<Seq<char>>,
    i: int,
)
    requires
        0 <= i < resolved_fields(raw, inherited, catalog).len(),
    ensures
        i < resolved_fields(raw + more, inherited, catalog).len(),
        resolved_fields(raw + more, inherited, catalog)[i].name == resolved_fields(
            raw,
            inherited,
            catalog,
        )[i].name,
{
    mentions_go_on(raw, more, catalog);
    distinct_goes_on(mentions(raw, catalog), mentions(more, catalog));
    let a = distinct(mentions(raw, catalog));
    let b = distinct(mentions(raw + more, catalog));
    assert(a =~= b.subrange(0, a.len() as int));
    assert(a[i] == b[i]);
}

/// The length of an interval is that of its duration, and never has none.
pub proof fn an_interval_has_the_length_of_its_duration(d: crate::time::Duration)
    ensures
        length_of(None) is None,
        length_of(Some(d)) == Some(d@),
{
}

// ---- paths -----------------------------------------------------------------

/// A name in a directory: not empty, not the directory itself, and without a
/// separator.
pub open spec fn is_name(name: Seq<char>) -> bool {
    name.len() > 0 && name != "."@ && !name.contains('/')
}

proof fn name_starts_at(dir: Seq<char>, name: Seq<char>)
    requires
        dir.len() == 0 || dir.last() == '/',
        !name.contains('/'),
    ensures
        last_name_at(dir + name) == dir.len(),
    decreases name.len(),
{
    let path = dir + name;
    if name.len() == 0 {
        assert(path =~= dir);
    } else {
        assert(path.last() == name.last());
        assert(name.contains(name.last()));
        let shorter = name.drop_last();
        assert forall|i: int| 0 <= i < shorter.len() implies shorter[i] != '/' by {
            assert(name.contains(name[i]));
        }
        name_starts_at(dir, shorter);
        assert(path.drop_last() =~= dir + shorter);
    }
}

/// Separators, and dots that stand for the directory itself, behind a path do not
/// change it; and a path that is settled has none of them.
pub proof fn what_ends_a_path_does_not_change_it(path: Seq<char>)
    requires
        path.len() > 0,
    ensures
        settled(path + "/"@) == settled(path),
        settled(path + "/."@) == settled(path),
        settled(settled(path)) == settled(path),
    decreases path.len(),
{
    reveal_strlit("/");
    reveal_strlit("/.");
    let a = path + "/"@;
    let b = path + "/."@;
    assert(a.last() == '/' && a.drop_last() =~= path);
    assert(b.last() == '.' && b[b.len() - 2] == '/' && b.drop_last() =~= a);
    settled_is_settled(path);
}

proof fn settled_is_settled(path: Seq<char>)
    ensures
        settled(settled(path)) == settled(path),
    decreases path.len(),
{
    if path.len() > 1 && (path.last() == '/' || (path.last() == '.' && path[path.len() - 2]
        == '/')) {
        settled_is_settled(path.drop_last());
    }
}

/// A file in a directory has its own name and lies in that directory; a bare name
/// lies in the working directory.
pub proof fn a_file_lies_in_its_directory(dir: Seq<char>, name: Seq<char>)
    requires
        dir.len() > 0,
        is_name(name),
    ensures
        last_name(dir + "/"@ + name) == name,
        directory_of(dir + "/"@ + name) == settled(dir),
        last_name(name) == name,
        directory_of(name) == Seq::<char>::empty(),
{
    reveal_strlit("/");
    reveal_strlit(".");
    let base = dir + "/"@;
    let path = base + name;
    assert(base.last() == '/');
    assert(path.last() == name.last());
    assert(name.contains(name.last()));
    if name.len() == 1 {
        if name[0] == '.' {
            assert(name =~= "."@);
        }
    } else {
        assert(path[path.len() - 2] == name[name.len() - 2]);
        assert(name.contains(name[name.len() - 2]));
    }
    assert(settled(path) == path);
    name_starts_at(base, name);
    assert(path.skip(base.len() as int) =~= name);
    assert(path.take(base.len() as int) =~= base);
    what_ends_a_path_does_not_change_it(dir);
    let none = Seq::<char>::empty();
    assert(settled(name) == name);
    name_starts_at(none, name);
    assert(none + name =~= name);
    assert(name.skip(0) =~= name);
    assert(name.take(0) =~= none);
}

/// A relative path is seen from its base, with one separator between them; a path
/// from the root, and any path from the working directory, is itself.
pub proof fn a_path_is_seen_from_its_base(base: Seq<char>, path: Seq<char>)
    ensures
        seen_from(Seq::empty(), path) == path,
        path.len() > 0 && path[0] == '/' ==> seen_from(base, path) == path,
        base.len() > 0 && base.last() != '/' && (path.len() == 0 || path[0] != '/') ==> seen_from(
            base,
            path,
        ) == base + "/"@ + path,
        base.len() > 0 && base.last() == '/' && (path.len() == 0 || path[0] != '/') ==> seen_from(
            base,
            path,
        ) == base + path,
{
}

/// A file beside a document is found in the document's directory.
pub proof fn a_file_beside_a_document_is_found(dir: Seq<char>, document: Seq<char>, name: Seq<char>)
    requires
        dir.len() > 0,
        is_name(document),
        is_name(name),
        settled(dir).last() != '/',
    ensures
        directory_of(seen_from(directory_of(dir + "/"@ + document), name)) == directory_of(
            dir + "/"@ + document,
        ),
        last_name(seen_from(directory_of(dir + "/"@ + document), name)) == name,
{
    a_file_lies_in_its_directory(dir, document);
    let d = settled(dir);
    settled_keeps_some(dir);
    settled_is_settled(dir);
    assert(name.contains(name[0]));
    a_file_lies_in_its_directory(d, name);
}

proof fn settled_keeps_some(path: Seq<char>)
    requires
        path.len() > 0,
    ensures
        settled(path).len() > 0,
    decreases path.len(),
{
    if path.len() > 1 && (path.last() == '/' || (path.last() == '.' && path[path.len() - 2]
        == '/')) {
        settled_keeps_some(path.drop_last());
    }
}

proof fn dot_stands_at(stem: Seq<char>, ext: Seq<char>)
    requires
        !ext.contains('.'),
    ensures
        last_dot(stem + seq!['.'] + ext) == Some(stem.len() as int),
        last_dot(ext) is None,
    decreases ext.len(),
{
    let name = stem + seq!['.'] + ext;
    if ext.len() == 0 {
        assert(name.last() == '.');
    } else {
        assert(name.last() == ext.last());
        assert(ext.contains(ext.last()));
        let shorter = ext.drop_last();
        assert forall|i: int| 0 <= i < shorter.len() implies shorter[i] != '.' by {
            assert(ext.contains(ext[i]));
        }
        dot_stands_at(stem, shorter);
        assert(name.drop_last() =~= stem + seq!['.'] + shorter);
    }
}

/// The extension of a file is what stands behind the last dot of its name. A name
/// without a dot, or with its only dot in front, has none.
pub proof fn an_extension_stands_behind_the_last_dot(
    dir: Seq<char>,
    stem: Seq<char>,
    ext: Seq<char>,
)
    requires
        dir.len() > 0,
        stem.len() > 0,
        ext.len() > 0,
        !stem.contains('/'),
        !ext.contains('/'),
        !ext.contains('.'),
    ensures
        extension_of(dir + "/"@ + (stem + seq!['.'] + ext)) == Some(ext),
        extension_of(dir + "/"@ + ext) is None,
        extension_of(dir + "/"@ + (seq!['.'] + ext)) is None,
{
    reveal_strlit(".");
    reveal_strlit("..");
    let none = Seq::<char>::empty();
    let name = stem + seq!['.'] + ext;
    assert forall|i: int| 0 <= i < name.len() implies name[i] != '/' by {
        if i < stem.len() {
            assert(stem.contains(name[i]));
        } else if i > stem.len() {
            assert(ext.contains(name[i]));
        }
    }
    assert(name.len() >= 3);
    a_file_lies_in_its_directory(dir, name);
    dot_stands_at(stem, ext);
    assert(name.skip(stem.len() as int + 1) =~= ext);
    assert(ext.contains(ext[0]));
    assert("."@[0] == '.');
    a_file_lies_in_its_directory(dir, ext);
    dot_stands_at(none, ext);
    let dotted = seq!['.'] + ext;
    assert forall|i: int| 0 <= i < dotted.len() implies dotted[i] != '/' by {
        if i > 0 {
            assert(ext.contains(dotted[i]));
        }
    }
    assert(none + seq!['.'] + ext =~= dotted);
    assert(dotted.len() >= 2);
    a_file_lies_in_its_directory(dir, dotted);
}

/// The extension of a bare name, which lies in no directory.
pub proof fn an_extension_of_a_bare_name(stem: Seq<char>, ext: Seq<char>)
    requires
        stem.len() > 0,
        ext.len() > 0,
        !stem.contains('/'),
        !ext.contains('/'),
        !ext.contains('.'),
    ensures
        extension_of(stem + seq!['.'] + ext) == Some(ext),
{
    reveal_strlit(".");
    reveal_strlit("..");
    let name = stem + seq!['.'] + ext;
    assert forall|i: int| 0 <= i < name.len() implies name[i] != '/' by {
        if i < stem.len() {
            assert(stem.contains(name[i]));
        } else if i > stem.len() {
            assert(ext.contains(name[i]));
        }
    }
    assert(name.len() >= 3);
    a_file_lies_in_its_directory("x"@ + name, name);
    dot_stands_at(stem, ext);
    assert(name.skip(stem.len() as int + 1) =~= ext);
}

/// A file is written as its extension says: JSON, YAML under either of its two
/// extensions, and TOML under any other and under none.
pub proof fn a_format_goes_by_its_extension(e: Seq<char>)
    ensures
        format_named(Some("json"@)) == ExportFormat::Json,
        format_named(Some("yaml"@)) == ExportFormat::Yaml,
        format_named(Some("yml"@)) == ExportFormat::Yaml,
        e != "json"@ && e != "yaml"@ && e != "yml"@ ==> format_named(Some(e)) == ExportFormat::Toml,
        format_named(None) == ExportFormat::Toml,
{
    reveal_strlit("json");
    reveal_strlit("yaml");
    reveal_strlit("yml");
    assert("json"@[0] == 'j' && "yaml"@[0] == 'y' && "yml"@[0] == 'y');
}

} // verus!
