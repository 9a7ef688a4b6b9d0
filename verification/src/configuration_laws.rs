//! What holds of every document.

use vstd::prelude::*;
use crate::configuration::{
    distinct, entry_interval, explicit, first_fill, mentions, merged, names_of,
    nothing_overridden, overridden, resolved_fields, settled_interval, FieldConfigModel,
    OverridesModel, RawFieldModel, ServerConfigModel,
};

verus! {

/// Overriding nothing changes nothing.
pub proof fn overriding_nothing_is_the_identity(config: ServerConfigModel)
    ensures
        overridden(config, nothing_overridden()) == config,
{
}

/// Applying two sets of overrides is applying the one they merge to.
pub proof fn two_overrides_are_their_merge(
    config: ServerConfigModel,
    inner: OverridesModel,
    outer: OverridesModel,
)
    ensures
        overridden(overridden(config, inner), outer) == overridden(config, merged(outer, inner)),
{
}

/// Merging overrides is associative, and overriding nothing is neutral in it.
pub proof fn overrides_form_a_monoid(a: OverridesModel, b: OverridesModel, c: OverridesModel)
    ensures
        merged(a, merged(b, c)) == merged(merged(a, b), c),
        merged(a, nothing_overridden()) == a,
        merged(nothing_overridden(), a) == a,
{
}

proof fn distinct_keeps(names: Seq<Seq<char>>)
    ensures
        distinct(names).no_duplicates(),
        forall|n: Seq<char>| distinct(names).contains(n) <==> names.contains(n),
    decreases names.len(),
{
    if names.len() > 0 {
        let before = names.drop_last();
        let last = names.last();
        distinct_keeps(before);
        let d = distinct(before);
        assert forall|n: Seq<char>| distinct(names).contains(n) <==> names.contains(n) by {
            if names.contains(n) {
                let i = choose|i: int| 0 <= i < names.len() && names[i] == n;
                if i < before.len() {
                    assert(before[i] == n);
                    assert(before.contains(n));
                    assert(d.contains(n));
                    let j = choose|j: int| 0 <= j < d.len() && d[j] == n;
                    assert(distinct(names)[j] == n);
                } else if !d.contains(last) {
                    assert(d.push(last)[d.len() as int] == last);
                }
            }
            if distinct(names).contains(n) {
                let j = choose|j: int| 0 <= j < distinct(names).len() && distinct(names)[j] == n;
                if j < d.len() {
                    assert(d[j] == n);
                    assert(d.contains(n));
                    assert(before.contains(n));
                    let i = choose|i: int| 0 <= i < before.len() && before[i] == n;
                    assert(names[i] == n);
                } else {
                    assert(names[names.len() - 1] == n);
                }
            }
        }
    } else {
        assert(distinct(names) =~= names);
    }
}

proof fn names_of_resolved(
    raw: Seq<RawFieldModel>,
    inherited: Option<nat>,
    catalog: Seq<Seq<char>>,
)
    ensures
        names_of(resolved_fields(raw, inherited, catalog)) == distinct(mentions(raw, catalog)),
{
    assert(names_of(resolved_fields(raw, inherited, catalog)) =~= distinct(mentions(raw, catalog)));
}

/// A field stands in the schedule once, however often the list mentions it.
pub proof fn a_field_stands_once(
    raw: Seq<RawFieldModel>,
    inherited: Option<nat>,
    catalog: Seq<Seq<char>>,
)
    ensures
        names_of(resolved_fields(raw, inherited, catalog)).no_duplicates(),
{
    names_of_resolved(raw, inherited, catalog);
    distinct_keeps(mentions(raw, catalog));
}

proof fn mentioned(raw: Seq<RawFieldModel>, catalog: Seq<Seq<char>>, name: Seq<char>)
    ensures
        mentions(raw, catalog).contains(name) <==> exists|i: int|
            0 <= i < raw.len() && names_it(#[trigger] raw[i], catalog, name),
    decreases raw.len(),
{
    if raw.len() > 0 {
        let before = raw.drop_last();
        let m = mentions(before, catalog);
        mentioned(before, catalog, name);
        if mentions(raw, catalog).contains(name) {
            let k = choose|k: int|
                0 <= k < mentions(raw, catalog).len() && mentions(raw, catalog)[k] == name;
            if k < m.len() {
                assert(m[k] == name);
                assert(m.contains(name));
                let i = choose|i: int|
                    0 <= i < before.len() && names_it(#[trigger] before[i], catalog, name);
                assert(names_it(raw[i], catalog, name));
            } else {
                if raw.last().wildcard() {
                    assert(catalog[k - m.len()] == name);
                }
                assert(names_it(raw[raw.len() - 1], catalog, name));
            }
        }
        if exists|i: int| 0 <= i < raw.len() && names_it(#[trigger] raw[i], catalog, name) {
            let i = choose|i: int| 0 <= i < raw.len() && names_it(#[trigger] raw[i], catalog, name);
            if i < before.len() {
                assert(names_it(before[i], catalog, name));
                let k = choose|k: int| 0 <= k < m.len() && m[k] == name;
                assert(mentions(raw, catalog)[k] == name);
            } else if raw.last().wildcard() {
                let k = choose|k: int| 0 <= k < catalog.len() && catalog[k] == name;
                assert(mentions(raw, catalog)[m.len() + k] == name);
            } else {
                assert(mentions(raw, catalog)[m.len() as int] == name);
            }
        }
    }
}

/// Whether an entry names a field: by its name, or as a wildcard.
pub open spec fn names_it(entry: RawFieldModel, catalog: Seq<Seq<char>>, name: Seq<char>) -> bool {
    if entry.wildcard() {
        catalog.contains(name)
    } else {
        entry.name == name
    }
}

/// The schedule holds the fields that some entry names, and no others: without a
/// wildcard, nothing of the catalog comes along.
pub proof fn exactly_the_named_fields_are_listed(
    raw: Seq<RawFieldModel>,
    inherited: Option<nat>,
    catalog: Seq<Seq<char>>,
    name: Seq<char>,
)
    ensures
        names_of(resolved_fields(raw, inherited, catalog)).contains(name) <==> exists|i: int|
            0 <= i < raw.len() && names_it(#[trigger] raw[i], catalog, name),
{
    names_of_resolved(raw, inherited, catalog);
    distinct_keeps(mentions(raw, catalog));
    mentioned(raw, catalog, name);
}

/// A field that is named for itself goes by what its last entry sets, wherever in
/// the list a wildcard stands.
pub proof fn an_override_beats_the_wildcard(
    raw: Seq<RawFieldModel>,
    inherited: Option<nat>,
    catalog: Seq<Seq<char>>,
    i: int,
)
    requires
        0 <= i < resolved_fields(raw, inherited, catalog).len(),
        explicit(
            raw,
            inherited,
            resolved_fields(raw, inherited, catalog)[i].name,
        ) is Some,
    ensures
        resolved_fields(raw, inherited, catalog)[i].interval == explicit(
            raw,
            inherited,
            resolved_fields(raw, inherited, catalog)[i].name,
        )->0,
{
}

proof fn explicit_splits(
    a: Seq<RawFieldModel>,
    b: Seq<RawFieldModel>,
    inherited: Option<nat>,
    name: Seq<char>,
)
    ensures
        explicit(a + b, inherited, name) == (if explicit(b, inherited, name) is Some {
            explicit(b, inherited, name)
        } else {
            explicit(a, inherited, name)
        }),
    decreases b.len(),
{
    if b.len() == 0 {
        assert(a + b =~= a);
    } else {
        assert((a + b).drop_last() =~= a + b.drop_last());
        explicit_splits(a, b.drop_last(), inherited, name);
    }
}

/// It does not matter to what a field is set whether a wildcard stands above or
/// below the entry that sets it.
pub proof fn a_wildcard_may_stand_above_or_below(
    a: Seq<RawFieldModel>,
    wildcard: RawFieldModel,
    entry: RawFieldModel,
    b: Seq<RawFieldModel>,
    inherited: Option<nat>,
    name: Seq<char>,
)
    requires
        wildcard.wildcard(),
        !entry.wildcard(),
    ensures
        explicit(a + seq![wildcard, entry] + b, inherited, name) == explicit(
            a + seq![entry, wildcard] + b,
            inherited,
            name,
        ),
{
    let x = seq![wildcard, entry];
    let y = seq![entry, wildcard];
    explicit_splits(a + x, b, inherited, name);
    explicit_splits(a + y, b, inherited, name);
    explicit_splits(a, x, inherited, name);
    explicit_splits(a, y, inherited, name);
    assert(x =~= seq![wildcard] + seq![entry]);
    assert(y =~= seq![entry] + seq![wildcard]);
    explicit_splits(seq![wildcard], seq![entry], inherited, name);
    explicit_splits(seq![entry], seq![wildcard], inherited, name);
    let none = Seq::<RawFieldModel>::empty();
    assert(seq![wildcard].drop_last() =~= none);
    assert(seq![entry].drop_last() =~= none);
    assert(explicit(none, inherited, name) is None);
    assert(explicit(seq![wildcard], inherited, name) is None);
}

proof fn first_fill_splits(
    a: Seq<RawFieldModel>,
    b: Seq<RawFieldModel>,
    inherited: Option<nat>,
)
    ensures
        first_fill(a + b, inherited) == (if first_fill(a, inherited) is Some {
            first_fill(a, inherited)
        } else {
            first_fill(b, inherited)
        }),
    decreases b.len(),
{
    if b.len() == 0 {
        assert(a + b =~= a);
    } else {
        assert((a + b).drop_last() =~= a + b.drop_last());
        first_fill_splits(a, b.drop_last(), inherited);
    }
}

proof fn no_wildcard_no_fill(raw: Seq<RawFieldModel>, inherited: Option<nat>)
    requires
        forall|i: int| 0 <= i < raw.len() ==> !(#[trigger] raw[i]).wildcard(),
    ensures
        first_fill(raw, inherited) is None,
    decreases raw.len(),
{
    if raw.len() > 0 {
        let before = raw.drop_last();
        assert forall|i: int| 0 <= i < before.len() implies !(#[trigger] before[i]).wildcard() by {
            assert(before[i] == raw[i]);
        }
        no_wildcard_no_fill(before, inherited);
        assert(!raw[raw.len() - 1].wildcard());
    }
}

/// What a name comes to in a list with one wildcard, wherever that stands.
proof fn settled_with_wildcard(
    others: Seq<RawFieldModel>,
    wildcard: RawFieldModel,
    p: int,
    inherited: Option<nat>,
    name: Seq<char>,
)
    requires
        wildcard.wildcard(),
        forall|i: int| 0 <= i < others.len() ==> !(#[trigger] others[i]).wildcard(),
        0 <= p <= others.len(),
    ensures
        settled_interval(others.insert(p, wildcard), inherited, name) == (match explicit(
            others,
            inherited,
            name,
        ) {
            Some(interval) => interval,
            None => entry_interval(wildcard, inherited),
        }),
{
    let raw = others.insert(p, wildcard);
    let a = others.take(p);
    let one = seq![wildcard];
    let b = others.skip(p);
    assert(raw =~= a + one + b);
    assert(others =~= a + b);
    explicit_splits(a + one, b, inherited, name);
    explicit_splits(a, one, inherited, name);
    explicit_splits(a, b, inherited, name);
    let none = Seq::<RawFieldModel>::empty();
    assert(one.drop_last() =~= none);
    assert(explicit(none, inherited, name) is None);
    assert(explicit(one, inherited, name) is None);
    first_fill_splits(a + one, b, inherited);
    first_fill_splits(a, one, inherited);
    assert forall|i: int| 0 <= i < a.len() implies !(#[trigger] a[i]).wildcard() by {
        assert(a[i] == others[i]);
    }
    no_wildcard_no_fill(a, inherited);
    assert(first_fill(none, inherited) is None);
    assert(first_fill(one, inherited) == Some(entry_interval(wildcard, inherited)));
}

proof fn named_with_wildcard(
    others: Seq<RawFieldModel>,
    wildcard: RawFieldModel,
    p: int,
    inherited: Option<nat>,
    catalog: Seq<Seq<char>>,
    name: Seq<char>,
)
    requires
        wildcard.wildcard(),
        0 <= p <= others.len(),
    ensures
        names_of(resolved_fields(others.insert(p, wildcard), inherited, catalog)).contains(name)
            <==> catalog.contains(name) || exists|i: int|
            0 <= i < others.len() && names_it(#[trigger] others[i], catalog, name),
{
    let raw = others.insert(p, wildcard);
    exactly_the_named_fields_are_listed(raw, inherited, catalog, name);
    if exists|i: int| 0 <= i < raw.len() && names_it(#[trigger] raw[i], catalog, name) {
        let i = choose|i: int| 0 <= i < raw.len() && names_it(#[trigger] raw[i], catalog, name);
        if i < p {
            assert(raw[i] == others[i]);
        } else if i > p {
            assert(raw[i] == others[i - 1]);
        }
    }
    if catalog.contains(name) {
        assert(names_it(raw[p], catalog, name));
    }
    if exists|i: int| 0 <= i < others.len() && names_it(#[trigger] others[i], catalog, name) {
        let i = choose|i: int|
            0 <= i < others.len() && names_it(#[trigger] others[i], catalog, name);
        if i < p {
            assert(raw[i] == others[i]);
        } else {
            assert(raw[i + 1] == others[i]);
        }
    }
}

/// One entry of the schedule: its name is listed, and its interval is what the
/// name comes to.
proof fn scheduled(
    raw: Seq<RawFieldModel>,
    inherited: Option<nat>,
    catalog: Seq<Seq<char>>,
    field: FieldConfigModel,
)
    ensures
        resolved_fields(raw, inherited, catalog).contains(field) <==> names_of(
            resolved_fields(raw, inherited, catalog),
        ).contains(field.name) && field.interval == settled_interval(raw, inherited, field.name),
{
    let fields = resolved_fields(raw, inherited, catalog);
    let names = names_of(fields);
    if fields.contains(field) {
        let i = choose|i: int| 0 <= i < fields.len() && fields[i] == field;
        assert(names[i] == field.name);
    }
    if names.contains(field.name) && field.interval == settled_interval(
        raw,
        inherited,
        field.name,
    ) {
        let i = choose|i: int| 0 <= i < names.len() && names[i] == field.name;
        assert(fields[i] == field);
    }
}

/// Wherever in a list its one wildcard stands, the schedule is as long, and holds
/// the same fields at the same intervals.
pub proof fn a_wildcard_may_stand_anywhere(
    others: Seq<RawFieldModel>,
    wildcard: RawFieldModel,
    p: int,
    q: int,
    inherited: Option<nat>,
    catalog: Seq<Seq<char>>,
)
    requires
        wildcard.wildcard(),
        forall|i: int| 0 <= i < others.len() ==> !(#[trigger] others[i]).wildcard(),
        0 <= p <= others.len(),
        0 <= q <= others.len(),
    ensures
        ({
            let a = resolved_fields(others.insert(p, wildcard), inherited, catalog);
            let b = resolved_fields(others.insert(q, wildcard), inherited, catalog);
            &&& a.len() == b.len()
            &&& forall|field: FieldConfigModel| #[trigger] a.contains(field) <==> b.contains(field)
        }),
{
    let x = others.insert(p, wildcard);
    let y = others.insert(q, wildcard);
    let a = resolved_fields(x, inherited, catalog);
    let b = resolved_fields(y, inherited, catalog);
    let m = names_of(a);
    let n = names_of(b);
    assert forall|name: Seq<char>| m.contains(name) <==> n.contains(name) by {
        named_with_wildcard(others, wildcard, p, inherited, catalog, name);
        named_with_wildcard(others, wildcard, q, inherited, catalog, name);
    }
    a_field_stands_once(x, inherited, catalog);
    a_field_stands_once(y, inherited, catalog);
    m.unique_seq_to_set();
    n.unique_seq_to_set();
    assert(m.to_set() =~= n.to_set());
    assert(a.len() == m.len() && b.len() == n.len());
    assert forall|field: FieldConfigModel| #[trigger] a.contains(field) <==> b.contains(field) by {
        scheduled(x, inherited, catalog, field);
        scheduled(y, inherited, catalog, field);
        settled_with_wildcard(others, wildcard, p, inherited, field.name);
        settled_with_wildcard(others, wildcard, q, inherited, field.name);
    }
}

/// A wildcard alone lists exactly the catalog, in its order.
pub proof fn a_wildcard_lists_the_catalog(
    wildcard: RawFieldModel,
    inherited: Option<nat>,
    catalog: Seq<Seq<char>>,
)
    requires
        wildcard.wildcard(),
        catalog.no_duplicates(),
    ensures
        names_of(resolved_fields(seq![wildcard], inherited, catalog)) == catalog,
{
    let raw = seq![wildcard];
    names_of_resolved(raw, inherited, catalog);
    assert(raw.drop_last() =~= Seq::<RawFieldModel>::empty());
    assert(mentions(raw.drop_last(), catalog) =~= Seq::<Seq<char>>::empty());
    assert(mentions(raw, catalog) =~= catalog);
    distinct_is_itself(catalog);
}

proof fn distinct_is_itself(names: Seq<Seq<char>>)
    requires
        names.no_duplicates(),
    ensures
        distinct(names) == names,
    decreases names.len(),
{
    if names.len() > 0 {
        let before = names.drop_last();
        distinct_is_itself(before);
        if before.contains(names.last()) {
            let i = choose|i: int| 0 <= i < before.len() && before[i] == names.last();
            assert(names[i] == names[names.len() - 1]);
        }
        assert(before.push(names.last()) =~= names);
    } else {
        assert(distinct(names) =~= names);
    }
}

} // verus!
