//! What holds of items in the order of their ids.

use vstd::prelude::*;
use crate::inventory::config::Resolved;
use crate::inventory::edit::catalog_shows;
use crate::inventory::summary::{shows, shows_group, DeviceSummary, GroupSummary};
use crate::memory::catalog::MemoryCatalog;
use crate::sorted::{has_id, is_sorted_copy, with_id, Identified};
use crate::text;

verus! {

proof fn kept<T: Identified>(items: Seq<T>, id: Seq<char>, x: T)
    ensures
        with_id(items, id).contains(x) <==> items.contains(x) && x.key() == id,
    decreases items.len(),
{
    reveal(Seq::filter);
    let w = with_id(items, id);
    if items.len() > 0 {
        let shorter = items.drop_last();
        kept(shorter, id, x);
        let v = with_id(shorter, id);
        if v.contains(x) {
            let i = choose|i: int| 0 <= i < v.len() && v[i] == x;
            assert(w[i] == x);
        }
        if shorter.contains(x) {
            let i = choose|i: int| 0 <= i < shorter.len() && shorter[i] == x;
            assert(items[i] == x);
        }
        if items.last() == x && x.key() == id {
            assert(w.last() == x);
        }
        if items.contains(x) && items.last() != x {
            let i = choose|i: int| 0 <= i < items.len() && items[i] == x;
            assert(shorter[i] == x);
        }
        if w.contains(x) {
            let i = choose|i: int| 0 <= i < w.len() && w[i] == x;
            if i < v.len() {
                assert(v[i] == x);
            }
        }
    }
}

/// Items in the order of their ids are the same items, none lost and none made up,
/// and no item stands behind one with a greater id.
pub proof fn sorting_keeps_every_item<T: Identified>(sorted: Seq<T>, items: Seq<T>, x: T, i: int, j: int)
    requires
        is_sorted_copy(sorted, items),
    ensures
        sorted.contains(x) <==> items.contains(x),
        0 <= i < j < sorted.len() ==> sorted[i].key() == sorted[j].key() || text::lex_lt(
            sorted[i].key(),
            sorted[j].key(),
        ),
{
    kept(sorted, x.key(), x);
    kept(items, x.key(), x);
    assert(with_id(sorted, x.key()) == with_id(items, x.key()));
    if 0 <= i < j < sorted.len() && sorted[i].key() != sorted[j].key() {
        text::lex_total(sorted[i].key(), sorted[j].key());
    }
}

/// Items that share an id keep their order, and there are as many of them.
pub proof fn sorting_keeps_the_order_of_an_id<T: Identified>(
    sorted: Seq<T>,
    items: Seq<T>,
    id: Seq<char>,
)
    requires
        is_sorted_copy(sorted, items),
    ensures
        sorted.filter(|x: T| x.key() == id) == items.filter(|x: T| x.key() == id),
{
    assert(with_id(sorted, id) == with_id(items, id));
    let f = |x: T| x.key() == id;
    same_filter(sorted, f, has_id(id));
    same_filter(items, f, has_id(id));
}

proof fn same_filter<T>(s: Seq<T>, p: spec_fn(T) -> bool, q: spec_fn(T) -> bool)
    requires
        forall|x: T| #[trigger] p(x) == q(x),
    ensures
        s.filter(p) == s.filter(q),
    decreases s.len(),
{
    reveal(Seq::filter);
    if s.len() > 0 {
        same_filter(s.drop_last(), p, q);
    }
}

/// A catalog shows every device and every group of the fleet, and nothing else.
pub proof fn a_catalog_shows_the_whole_fleet(catalog: MemoryCatalog, resolved: Resolved, i: int)
    requires
        catalog_shows(catalog, resolved),
    ensures
        0 <= i < resolved.devices@.len() ==> exists|s: DeviceSummary| #[trigger]
            catalog.all_devices().contains(s) && shows(s, resolved.devices@[i]),
        0 <= i < resolved.groups@.len() ==> exists|s: GroupSummary| #[trigger]
            catalog.all_groups().contains(s) && shows_group(s, resolved.groups@[i]),
        forall|s: DeviceSummary| #[trigger]
            catalog.all_devices().contains(s) ==> exists|k: int|
                0 <= k < resolved.devices@.len() && shows(s, #[trigger] resolved.devices@[k]),
        forall|s: GroupSummary| #[trigger]
            catalog.all_groups().contains(s) ==> exists|k: int|
                0 <= k < resolved.groups@.len() && shows_group(s, #[trigger] resolved.groups@[k]),
{
    let d = choose|s: Seq<DeviceSummary>|
        crate::inventory::summary::shows_all(s, resolved.devices@) && #[trigger] is_sorted_copy(
            catalog.all_devices(),
            s,
        );
    let g = choose|s: Seq<GroupSummary>|
        crate::inventory::summary::shows_all_groups(s, resolved.groups@)
            && #[trigger] is_sorted_copy(catalog.all_groups(), s);
    if 0 <= i < resolved.devices@.len() {
        assert(shows(d[i], resolved.devices@[i]));
        assert(d.contains(d[i]));
        sorting_keeps_every_item(catalog.all_devices(), d, d[i], 0, 0);
        assert(catalog.all_devices().contains(d[i]));
    }
    if 0 <= i < resolved.groups@.len() {
        assert(shows_group(g[i], resolved.groups@[i]));
        assert(g.contains(g[i]));
        sorting_keeps_every_item(catalog.all_groups(), g, g[i], 0, 0);
        assert(catalog.all_groups().contains(g[i]));
    }
    assert forall|s: DeviceSummary| #[trigger] catalog.all_devices().contains(s) implies exists|
        k: int,
    |
        0 <= k < resolved.devices@.len() && shows(s, #[trigger] resolved.devices@[k]) by {
        sorting_keeps_every_item(catalog.all_devices(), d, s, 0, 0);
        let k = choose|k: int| 0 <= k < d.len() && d[k] == s;
        assert(shows(d[k], resolved.devices@[k]));
    }
    assert forall|s: GroupSummary| #[trigger] catalog.all_groups().contains(s) implies exists|
        k: int,
    |
        0 <= k < resolved.groups@.len() && shows_group(s, #[trigger] resolved.groups@[k]) by {
        sorting_keeps_every_item(catalog.all_groups(), g, s, 0, 0);
        let k = choose|k: int| 0 <= k < g.len() && g[k] == s;
        assert(shows_group(g[k], resolved.groups@[k]));
    }
}

} // verus!
