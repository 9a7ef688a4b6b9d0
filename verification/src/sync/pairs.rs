//! A table with one entry for each pair of a field and a device, in the order of
//! the pairs.

use vstd::prelude::*;
use vstd::string::*;
use crate::text;
use crate::text::{less, same};
use crate::time::Duration;

verus! {

/// A field and a device.
pub type Pair = (Seq<char>, Seq<char>);

/// By field, and by device where the fields are the same.
pub open spec fn pair_lt(a: Pair, b: Pair) -> bool {
    text::lex_lt(a.0, b.0) || (a.0 == b.0 && text::lex_lt(a.1, b.1))
}

pub proof fn pair_irreflexive(a: Pair)
    ensures
        !pair_lt(a, a),
{
    text::lex_irreflexive(a.0);
    text::lex_irreflexive(a.1);
}

pub proof fn pair_transitive(a: Pair, b: Pair, c: Pair)
    requires
        pair_lt(a, b),
        pair_lt(b, c),
    ensures
        pair_lt(a, c),
{
    if text::lex_lt(a.0, b.0) && text::lex_lt(b.0, c.0) {
        text::lex_transitive(a.0, b.0, c.0);
    } else if a.0 == b.0 && b.0 == c.0 && text::lex_lt(a.1, b.1) && text::lex_lt(b.1, c.1) {
        text::lex_transitive(a.1, b.1, c.1);
    }
}

pub proof fn pair_total(a: Pair, b: Pair)
    requires
        a != b,
    ensures
        pair_lt(a, b) || pair_lt(b, a),
{
    if a.0 != b.0 {
        text::lex_total(a.0, b.0);
    } else {
        text::lex_total(a.1, b.1);
    }
}

/// Whether one pair comes before another.
pub fn pair_less(field: &str, device: &str, other_field: &str, other_device: &str) -> (r: bool)
    ensures
        r == pair_lt((field@, device@), (other_field@, other_device@)),
{
    less(field, other_field) || (same(field, other_field) && less(device, other_device))
}

/// Pairs in strictly increasing order.
pub open spec fn pairs_in_order(pairs: Seq<Pair>) -> bool {
    forall|i: int, j: int|
        0 <= i < j < pairs.len() ==> pair_lt(#[trigger] pairs[i], #[trigger] pairs[j])
}

pub proof fn pairs_distinct(pairs: Seq<Pair>)
    requires
        pairs_in_order(pairs),
    ensures
        pairs.no_duplicates(),
{
    assert forall|i: int, j: int|
        0 <= i < pairs.len() && 0 <= j < pairs.len() && i != j implies pairs[i] != pairs[j] by {
        pair_irreflexive(pairs[i]);
        if i < j {
            assert(pair_lt(pairs[i], pairs[j]));
        } else {
            assert(pair_lt(pairs[j], pairs[i]));
        }
    }
}

/// How often to poll a pair, and the device to poll it on.
#[derive(Debug, Clone, Copy, PartialEq, Eq, Structural)]
pub struct Wanted {
    pub interval: Duration,
    /// The identity of the device's configuration.
    pub device: u128,
}

/// One pair of a table.
#[derive(Debug, PartialEq, Eq)]
pub struct PairEntry {
    pub field: String,
    pub device: String,
    pub wanted: Wanted,
}

impl PairEntry {
    pub open spec fn pair(self) -> Pair {
        (self.field@, self.device@)
    }
}

/// A map from pairs to what is wanted of them.
#[derive(Debug)]
pub struct PairTable {
    entries: Vec<PairEntry>,
}

pub open spec fn pairs_of(entries: Seq<PairEntry>) -> Seq<Pair> {
    entries.map_values(|e: PairEntry| e.pair())
}

spec fn table_of(entries: Seq<PairEntry>) -> Map<Pair, Wanted> {
    Map::new(
        |p: Pair| pairs_of(entries).contains(p),
        |p: Pair| entries[pairs_of(entries).index_of(p)].wanted,
    )
}

proof fn table_of_at(entries: Seq<PairEntry>, i: int)
    requires
        pairs_in_order(pairs_of(entries)),
        0 <= i < entries.len(),
    ensures
        table_of(entries).contains_key(entries[i].pair()),
        table_of(entries)[entries[i].pair()] == entries[i].wanted,
{
    let pairs = pairs_of(entries);
    pairs_distinct(pairs);
    assert(pairs[i] == entries[i].pair());
    assert(pairs.contains(pairs[i]));
    assert(pairs.index_of(pairs[i]) == i);
}

/// The first position whose pair does not come before the given one.
fn seek(entries: &Vec<PairEntry>, field: &str, device: &str) -> (r: usize)
    requires
        pairs_in_order(pairs_of(entries@)),
    ensures
        r <= entries.len(),
        forall|j: int| 0 <= j < r ==> pair_lt(#[trigger] pairs_of(entries@)[j], (field@, device@)),
        r < entries.len() ==> !pair_lt(pairs_of(entries@)[r as int], (field@, device@)),
        r < entries.len() && pairs_of(entries@)[r as int] != (field@, device@) ==> !pairs_of(
            entries@,
        ).contains((field@, device@)),
        r == entries.len() ==> !pairs_of(entries@).contains((field@, device@)),
{
    let mut i: usize = 0;
    while i < entries.len() && pair_less(
        entries[i].field.as_str(),
        entries[i].device.as_str(),
        field,
        device,
    )
        invariant
            i <= entries.len(),
            forall|j: int|
                0 <= j < i ==> pair_lt(#[trigger] pairs_of(entries@)[j], (field@, device@)),
        decreases entries.len() - i,
    {
        i = i + 1;
    }
    proof {
        let pairs = pairs_of(entries@);
        let p = (field@, device@);
        if pairs.contains(p) && (i == entries.len() || pairs[i as int] != p) {
            let j = choose|j: int| 0 <= j < pairs.len() && pairs[j] == p;
            if j < i {
                pair_irreflexive(p);
            } else {
                assert(j > i);
                assert(pair_lt(pairs[i as int], pairs[j]));
            }
            assert(false);
        }
    }
    i
}

impl View for PairTable {
    type V = Map<Pair, Wanted>;

    closed spec fn view(&self) -> Map<Pair, Wanted> {
        table_of(self.entries@)
    }
}

impl PairTable {
    #[verifier::type_invariant]
    spec fn wf(self) -> bool {
        pairs_in_order(pairs_of(self.entries@))
    }

    /// The pairs, in order.
    pub closed spec fn pairs(self) -> Seq<Pair> {
        pairs_of(self.entries@)
    }

    pub fn new() -> (r: Self)
        ensures
            r@ == Map::<Pair, Wanted>::empty(),
            r.pairs().len() == 0,
    {
        let r = PairTable { entries: Vec::new() };
        proof {
            assert(table_of(r.entries@) =~= Map::<Pair, Wanted>::empty());
        }
        r
    }

    pub fn len(&self) -> (r: usize)
        ensures
            r == self.pairs().len(),
            pairs_in_order(self.pairs()),
            forall|p: Pair| #[trigger] self@.contains_key(p) <==> self.pairs().contains(p),
    {
        proof {
            use_type_invariant(self);
        }
        self.entries.len()
    }

    /// The entry at a position of the order.
    pub fn at(&self, i: usize) -> (r: &PairEntry)
        requires
            i < self.pairs().len(),
        ensures
            r.pair() == self.pairs()[i as int],
            self@.contains_key(r.pair()),
            r.wanted == self@[r.pair()],
    {
        proof {
            use_type_invariant(self);
            table_of_at(self.entries@, i as int);
        }
        &self.entries[i]
    }

    pub fn get(&self, field: &str, device: &str) -> (r: Option<Wanted>)
        ensures
            r == looked_up(self@, (field@, device@)),
    {
        proof {
            use_type_invariant(self);
        }
        let i: usize = seek(&self.entries, field, device);
        if i < self.entries.len() && same(self.entries[i].field.as_str(), field) && same(
            self.entries[i].device.as_str(),
            device,
        ) {
            proof {
                table_of_at(self.entries@, i as int);
            }
            Some(self.entries[i].wanted)
        } else {
            None
        }
    }

    /// Puts `wanted` at a pair, in place of what was there.
    pub fn insert(&mut self, field: String, device: String, wanted: Wanted)
        ensures
            final(self)@ == old(self)@.insert((field@, device@), wanted),
    {
        proof {
            use_type_invariant(&*self);
        }
        let mut entries: Vec<PairEntry> = Vec::new();
        std::mem::swap(&mut entries, &mut self.entries);
        let ghost before = entries@;
        let i: usize = seek(&entries, field.as_str(), device.as_str());
        let found: bool = i < entries.len() && same(entries[i].field.as_str(), field.as_str())
            && same(entries[i].device.as_str(), device.as_str());
        let entry: PairEntry = PairEntry { field, device, wanted };
        if found {
            let _old: PairEntry = entries.remove(i);
            entries.insert(i, entry);
            proof {
                replaced(before, entries@, i as int);
            }
        } else {
            entries.insert(i, entry);
            proof {
                inserted(before, entries@, i as int);
            }
        }
        self.entries = entries;
    }
}

/// What a table holds at a pair.
pub open spec fn looked_up(table: Map<Pair, Wanted>, pair: Pair) -> Option<Wanted> {
    if table.contains_key(pair) {
        Some(table[pair])
    } else {
        None
    }
}

proof fn replaced(before: Seq<PairEntry>, after: Seq<PairEntry>, i: int)
    requires
        pairs_in_order(pairs_of(before)),
        0 <= i < before.len(),
        after == before.remove(i).insert(i, after[i]),
        after[i].pair() == before[i].pair(),
    ensures
        pairs_in_order(pairs_of(after)),
        table_of(after) == table_of(before).insert(after[i].pair(), after[i].wanted),
{
    assert(pairs_of(after) =~= pairs_of(before)) by {
        assert forall|x: int| 0 <= x < after.len() implies pairs_of(after)[x] == pairs_of(before)[x] by {
            if x != i {
                assert(after[x] == before[x]);
            }
        }
    }
    let pair = after[i].pair();
    let target = table_of(before).insert(pair, after[i].wanted);
    table_of_at(after, i);
    assert forall|p: Pair| table_of(after).contains_key(p) implies table_of(after)[p] == target[p] by {
        let pa = pairs_of(after);
        let x = choose|x: int| 0 <= x < pa.len() && pa[x] == p;
        table_of_at(after, x);
        table_of_at(before, x);
        if x != i {
            pairs_distinct(pa);
            assert(pa[x] != pa[i]);
            assert(after[x] == before[x]);
        }
    }
    assert(table_of(after) =~= target);
}

proof fn inserted(before: Seq<PairEntry>, after: Seq<PairEntry>, i: int)
    requires
        pairs_in_order(pairs_of(before)),
        0 <= i <= before.len(),
        after == before.insert(i, after[i]),
        forall|j: int| 0 <= j < i ==> pair_lt(#[trigger] pairs_of(before)[j], after[i].pair()),
        i < before.len() ==> !pair_lt(pairs_of(before)[i], after[i].pair()),
        !pairs_of(before).contains(after[i].pair()),
    ensures
        pairs_in_order(pairs_of(after)),
        table_of(after) == table_of(before).insert(after[i].pair(), after[i].wanted),
{
    let pa = pairs_of(after);
    let pb = pairs_of(before);
    let pair = after[i].pair();
    assert forall|j: int| i <= j < pb.len() implies pair_lt(pair, #[trigger] pb[j]) by {
        assert(pb.contains(pb[i]));
        pair_total(pair, pb[i]);
        if j > i {
            assert(pair_lt(pb[i], pb[j]));
            pair_transitive(pair, pb[i], pb[j]);
        }
    }
    assert forall|x: int| 0 <= x < pa.len() && x != i implies #[trigger] pa[x] == pb[if x < i {
        x
    } else {
        x - 1
    }] by {
        assert(after[x] == before[if x < i { x } else { x - 1 }]);
    }
    assert forall|x: int, y: int| 0 <= x < y < pa.len() implies pair_lt(#[trigger] pa[x], #[trigger] pa[y]) by {
        if x == i {
            assert(pa[y] == pb[y - 1]);
        } else if y == i {
            assert(pa[x] == pb[x]);
        } else {
            let x1 = if x < i { x } else { x - 1 };
            let y1 = if y < i { y } else { y - 1 };
            assert(pa[x] == pb[x1]);
            assert(pa[y] == pb[y1]);
        }
    }
    table_of_at(after, i);
    let target = table_of(before).insert(pair, after[i].wanted);
    assert forall|p: Pair| table_of(after).contains_key(p) <==> target.contains_key(p) by {
        if pa.contains(p) {
            let x = choose|x: int| 0 <= x < pa.len() && pa[x] == p;
            if x != i {
                assert(pb.contains(pb[if x < i { x } else { x - 1 }]));
            }
        }
        if pb.contains(p) {
            let y = choose|y: int| 0 <= y < pb.len() && pb[y] == p;
            let y1 = if y < i { y } else { y + 1 };
            assert(pa[y1] == p);
        }
        if p == pair {
            assert(pa[i] == p);
        }
    }
    assert forall|p: Pair| table_of(after).contains_key(p) implies table_of(after)[p] == target[p] by {
        let x = choose|x: int| 0 <= x < pa.len() && pa[x] == p;
        table_of_at(after, x);
        if x != i {
            let x1 = if x < i { x } else { x - 1 };
            table_of_at(before, x1);
            assert(after[x] == before[x1]);
            pairs_distinct(pa);
            assert(pa[x] != pa[i]);
        }
    }
    assert(table_of(after) =~= target);
}

} // verus!
