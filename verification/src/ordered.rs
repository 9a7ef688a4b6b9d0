//! Maps and sets keyed by text, held in key order.

use vstd::prelude::*;
use vstd::string::*;
use crate::text;
use crate::text::{less, same};

verus! {

/// Keys in strictly increasing order.
pub open spec fn in_order(keys: Seq<Seq<char>>) -> bool {
    forall|i: int, j: int| 0 <= i < j < keys.len() ==> text::lex_lt(#[trigger] keys[i], #[trigger] keys[j])
}

/// Keys in order do not repeat.
pub proof fn in_order_distinct(keys: Seq<Seq<char>>)
    requires
        in_order(keys),
    ensures
        keys.no_duplicates(),
{
    assert forall|i: int, j: int| 0 <= i < keys.len() && 0 <= j < keys.len() && i != j implies keys[i]
        != keys[j] by {
        text::lex_irreflexive(keys[i]);
        if i < j {
            assert(text::lex_lt(keys[i], keys[j]));
        } else {
            assert(text::lex_lt(keys[j], keys[i]));
        }
    }
}

/// Two lists of keys in order with the same keys are the same list.
pub proof fn in_order_unique(a: Seq<Seq<char>>, b: Seq<Seq<char>>)
    requires
        in_order(a),
        in_order(b),
        forall|k: Seq<char>| a.contains(k) <==> b.contains(k),
    ensures
        a == b,
    decreases a.len(),
{
    if a.len() == 0 {
        if b.len() > 0 {
            assert(b.contains(b[0]));
        }
        assert(a == b);
    } else if b.len() == 0 {
        assert(a.contains(a[0]));
    } else {
        let x = a.last();
        let y = b.last();
        assert(b.contains(x));
        assert(a.contains(y));
        if x != y {
            let i = choose|i: int| 0 <= i < b.len() && b[i] == x;
            let j = choose|j: int| 0 <= j < a.len() && a[j] == y;
            assert(text::lex_lt(b[i], b[b.len() - 1]));
            assert(text::lex_lt(a[j], a[a.len() - 1]));
            text::lex_transitive(x, y, x);
            text::lex_irreflexive(x);
        }
        in_order_distinct(a);
        in_order_distinct(b);
        let a1 = a.drop_last();
        let b1 = b.drop_last();
        assert forall|k: Seq<char>| a1.contains(k) <==> b1.contains(k) by {
            if a1.contains(k) {
                let i = choose|i: int| 0 <= i < a1.len() && a1[i] == k;
                assert(a[i] == k);
                assert(a.contains(k));
                assert(b.contains(k));
                let j = choose|j: int| 0 <= j < b.len() && b[j] == k;
                assert(j != b.len() - 1);
                assert(b1[j] == k);
            }
            if b1.contains(k) {
                let i = choose|i: int| 0 <= i < b1.len() && b1[i] == k;
                assert(b[i] == k);
                assert(b.contains(k));
                assert(a.contains(k));
                let j = choose|j: int| 0 <= j < a.len() && a[j] == k;
                assert(j != a.len() - 1);
                assert(a1[j] == k);
            }
        }
        in_order_unique(a1, b1);
        assert(a == a1.push(x));
        assert(b == b1.push(y));
    }
}

/// A map from text to values, iterated in key order.
pub struct OrderedMap<V> {
    entries: Vec<(String, V)>,
}

spec fn keys_of<V>(entries: Seq<(String, V)>) -> Seq<Seq<char>> {
    entries.map_values(|e: (String, V)| e.0@)
}

spec fn map_of<V: View>(entries: Seq<(String, V)>) -> Map<Seq<char>, V::V> {
    Map::new(
        |k: Seq<char>| keys_of(entries).contains(k),
        |k: Seq<char>| entries[keys_of(entries).index_of(k)].1@,
    )
}

proof fn map_of_at<V: View>(entries: Seq<(String, V)>, i: int)
    requires
        in_order(keys_of(entries)),
        0 <= i < entries.len(),
    ensures
        map_of(entries).contains_key(entries[i].0@),
        map_of(entries)[entries[i].0@] == entries[i].1@,
{
    in_order_distinct(keys_of(entries));
    let k = entries[i].0@;
    assert(keys_of(entries)[i] == k);
    assert(keys_of(entries).contains(k));
    let j = keys_of(entries).index_of(k);
    assert(keys_of(entries)[j] == k);
    assert(j == i);
}

/// The first position whose key does not precede `key`.
fn seek<V>(entries: &Vec<(String, V)>, key: &str) -> (r: usize)
    requires
        in_order(keys_of(entries@)),
    ensures
        r <= entries.len(),
        forall|j: int| 0 <= j < r ==> text::lex_lt(#[trigger] keys_of(entries@)[j], key@),
        r < entries.len() ==> !text::lex_lt(keys_of(entries@)[r as int], key@),
        r < entries.len() && keys_of(entries@)[r as int] != key@ ==> !keys_of(entries@).contains(key@),
        r == entries.len() ==> !keys_of(entries@).contains(key@),
{
    let mut i: usize = 0;
    while i < entries.len() && less(entries[i].0.as_str(), key)
        invariant
            i <= entries.len(),
            forall|j: int| 0 <= j < i ==> text::lex_lt(#[trigger] keys_of(entries@)[j], key@),
        decreases entries.len() - i,
    {
        i = i + 1;
    }
    proof {
        let keys = keys_of(entries@);
        if keys.contains(key@) && (i == entries.len() || keys[i as int] != key@) {
            let j = choose|j: int| 0 <= j < keys.len() && keys[j] == key@;
            if j < i {
                text::lex_irreflexive(key@);
            } else {
                assert(j > i);
                assert(text::lex_lt(keys[i as int], keys[j]));
            }
            assert(false);
        }
    }
    i
}

impl<V: View> View for OrderedMap<V> {
    type V = Map<Seq<char>, V::V>;

    closed spec fn view(&self) -> Map<Seq<char>, V::V> {
        map_of(self.entries@)
    }
}

impl<V> OrderedMap<V> {
    #[verifier::type_invariant]
    spec fn wf(self) -> bool {
        in_order(keys_of(self.entries@))
    }
}

impl<V: View> OrderedMap<V> {
    /// The keys, in order.
    pub closed spec fn keys(self) -> Seq<Seq<char>> {
        keys_of(self.entries@)
    }

    pub fn new() -> (r: Self)
        ensures
            r@ == Map::<Seq<char>, V::V>::empty(),
            r.keys().len() == 0,
    {
        let r = OrderedMap { entries: Vec::new() };
        proof {
            assert(map_of(r.entries@) =~= Map::<Seq<char>, V::V>::empty());
        }
        r
    }

    pub fn len(&self) -> (r: usize)
        ensures
            r == self.keys().len(),
            in_order(self.keys()),
            forall|k: Seq<char>| #[trigger] self@.contains_key(k) <==> self.keys().contains(k),
    {
        proof {
            use_type_invariant(self);
        }
        self.entries.len()
    }

    /// The entry at a position of the key order.
    pub fn at(&self, i: usize) -> (r: (&String, &V))
        requires
            i < self.keys().len(),
        ensures
            r.0@ == self.keys()[i as int],
            self@.contains_key(r.0@),
            r.1@ == self@[r.0@],
    {
        proof {
            use_type_invariant(self);
            map_of_at(self.entries@, i as int);
        }
        (&self.entries[i].0, &self.entries[i].1)
    }

    pub fn get(&self, key: &str) -> (r: Option<&V>)
        ensures
            r is Some <==> self@.contains_key(key@),
            r is Some ==> r->0@ == self@[key@],
    {
        proof {
            use_type_invariant(self);
        }
        let i: usize = seek(&self.entries, key);
        if i < self.entries.len() && same(self.entries[i].0.as_str(), key) {
            proof {
                map_of_at(self.entries@, i as int);
            }
            Some(&self.entries[i].1)
        } else {
            None
        }
    }

    pub fn contains(&self, key: &str) -> (r: bool)
        ensures
            r == self@.contains_key(key@),
    {
        self.get(key).is_some()
    }

    /// Takes the value at `key` out of the map.
    pub fn take(&mut self, key: &str) -> (r: Option<V>)
        ensures
            final(self)@ == old(self)@.remove(key@),
            r is Some <==> old(self)@.contains_key(key@),
            r is Some ==> r->0@ == old(self)@[key@],
    {
        proof {
            use_type_invariant(&*self);
        }
        let mut entries: Vec<(String, V)> = Vec::new();
        std::mem::swap(&mut entries, &mut self.entries);
        let ghost before = entries@;
        let i: usize = seek(&entries, key);
        if i < entries.len() && same(entries[i].0.as_str(), key) {
            let taken: (String, V) = entries.remove(i);
            proof {
                removed(before, i as int);
            }
            self.entries = entries;
            Some(taken.1)
        } else {
            proof {
                assert(map_of(before).remove(key@) =~= map_of(before));
            }
            self.entries = entries;
            None
        }
    }

    /// Puts `value` at `key`, in place of what was there.
    pub fn insert(&mut self, key: String, value: V)
        ensures
            final(self)@ == old(self)@.insert(key@, value@),
    {
        proof {
            use_type_invariant(&*self);
        }
        let mut entries: Vec<(String, V)> = Vec::new();
        std::mem::swap(&mut entries, &mut self.entries);
        let ghost before = entries@;
        let i: usize = seek(&entries, key.as_str());
        let ghost k = key@;
        let ghost v = value@;
        if i < entries.len() && same(entries[i].0.as_str(), key.as_str()) {
            let _old: (String, V) = entries.remove(i);
            entries.insert(i, (key, value));
            proof {
                replaced(before, entries@, i as int);
            }
        } else {
            entries.insert(i, (key, value));
            proof {
                inserted(before, entries@, i as int);
            }
        }
        self.entries = entries;
    }
}

proof fn removed<V: View>(before: Seq<(String, V)>, i: int)
    requires
        in_order(keys_of(before)),
        0 <= i < before.len(),
    ensures
        in_order(keys_of(before.remove(i))),
        map_of(before.remove(i)) == map_of(before).remove(before[i].0@),
        map_of(before).contains_key(before[i].0@),
        map_of(before)[before[i].0@] == before[i].1@,
{
    let after = before.remove(i);
    let ka = keys_of(after);
    let kb = keys_of(before);
    let key = before[i].0@;
    in_order_distinct(kb);
    assert forall|x: int, y: int| 0 <= x < y < ka.len() implies text::lex_lt(#[trigger] ka[x], #[trigger] ka[y]) by {
        let x1 = if x < i { x } else { x + 1 };
        let y1 = if y < i { y } else { y + 1 };
        assert(ka[x] == kb[x1]);
        assert(ka[y] == kb[y1]);
    }
    map_of_at(before, i);
    assert forall|k: Seq<char>| map_of(after).contains_key(k) <==> map_of(before).remove(key).contains_key(k) by {
        if ka.contains(k) {
            let x = choose|x: int| 0 <= x < ka.len() && ka[x] == k;
            let x1 = if x < i { x } else { x + 1 };
            assert(kb[x1] == k);
            assert(kb[x1] != kb[i]);
        }
        if kb.contains(k) && k != key {
            let y = choose|y: int| 0 <= y < kb.len() && kb[y] == k;
            assert(y != i);
            let y1 = if y < i { y } else { y - 1 };
            assert(ka[y1] == k);
        }
    }
    assert forall|k: Seq<char>| map_of(after).contains_key(k) implies map_of(after)[k] == map_of(before).remove(
        key,
    )[k] by {
        let x = choose|x: int| 0 <= x < ka.len() && ka[x] == k;
        let x1 = if x < i { x } else { x + 1 };
        map_of_at(after, x);
        map_of_at(before, x1);
        assert(after[x] == before[x1]);
    }
    assert(map_of(after) =~= map_of(before).remove(key));
}

proof fn replaced<V: View>(before: Seq<(String, V)>, after: Seq<(String, V)>, i: int)
    requires
        in_order(keys_of(before)),
        0 <= i < before.len(),
        after == before.remove(i).insert(i, after[i]),
        after[i].0@ == before[i].0@,
    ensures
        in_order(keys_of(after)),
        map_of(after) == map_of(before).insert(after[i].0@, after[i].1@),
{
    assert(keys_of(after) =~= keys_of(before)) by {
        assert forall|x: int| 0 <= x < after.len() implies keys_of(after)[x] == keys_of(before)[x] by {
            if x != i {
                assert(after[x] == before[x]);
            }
        }
    }
    let key = after[i].0@;
    map_of_at(after, i);
    assert forall|k: Seq<char>| map_of(after).contains_key(k) implies map_of(after)[k] == map_of(before).insert(
        key,
        after[i].1@,
    )[k] by {
        let ka = keys_of(after);
        let x = choose|x: int| 0 <= x < ka.len() && ka[x] == k;
        map_of_at(after, x);
        map_of_at(before, x);
        if x != i {
            in_order_distinct(ka);
            assert(ka[x] != ka[i]);
            assert(after[x] == before[x]);
        }
    }
    assert(map_of(after) =~= map_of(before).insert(key, after[i].1@));
}

proof fn inserted<V: View>(before: Seq<(String, V)>, after: Seq<(String, V)>, i: int)
    requires
        in_order(keys_of(before)),
        0 <= i <= before.len(),
        after == before.insert(i, after[i]),
        forall|j: int| 0 <= j < i ==> text::lex_lt(#[trigger] keys_of(before)[j], after[i].0@),
        i < before.len() ==> !text::lex_lt(keys_of(before)[i], after[i].0@),
        !keys_of(before).contains(after[i].0@),
    ensures
        in_order(keys_of(after)),
        map_of(after) == map_of(before).insert(after[i].0@, after[i].1@),
{
    let ka = keys_of(after);
    let kb = keys_of(before);
    let key = after[i].0@;
    assert forall|j: int| i <= j < kb.len() implies text::lex_lt(key, #[trigger] kb[j]) by {
        assert(kb.contains(kb[i]));
        text::lex_total(key, kb[i]);
        if j > i {
            assert(text::lex_lt(kb[i], kb[j]));
            text::lex_transitive(key, kb[i], kb[j]);
        }
    }
    assert forall|x: int| 0 <= x < ka.len() && x != i implies #[trigger] ka[x] == kb[if x < i { x } else { x - 1 }] by {
        assert(after[x] == before[if x < i { x } else { x - 1 }]);
    }
    assert forall|x: int, y: int| 0 <= x < y < ka.len() implies text::lex_lt(#[trigger] ka[x], #[trigger] ka[y]) by {
        if x == i {
            assert(ka[y] == kb[y - 1]);
        } else if y == i {
            assert(ka[x] == kb[x]);
        } else {
            let x1 = if x < i { x } else { x - 1 };
            let y1 = if y < i { y } else { y - 1 };
            assert(ka[x] == kb[x1]);
            assert(ka[y] == kb[y1]);
        }
    }
    map_of_at(after, i);
    let target = map_of(before).insert(key, after[i].1@);
    assert forall|k: Seq<char>| map_of(after).contains_key(k) <==> target.contains_key(k) by {
        if ka.contains(k) {
            let x = choose|x: int| 0 <= x < ka.len() && ka[x] == k;
            if x != i {
                assert(kb.contains(kb[if x < i { x } else { x - 1 }]));
            }
        }
        if kb.contains(k) {
            let y = choose|y: int| 0 <= y < kb.len() && kb[y] == k;
            let y1 = if y < i { y } else { y + 1 };
            assert(ka[y1] == k);
        }
        if k == key {
            assert(ka[i] == k);
        }
    }
    assert forall|k: Seq<char>| map_of(after).contains_key(k) implies map_of(after)[k] == target[k] by {
        let x = choose|x: int| 0 <= x < ka.len() && ka[x] == k;
        map_of_at(after, x);
        if x != i {
            let x1 = if x < i { x } else { x - 1 };
            map_of_at(before, x1);
            assert(after[x] == before[x1]);
            in_order_distinct(ka);
            assert(ka[x] != ka[i]);
        }
    }
    assert(map_of(after) =~= target);
}

} // verus!
