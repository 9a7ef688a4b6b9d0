//! Sorting things by their id, and keeping the order of those that share one.

use vstd::prelude::*;
use crate::text;
use crate::text::less;

verus! {

/// Something with an id.
pub trait Identified {
    spec fn key(&self) -> Seq<char>;

    fn id_text(&self) -> (r: &str)
        ensures
            r@ == self.key(),
    ;
}

/// Ids that never go down.
pub open spec fn by_id<T: Identified>(items: Seq<T>) -> bool {
    forall|i: int, j: int|
        0 <= i < j < items.len() ==> !text::lex_lt(
            (#[trigger] items[j]).key(),
            (#[trigger] items[i]).key(),
        )
}

pub open spec fn has_id<T: Identified>(id: Seq<char>) -> spec_fn(T) -> bool {
    |x: T| x.key() == id
}

/// The items with an id, in their order.
pub open spec fn with_id<T: Identified>(items: Seq<T>, id: Seq<char>) -> Seq<T> {
    items.filter(has_id(id))
}

/// The same items, ordered by id. Those that share an id stay in the order in
/// which they were.
pub open spec fn is_sorted_copy<T: Identified>(sorted: Seq<T>, items: Seq<T>) -> bool {
    &&& by_id(sorted)
    &&& forall|id: Seq<char>| #[trigger] with_id(sorted, id) == with_id(items, id)
}

pub proof fn none_with_id<T: Identified>(items: Seq<T>, id: Seq<char>)
    requires
        forall|i: int| 0 <= i < items.len() ==> (#[trigger] items[i]).key() != id,
    ensures
        with_id(items, id) == Seq::<T>::empty(),
    decreases items.len(),
{
    reveal(Seq::filter);
    if items.len() > 0 {
        let shorter = items.drop_last();
        assert forall|i: int| 0 <= i < shorter.len() implies (#[trigger] shorter[i]).key() != id by {
            assert(shorter[i] == items[i]);
        }
        none_with_id(shorter, id);
        assert(items.last() == items[items.len() - 1]);
    }
    assert(with_id(items, id) =~= Seq::<T>::empty());
}

proof fn one_more<T: Identified>(items: Seq<T>, x: T, id: Seq<char>)
    ensures
        with_id(items.push(x), id) == (if x.key() == id {
            with_id(items, id).push(x)
        } else {
            with_id(items, id)
        }),
{
    reveal(Seq::filter);
    assert(items.push(x).drop_last() =~= items);
}

/// Putting an item behind all that do not come after it.
proof fn placed<T: Identified>(sorted: Seq<T>, items: Seq<T>, x: T, at: int)
    requires
        is_sorted_copy(sorted, items),
        0 <= at <= sorted.len(),
        forall|i: int| 0 <= i < at ==> !text::lex_lt(x.key(), (#[trigger] sorted[i]).key()),
        forall|i: int| at <= i < sorted.len() ==> text::lex_lt(x.key(), (#[trigger] sorted[i]).key()),
    ensures
        is_sorted_copy(sorted.insert(at, x), items.push(x)),
{
    let out = sorted.insert(at, x);
    let front = sorted.take(at);
    let back = sorted.skip(at);
    assert(sorted =~= front + back);
    assert(out =~= front.push(x) + back);
    assert forall|i: int, j: int| 0 <= i < j < out.len() implies !text::lex_lt(
        (#[trigger] out[j]).key(),
        (#[trigger] out[i]).key(),
    ) by {
        if j == at {
            assert(out[i] == sorted[i]);
        } else if i == at {
            assert(out[j] == sorted[j - 1]);
            if text::lex_lt(out[j].key(), x.key()) {
                text::lex_transitive(x.key(), out[j].key(), x.key());
                text::lex_irreflexive(x.key());
            }
        } else {
            let i1 = if i < at { i } else { i - 1 };
            let j1 = if j < at { j } else { j - 1 };
            assert(out[i] == sorted[i1]);
            assert(out[j] == sorted[j1]);
        }
    }
    assert forall|id: Seq<char>| #[trigger] with_id(out, id) == with_id(items.push(x), id) by {
        let f = has_id::<T>(id);
        Seq::filter_distributes_over_add(front, back, f);
        Seq::filter_distributes_over_add(front.push(x), back, f);
        one_more(front, x, id);
        one_more(items, x, id);
        assert(with_id(sorted, id) == with_id(items, id));
        if x.key() == id {
            assert forall|i: int| 0 <= i < back.len() implies (#[trigger] back[i]).key() != id by {
                assert(back[i] == sorted[at + i]);
                text::lex_irreflexive(id);
            }
            none_with_id(back, id);
            assert(with_id(front, id) + with_id(back, id) =~= with_id(front, id));
            assert(with_id(front.push(x), id) + with_id(back, id) =~= with_id(front, id).push(x));
        }
    }
}

/// Sorts by id, and keeps the order of items that share one.
pub fn sort_by_id<T: Identified>(items: Vec<T>) -> (r: Vec<T>)
    ensures
        is_sorted_copy(r@, items@),
{
    let ghost all = items@;
    let mut rest: Vec<T> = items;
    let mut out: Vec<T> = Vec::new();
    let n: usize = rest.len();
    let mut i: usize = 0;
    proof {
        assert(all.take(0) =~= Seq::<T>::empty());
        assert(all.skip(0) =~= all);
    }
    while i < n
        invariant
            i <= n,
            n == all.len(),
            rest@ == all.skip(i as int),
            is_sorted_copy(out@, all.take(i as int)),
        decreases n - i,
    {
        let x: T = rest.remove(0);
        let mut at: usize = 0;
        while at < out.len() && !less(x.id_text(), out[at].id_text())
            invariant
                at <= out.len(),
                forall|j: int| 0 <= j < at ==> !text::lex_lt(x.key(), (#[trigger] out@[j]).key()),
            decreases out.len() - at,
        {
            at = at + 1;
        }
        proof {
            assert(x == all[i as int]);
            assert(all.take(i + 1) =~= all.take(i as int).push(x));
            assert(all.skip(i as int).remove(0) =~= all.skip(i + 1));
            assert forall|j: int| at <= j < out@.len() implies text::lex_lt(
                x.key(),
                (#[trigger] out@[j]).key(),
            ) by {
                if j > at {
                    let first = out@[at as int].key();
                    let later = out@[j].key();
                    assert(!text::lex_lt(later, first));
                    if first != later {
                        text::lex_total(first, later);
                        text::lex_transitive(x.key(), first, later);
                    }
                }
            }
            placed(out@, all.take(i as int), x, at as int);
        }
        out.insert(at, x);
        i = i + 1;
    }
    proof {
        assert(all.take(n as int) =~= all);
    }
    out
}

/// The position of the first item with an id, where there is one.
pub open spec fn first_with_id<T: Identified>(items: Seq<T>, id: Seq<char>) -> Option<int>
    decreases items.len(),
{
    if items.len() == 0 {
        None
    } else {
        match first_with_id(items.drop_last(), id) {
            Some(i) => Some(i),
            None => if items.last().key() == id {
                Some(items.len() - 1)
            } else {
                None
            },
        }
    }
}

pub proof fn first_is_first<T: Identified>(items: Seq<T>, id: Seq<char>)
    ensures
        first_with_id(items, id) matches Some(i) ==> 0 <= i < items.len() && items[i].key() == id
            && forall|j: int| 0 <= j < i ==> (#[trigger] items[j]).key() != id,
        first_with_id(items, id) is None ==> forall|j: int|
            0 <= j < items.len() ==> (#[trigger] items[j]).key() != id,
    decreases items.len(),
{
    if items.len() > 0 {
        let shorter = items.drop_last();
        first_is_first(shorter, id);
        assert forall|j: int| 0 <= j < shorter.len() implies #[trigger] items[j] == shorter[j] by {}
    }
}

/// Finds the first item with an id.
pub fn find_by_id<T: Identified>(items: &Vec<T>, id: &str) -> (r: Option<usize>)
    ensures
        r is Some <==> first_with_id(items@, id@) is Some,
        r is Some ==> r->0 < items@.len() && r->0 == first_with_id(items@, id@)->0
            && items@[r->0 as int].key() == id@,
{
    let mut i: usize = 0;
    while i < items.len()
        invariant
            i <= items.len(),
            forall|j: int| 0 <= j < i ==> (#[trigger] items@[j]).key() != id@,
        decreases items.len() - i,
    {
        if text::same(items[i].id_text(), id) {
            proof {
                first_is_first(items@, id@);
                assert(items@[i as int].key() == id@);
            }
            return Some(i);
        }
        i = i + 1;
    }
    proof {
        first_is_first(items@, id@);
    }
    None
}

} // verus!
