//! What holds of instants and durations: a step through the calendar is a distance
//! in nanoseconds, order is order along that line, and units are counted out.

use vstd::prelude::*;
use crate::text;
use crate::time::{
    below_seconds, earlier_by, later_by, lone, modest, on_calendar, reach, starts_word, tally,
    unit_nanos, whole_seconds, Instant, CALENDAR_END, CALENDAR_START,
};

verus! {

/// Where an instant stands, in nanoseconds since the epoch.
pub open spec fn position(i: Instant) -> int {
    i.secs * 1_000_000_000 + i.nanos
}

/// An instant of the calendar outside a leap second.
pub open spec fn ordinary(i: Instant) -> bool {
    on_calendar(i.secs as int) && i.nanos < 1_000_000_000
}

/// Two ordinary instants at one position are one instant.
pub proof fn a_position_is_one_instant(i: Instant, j: Instant)
    requires
        ordinary(i),
        ordinary(j),
        position(i) == position(j),
    ensures
        i == j,
{
}

/// A step forward ends that many nanoseconds further on, and fails only beyond the
/// last second of the calendar.
pub proof fn a_step_forward_is_a_distance(i: Instant, d: nat)
    requires
        ordinary(i),
    ensures
        later_by(i, d) is Some <==> position(i) + d < (CALENDAR_END + 1) * 1_000_000_000,
        later_by(i, d) is Some ==> ordinary(later_by(i, d)->0) && later_by(i, d)->0.valid()
            && position(later_by(i, d)->0) == position(i) + d,
{
    let n = i.nanos + d;
    assert(n == (n / 1_000_000_000) * 1_000_000_000 + n % 1_000_000_000);
}

/// A step back ends that many nanoseconds earlier, and fails only before the first
/// second of the calendar.
pub proof fn a_step_back_is_a_distance(i: Instant, d: nat)
    requires
        ordinary(i),
    ensures
        earlier_by(i, d) is Some <==> position(i) - d >= CALENDAR_START * 1_000_000_000,
        earlier_by(i, d) is Some ==> ordinary(earlier_by(i, d)->0) && earlier_by(i, d)->0.valid()
            && position(earlier_by(i, d)->0) == position(i) - d,
{
    let n = i.nanos - d;
    assert(n == (n / 1_000_000_000) * 1_000_000_000 + n % 1_000_000_000);
}

/// A step back undoes the same step forward, and a step forward the same step back.
pub proof fn a_step_undoes_a_step(i: Instant, d: nat)
    requires
        ordinary(i),
    ensures
        later_by(i, d) is Some ==> earlier_by(later_by(i, d)->0, d) == Some(i),
        earlier_by(i, d) is Some ==> later_by(earlier_by(i, d)->0, d) == Some(i),
{
    a_step_forward_is_a_distance(i, d);
    a_step_back_is_a_distance(i, d);
    if later_by(i, d) is Some {
        let j = later_by(i, d)->0;
        a_step_back_is_a_distance(j, d);
        a_position_is_one_instant(earlier_by(j, d)->0, i);
    }
    if earlier_by(i, d) is Some {
        let j = earlier_by(i, d)->0;
        a_step_forward_is_a_distance(j, d);
        a_position_is_one_instant(later_by(j, d)->0, i);
    }
}

/// Within a leap second a short step counts through it; a step out of it, forward,
/// goes from the second before, and a step back of a second or more from the second
/// after.
pub proof fn a_step_from_a_leap_second(i: Instant, d: nat)
    requires
        i.valid(),
        i.nanos >= 1_000_000_000,
        on_calendar(i.secs + 1),
    ensures
        i.nanos + d < 2_000_000_000 ==> later_by(i, d) == Some(
            Instant { secs: i.secs, nanos: (i.nanos + d) as u32 },
        ),
        i.nanos + d >= 2_000_000_000 && later_by(i, d) is Some ==> position(later_by(i, d)->0)
            == position(i) - 1_000_000_000 + d,
        d < 1_000_000_000 ==> earlier_by(i, d) == Some(
            Instant { secs: i.secs, nanos: (i.nanos - d) as u32 },
        ),
        d >= 1_000_000_000 && earlier_by(i, d) is Some ==> position(earlier_by(i, d)->0)
            == position(i) - d,
{
    let n = i.nanos - 1_000_000_000 + d;
    assert(n == (n / 1_000_000_000) * 1_000_000_000 + n % 1_000_000_000);
    let k = i.nanos - 1_000_000_000 - d;
    assert(k == (k / 1_000_000_000) * 1_000_000_000 + k % 1_000_000_000);
}

/// Ordinary instants are ordered by their positions; at the millisecond, by the
/// milliseconds of their positions.
pub proof fn order_is_order_of_positions(i: Instant, j: Instant)
    requires
        ordinary(i),
        ordinary(j),
    ensures
        i.before(j) <==> position(i) < position(j),
        i.millis_before(j) <==> position(i) / 1_000_000 < position(j) / 1_000_000,
        i.millis_before(j) ==> i.before(j),
{
    let a = i.nanos as int / 1_000_000;
    let b = j.nanos as int / 1_000_000;
    assert(position(i) / 1_000_000 == i.secs * 1_000 + a);
    assert(position(j) / 1_000_000 == j.secs * 1_000 + b);
    assert(a < 1_000 && b < 1_000);
}

/// Units of time are multiples of each other: a minute is 60 seconds, an hour 60
/// minutes, a day 24 hours, a week 7 days, a year 365 days and a quarter, and a
/// month 30.44 days.
pub proof fn units_of_time_are_multiples()
    ensures
        unit_nanos('n', Some('s')) == 1,
        unit_nanos('u', Some('s')) == 1_000 * unit_nanos('n', Some('s')),
        unit_nanos('m', Some('s')) == 1_000 * unit_nanos('u', Some('s')),
        unit_nanos('s', None) == 1_000 * unit_nanos('m', Some('s')),
        unit_nanos('m', None) == 60 * unit_nanos('s', None),
        unit_nanos('m', Some('i')) == 60 * unit_nanos('s', None),
        unit_nanos('h', None) == 60 * unit_nanos('m', None),
        unit_nanos('d', None) == 24 * unit_nanos('h', None),
        unit_nanos('w', None) == 7 * unit_nanos('d', None),
        100 * unit_nanos('M', None) == 3_044 * unit_nanos('d', None),
        unit_nanos('m', Some('o')) == unit_nanos('M', None),
        4 * unit_nanos('y', None) == 1_461 * unit_nanos('d', None),
{
}

// ---- durations in words ----------------------------------------------------

proof fn digits_tally(d: Seq<char>, rest: Seq<char>, n: nat)
    requires
        text::all_digits(d),
        n <= d.len(),
    ensures
        tally(d + rest, n) == (0nat, text::number(d.take(n as int)), false),
    decreases n,
{
    let s = d + rest;
    if n > 0 {
        digits_tally(d, rest, (n - 1) as nat);
        let now = d.take(n as int);
        assert(now.drop_last() =~= d.take(n - 1));
        assert(now.last() == d[n - 1] && s[n - 1] == d[n - 1]);
        assert(text::is_digit(d[n - 1]));
    } else {
        assert(d.take(0) =~= Seq::<char>::empty());
    }
}

/// A number and the first letter of its unit come to the number of the unit, and a
/// number without a unit to itself.
pub proof fn a_number_of_a_unit_reaches_that_far(d: Seq<char>, c: char)
    requires
        text::all_digits(d),
        !text::is_digit(c),
        !text::is_white(c),
        c != '.',
    ensures
        reach(d) == text::number(d),
        reach(d.push(c)) == text::number(d) * unit_nanos(c, None),
{
    let none = Seq::<char>::empty();
    digits_tally(d, none, d.len());
    assert(d + none =~= d);
    assert(d.take(d.len() as int) =~= d);
    let s = d.push(c);
    digits_tally(d, seq![c], d.len());
    assert(d + seq![c] =~= s);
    assert(tally(s, s.len()) == (text::number(d) * unit_nanos(c, None), 0nat, false));
}

/// One number and its unit can always be read; a second number behind a unit makes
/// the text more than one.
pub proof fn one_number_stands_alone(d: Seq<char>, unit: Seq<char>, more: Seq<char>, i: int)
    requires
        text::all_digits(d),
        unit.len() > 0,
        forall|k: int|
            0 <= k < unit.len() ==> !text::is_digit(#[trigger] unit[k]) && !text::is_white(unit[k]),
    ensures
        lone(d + unit),
        modest(d + unit),
        0 <= i < more.len() && text::is_digit(more[i]) ==> !lone(d + unit + more),
{
    let s = d + unit;
    assert forall|a: int, b: int|
        0 <= a < b < s.len() && !text::is_digit(#[trigger] s[a]) && !text::is_white(
            s[a],
        ) implies !text::is_digit(#[trigger] s[b]) by {
        if a < d.len() {
            assert(text::is_digit(d[a]));
        }
        assert(s[b] == unit[b - d.len()]);
    }
    if 0 <= i < more.len() && text::is_digit(more[i]) {
        let t = d + unit + more;
        let a = d.len() as int;
        let b = d.len() + unit.len() + i;
        assert(t[a] == unit[0]);
        assert(t[b] == more[i]);
        assert(!text::is_digit(unit[0]) && !text::is_white(unit[0]));
    }
}

/// A word that starts with the name of less than a second is not whole seconds.
pub proof fn less_than_a_second_is_not_whole(before: Seq<char>, c: char, after: Seq<char>)
    requires
        before.len() > 0,
        text::is_digit(before.last()),
        c == 'n' || c == 'u' || c == '.',
    ensures
        !whole_seconds(before + seq![c] + after),
{
    let s = before + seq![c] + after;
    let i = before.len() as int;
    assert(s[i] == c && s[i - 1] == before.last());
    assert(starts_word(s, i) && below_seconds(s, i));
}

/// An instant is valid within the calendar, up to the end of its second; past it
/// only in the leap second behind the last second of a minute.
pub proof fn an_instant_lies_in_its_second(i: Instant)
    ensures
        i.nanos < 1_000_000_000 ==> (i.valid() <==> CALENDAR_START <= i.secs <= CALENDAR_END),
        i.nanos >= 2_000_000_000 ==> !i.valid(),
        1_000_000_000 <= i.nanos < 2_000_000_000 ==> (i.valid() <==> CALENDAR_START <= i.secs
            <= CALENDAR_END && (i.secs + 1) % 60 == 0),
{
}

/// The calendar starts and ends with a whole day.
pub proof fn the_calendar_is_whole_days()
    ensures
        CALENDAR_START as int % 86_400 == 0,
        (CALENDAR_END + 1) % 86_400 == 0,
{
}

} // verus!
