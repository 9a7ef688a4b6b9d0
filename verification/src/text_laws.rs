//! What holds of text: its order, its case, its white space and its numbers.

use vstd::arithmetic::power::{lemma_pow0, lemma_pow_adds, pow};
use vstd::prelude::*;
use crate::text::{
    all_digits, decimal, decimal_reads_back, is_digit, is_white, lex_irreflexive, lex_lt, lower,
    lower_all, number, parsed, trim_left, trim_right, trimmed, unsigned, upper,
};

verus! {

// ---- order -----------------------------------------------------------------

/// Whether two texts agree up to a position, at which the first has ended and the
/// second has not, or holds the smaller character.
pub open spec fn parts_at(a: Seq<char>, b: Seq<char>, p: int) -> bool {
    &&& 0 <= p <= a.len()
    &&& p < b.len()
    &&& a.subrange(0, p) == b.subrange(0, p)
    &&& p == a.len() || (a[p] as u32) < (b[p] as u32)
}

/// One text precedes another exactly where they part at some position with the
/// first ended or smaller there.
pub proof fn precedence_is_decided_where_texts_part(a: Seq<char>, b: Seq<char>)
    ensures
        lex_lt(a, b) <==> exists|p: int| parts_at(a, b, p),
    decreases a.len(),
{
    if b.len() == 0 {
    } else if a.len() == 0 {
        assert(a.subrange(0, 0) =~= b.subrange(0, 0));
        assert(parts_at(a, b, 0));
    } else if a[0] == b[0] {
        let x = a.drop_first();
        let y = b.drop_first();
        precedence_is_decided_where_texts_part(x, y);
        if lex_lt(x, y) {
            let p = choose|p: int| parts_at(x, y, p);
            assert forall|k: int| 0 <= k < p + 1 implies a[k] == b[k] by {
                if k > 0 {
                    assert(x.subrange(0, p)[k - 1] == y.subrange(0, p)[k - 1]);
                }
            }
            assert(a.subrange(0, p + 1) =~= b.subrange(0, p + 1));
            assert(parts_at(a, b, p + 1));
        }
        if exists|p: int| parts_at(a, b, p) {
            let p = choose|p: int| parts_at(a, b, p);
            assert(p > 0);
            assert forall|k: int| 0 <= k < p - 1 implies x[k] == y[k] by {
                assert(a.subrange(0, p)[k + 1] == b.subrange(0, p)[k + 1]);
            }
            assert(x.subrange(0, p - 1) =~= y.subrange(0, p - 1));
            assert(parts_at(x, y, p - 1));
        }
    } else {
        assert(a.subrange(0, 0) =~= b.subrange(0, 0));
        if lex_lt(a, b) {
            assert(parts_at(a, b, 0));
        }
        if exists|p: int| parts_at(a, b, p) {
            let p = choose|p: int| parts_at(a, b, p);
            if p > 0 {
                assert(a.subrange(0, p)[0] == b.subrange(0, p)[0]);
            }
        }
    }
}

/// A text precedes everything that goes on from it.
pub proof fn a_beginning_precedes_the_whole(a: Seq<char>, more: Seq<char>)
    requires
        more.len() > 0,
    ensures
        lex_lt(a, a + more),
        !lex_lt(a + more, a),
{
    let whole = a + more;
    assert(a.subrange(0, a.len() as int) =~= whole.subrange(0, a.len() as int));
    assert(parts_at(a, whole, a.len() as int));
    precedence_is_decided_where_texts_part(a, whole);
    if lex_lt(whole, a) {
        crate::text::lex_transitive(a, whole, a);
        lex_irreflexive(a);
    }
}

// ---- case ------------------------------------------------------------------

/// The 26 letters of ASCII change case by 32, and nothing else has a case.
pub proof fn case_is_that_of_ascii(c: char)
    ensures
        97 <= c as u32 <= 122 ==> upper(c) as u32 + 32 == c as u32,
        !(97 <= c as u32 <= 122) ==> upper(c) == c,
        65 <= c as u32 <= 90 ==> lower(c) as u32 == c as u32 + 32,
        !(65 <= c as u32 <= 90) ==> lower(c) == c,
        lower(upper(c)) == lower(c),
        upper(lower(c)) == upper(c),
{
}

/// Lower case is taken character by character, and taking it twice changes nothing.
pub proof fn lower_case_is_taken_once(s: Seq<char>)
    ensures
        lower_all(s).len() == s.len(),
        lower_all(lower_all(s)) == lower_all(s),
        forall|i: int| 0 <= i < s.len() ==> lower_all(s)[i] == lower(#[trigger] s[i]),
{
    assert(lower_all(lower_all(s)) =~= lower_all(s));
}

// ---- white space -----------------------------------------------------------

/// The white space of ASCII is the tab, the line and page breaks and the space;
/// the rest of it lies beyond ASCII.
pub proof fn white_space_of_ascii(c: char)
    requires
        (c as u32) < 128,
    ensures
        is_white(c) <==> c == '\t' || c == '\n' || c == '\x0b' || c == '\x0c' || c == '\r' || c
            == ' ',
{
}

/// The white space beyond ASCII.
pub proof fn white_space_beyond_ascii(c: char)
    requires
        c as u32 >= 128,
    ensures
        is_white(c) <==> c == '\u{85}' || c == '\u{a0}' || c == '\u{1680}' || ('\u{2000}' as u32
            <= c as u32 && c as u32 <= '\u{200a}' as u32) || c == '\u{2028}' || c == '\u{2029}' || c
            == '\u{202f}' || c == '\u{205f}' || c == '\u{3000}',
{
}

proof fn cut_left(s: Seq<char>) -> (i: int)
    ensures
        0 <= i <= s.len(),
        trim_left(s) == s.subrange(i, s.len() as int),
        forall|k: int| 0 <= k < i ==> is_white(#[trigger] s[k]),
        i < s.len() ==> !is_white(s[i]),
    decreases s.len(),
{
    if s.len() > 0 && is_white(s[0]) {
        let rest = s.drop_first();
        let i = cut_left(rest);
        assert(trim_left(s) =~= s.subrange(i + 1, s.len() as int));
        assert forall|k: int| 0 <= k < i + 1 implies is_white(#[trigger] s[k]) by {
            if k > 0 {
                assert(rest[k - 1] == s[k]);
            }
        }
        i + 1
    } else {
        assert(s.subrange(0, s.len() as int) =~= s);
        0
    }
}

proof fn cut_right(s: Seq<char>) -> (j: int)
    ensures
        0 <= j <= s.len(),
        trim_right(s) == s.subrange(0, j),
        forall|k: int| j <= k < s.len() ==> is_white(#[trigger] s[k]),
        j > 0 ==> !is_white(s[j - 1]),
    decreases s.len(),
{
    if s.len() > 0 && is_white(s.last()) {
        let rest = s.drop_last();
        let j = cut_right(rest);
        assert(trim_right(s) =~= s.subrange(0, j));
        assert forall|k: int| j <= k < s.len() implies is_white(#[trigger] s[k]) by {
            if k < rest.len() {
                assert(rest[k] == s[k]);
            }
        }
        j
    } else {
        assert(s.subrange(0, s.len() as int) =~= s);
        s.len() as int
    }
}

/// Trimming takes all white space from both ends, and nothing else: whatever
/// white space surrounds a text that has none at its ends, that text is left.
pub proof fn trimming_takes_the_white_space_around(
    before: Seq<char>,
    core: Seq<char>,
    after: Seq<char>,
)
    requires
        forall|k: int| 0 <= k < before.len() ==> is_white(#[trigger] before[k]),
        forall|k: int| 0 <= k < after.len() ==> is_white(#[trigger] after[k]),
        core.len() > 0 ==> !is_white(core[0]) && !is_white(core.last()),
    ensures
        trimmed(before + core + after) == core,
{
    let s = before + core + after;
    let n = before.len() as int;
    let m = core.len() as int;
    let i = cut_left(s);
    if core.len() == 0 {
        if i < s.len() {
            if i < n {
                assert(s[i] == before[i]);
            } else {
                assert(s[i] == after[i - n]);
            }
        }
        assert(trim_left(s) =~= core);
        assert(trim_right(core) =~= core);
    } else {
        assert(s[n] == core[0]);
        if i < n {
            assert(s[i] == before[i]);
        }
        assert(i == n);
        let t = trim_left(s);
        assert(t =~= core + after);
        let j = cut_right(t);
        assert(t[m - 1] == core.last());
        if j > m {
            assert(t[j - 1] == after[j - 1 - m]);
        }
        assert(j == m);
        assert(t.subrange(0, m) =~= core);
    }
}

// ---- numbers ---------------------------------------------------------------

/// A number is written in places of ten: what stands further left counts for ten
/// times as much with each digit behind it.
pub proof fn digits_count_by_their_place(s: Seq<char>, t: Seq<char>)
    requires
        all_digits(t),
    ensures
        number(s + t) == number(s) * pow(10, t.len()) + number(t),
        number(Seq::empty()) == 0,
        t.len() == 1 ==> number(t) == t[0] as u32 - '0' as u32,
    decreases t.len(),
{
    lemma_pow0(10);
    if t.len() == 0 {
        assert(s + t =~= s);
    } else {
        let rest = t.drop_last();
        assert forall|i: int| 0 <= i < rest.len() implies is_digit(#[trigger] rest[i]) by {
            assert(rest[i] == t[i]);
        }
        digits_count_by_their_place(s, rest);
        assert((s + t).drop_last() =~= s + rest);
        let d = (t.last() as u32 - 48) as int;
        let p = pow(10, rest.len());
        let q = pow(10, t.len());
        vstd::arithmetic::power::lemma_pow1(10);
        lemma_pow_adds(10, rest.len(), 1);
        assert(q == p * 10);
        let n = number(s) as int;
        let r = number(rest) as int;
        assert((n * p + r) * 10 + d == n * (p * 10) + (r * 10 + d)) by (nonlinear_arith);
        if t.len() == 1 {
            assert(rest =~= Seq::<char>::empty());
        }
    }
}

/// A text is read as a number exactly if it is digits, after a plus sign or none,
/// that come to no more than the most there may be.
pub proof fn a_number_is_read_within_its_bound(s: Seq<char>, max: nat)
    requires
        s.len() > 0,
        all_digits(s),
    ensures
        number(s) <= max ==> parsed(s, max) == Some(number(s)) && parsed(seq!['+'] + s, max)
            == Some(number(s)),
        number(s) > max ==> parsed(s, max) is None && parsed(seq!['+'] + s, max) is None,
        parsed(seq!['-'] + s, max) is None,
        parsed(seq!['+'] + (seq!['+'] + s), max) is None,
{
    assert(is_digit(s[0]));
    let plus = seq!['+'] + s;
    assert(plus.skip(1) =~= s);
    let minus = seq!['-'] + s;
    assert(!is_digit(minus[0]));
    let twice = seq!['+'] + plus;
    assert(twice.skip(1) =~= plus);
    assert(!is_digit(plus[0]));
}

/// Nothing that is empty, or holds anything but digits behind its sign, is a number.
pub proof fn only_digits_are_a_number(s: Seq<char>, max: nat, i: int)
    ensures
        parsed(Seq::empty(), max) is None,
        parsed(seq!['+'], max) is None,
        0 < i < s.len() && !is_digit(s[i]) ==> parsed(s, max) is None,
{
    assert(seq!['+'].skip(1) =~= Seq::<char>::empty());
    if 0 < i < s.len() && !is_digit(s[i]) {
        if s[0] == '+' {
            assert(unsigned(s)[i - 1] == s[i]);
        }
    }
}

/// The decimal form of a number is digits, does not start with a zero unless the
/// number is zero, and grows by one digit with each power of ten.
pub proof fn a_decimal_form_has_no_leading_zero(n: nat)
    ensures
        all_digits(decimal(n)),
        number(decimal(n)) == n,
        decimal(n)[0] == '0' <==> n == 0,
        n < 10 <==> decimal(n).len() == 1,
        decimal(n * 10) == if n == 0 {
            decimal(0)
        } else {
            decimal(n) + seq!['0']
        },
    decreases n,
{
    decimal_reads_back(n);
    if n >= 10 {
        a_decimal_form_has_no_leading_zero(n / 10);
        decimal_reads_back(n / 10);
        assert(decimal(n)[0] == decimal(n / 10)[0]);
    }
    if n > 0 {
        assert((n * 10) / 10 == n && (n * 10) % 10 == 0);
        assert(decimal(n * 10) =~= decimal(n) + seq!['0']);
    }
}

} // verus!
