//! Text as a sequence of characters: the handful of string operations the rest
//! of the crate is stated over.

use vstd::prelude::*;
use vstd::string::*;

verus! {

/// `String::push` of std: appends the given character to the end of the string.
pub assume_specification[ String::push ](s: &mut String, c: char)
    ensures
        final(s)@ == old(s)@.push(c),
;

/// The characters of `s`, in order.
pub fn chars_of(s: &str) -> (r: Vec<char>)
    ensures
        r@ == s@,
{
    let mut out: Vec<char> = Vec::new();
    for c in it: s.chars()
        invariant
            out@ == it.seq().take(it.index()),
            it.seq() == s@,
    {
        out.push(c);
        proof {
            assert(it.seq().take(it.index() + 1) == it.seq().take(it.index()).push(c));
        }
    }
    proof {
        assert(s@.take(s@.len() as int) == s@);
    }
    out
}

/// The string whose characters are `cs`.
pub fn string_of(cs: &[char]) -> (r: String)
    ensures
        r@ == cs@,
{
    let mut out: String = String::new();
    let mut i: usize = 0;
    while i < cs.len()
        invariant
            i <= cs.len(),
            out@ == cs@.take(i as int),
        decreases cs.len() - i,
    {
        out.push(cs[i]);
        proof {
            assert(cs@.take(i + 1) == cs@.take(i as int).push(cs@[i as int]));
        }
        i = i + 1;
    }
    proof {
        assert(cs@.take(cs@.len() as int) == cs@);
    }
    out
}

/// Whether `a` and `b` hold the same characters.
pub fn same(a: &str, b: &str) -> (r: bool)
    ensures
        r == (a@ == b@),
{
    a.to_owned() == b.to_owned()
}

/// The characters of a text, where there is one.
pub open spec fn text_of(s: Option<String>) -> Option<Seq<char>> {
    match s {
        Some(s) => Some(s@),
        None => None,
    }
}

/// The views of a list of strings.
pub open spec fn views(s: Seq<String>) -> Seq<Seq<char>> {
    s.map_values(|x: String| x@)
}

// ---- order -----------------------------------------------------------------

/// Lexicographic order by code point, which is also the order of the UTF-8 bytes.
pub open spec fn lex_lt(a: Seq<char>, b: Seq<char>) -> bool
    decreases a.len(),
{
    if b.len() == 0 {
        false
    } else if a.len() == 0 {
        true
    } else if a[0] == b[0] {
        lex_lt(a.drop_first(), b.drop_first())
    } else {
        (a[0] as u32) < (b[0] as u32)
    }
}

/// No text precedes itself.
pub proof fn lex_irreflexive(a: Seq<char>)
    ensures
        !lex_lt(a, a),
    decreases a.len(),
{
    if a.len() > 0 {
        lex_irreflexive(a.drop_first());
    }
}

/// Precedence carries over.
pub proof fn lex_transitive(a: Seq<char>, b: Seq<char>, c: Seq<char>)
    requires
        lex_lt(a, b),
        lex_lt(b, c),
    ensures
        lex_lt(a, c),
    decreases a.len(),
{
    if a.len() > 0 && a[0] == b[0] && b[0] == c[0] {
        lex_transitive(a.drop_first(), b.drop_first(), c.drop_first());
    }
}

/// Of two different texts, one precedes the other.
pub proof fn lex_total(a: Seq<char>, b: Seq<char>)
    requires
        a != b,
    ensures
        lex_lt(a, b) || lex_lt(b, a),
    decreases a.len(),
{
    if a.len() > 0 && b.len() > 0 && a[0] == b[0] {
        if a.drop_first() == b.drop_first() {
            assert(a == seq![a[0]] + a.drop_first());
            assert(b == seq![b[0]] + b.drop_first());
            assert(false);
        }
        lex_total(a.drop_first(), b.drop_first());
    } else if a.len() == 0 && b.len() == 0 {
        assert(a == b);
    } else if a.len() > 0 && b.len() > 0 {
        vstd::utf8::char_u32_cast(a[0], a[0] as u32);
        vstd::utf8::char_u32_cast(b[0], b[0] as u32);
        assert(a[0] as u32 != b[0] as u32);
    }
}

/// Whether `a` precedes `b`.
pub fn less(a: &str, b: &str) -> (r: bool)
    ensures
        r == lex_lt(a@, b@),
{
    let x: Vec<char> = chars_of(a);
    let y: Vec<char> = chars_of(b);
    let mut i: usize = 0;
    proof {
        assert(x@.skip(0) == x@);
        assert(y@.skip(0) == y@);
    }
    loop
        invariant
            x@ == a@,
            y@ == b@,
            i <= x.len(),
            i <= y.len(),
            lex_lt(a@, b@) == lex_lt(x@.skip(i as int), y@.skip(i as int)),
        decreases x.len() - i,
    {
        if i == y.len() {
            return false;
        }
        if i == x.len() {
            return true;
        }
        proof {
            assert(x@.skip(i as int)[0] == x@[i as int]);
            assert(y@.skip(i as int)[0] == y@[i as int]);
        }
        if x[i] != y[i] {
            return (x[i] as u32) < (y[i] as u32);
        }
        proof {
            assert(x@.skip(i as int).drop_first() == x@.skip(i + 1));
            assert(y@.skip(i as int).drop_first() == y@.skip(i + 1));
        }
        i = i + 1;
    }
}

// ---- ASCII case ------------------------------------------------------------

/// The ASCII upper-case form of one character; any other character is itself.
pub open spec fn upper(c: char) -> char {
    if 97 <= c as u32 <= 122 {
        ((c as u32 - 32) as u32) as char
    } else {
        c
    }
}

/// The ASCII lower-case form of one character; any other character is itself.
pub open spec fn lower(c: char) -> char {
    if 65 <= c as u32 <= 90 {
        ((c as u32 + 32) as u32) as char
    } else {
        c
    }
}

pub open spec fn lower_all(s: Seq<char>) -> Seq<char> {
    s.map_values(|c: char| lower(c))
}

pub fn to_upper(c: char) -> (r: char)
    ensures
        r == upper(c),
{
    let n: u32 = c as u32;
    if 97 <= n && n <= 122 {
        let m: u8 = (n - 32) as u8;
        m as char
    } else {
        c
    }
}

pub fn to_lower(c: char) -> (r: char)
    ensures
        r == lower(c),
{
    let n: u32 = c as u32;
    if 65 <= n && n <= 90 {
        let m: u8 = (n + 32) as u8;
        m as char
    } else {
        c
    }
}

/// `s` in ASCII lower case.
pub fn lower_string(s: &str) -> (r: String)
    ensures
        r@ == lower_all(s@),
{
    let cs: Vec<char> = chars_of(s);
    let mut out: String = String::new();
    let mut i: usize = 0;
    while i < cs.len()
        invariant
            cs@ == s@,
            i <= cs.len(),
            out@ == lower_all(s@.take(i as int)),
        decreases cs.len() - i,
    {
        out.push(to_lower(cs[i]));
        proof {
            assert(s@.take(i + 1) == s@.take(i as int).push(s@[i as int]));
            assert(lower_all(s@.take(i + 1)) == lower_all(s@.take(i as int)).push(lower(s@[i as int])));
        }
        i = i + 1;
    }
    proof {
        assert(s@.take(s@.len() as int) == s@);
    }
    out
}

/// Equality up to ASCII case.
pub fn same_ignoring_case(a: &str, b: &str) -> (r: bool)
    ensures
        r == (lower_all(a@) == lower_all(b@)),
{
    lower_string(a) == lower_string(b)
}

// ---- white space -----------------------------------------------------------

/// The characters with the Unicode `White_Space` property.
pub open spec fn is_white(c: char) -> bool {
    let n = c as u32;
    ||| 0x9 <= n <= 0xd
    ||| n == 0x20
    ||| n == 0x85
    ||| n == 0xa0
    ||| n == 0x1680
    ||| 0x2000 <= n <= 0x200a
    ||| n == 0x2028
    ||| n == 0x2029
    ||| n == 0x202f
    ||| n == 0x205f
    ||| n == 0x3000
}

pub fn white(c: char) -> (r: bool)
    ensures
        r == is_white(c),
{
    let n: u32 = c as u32;
    (0x9 <= n && n <= 0xd) || n == 0x20 || n == 0x85 || n == 0xa0 || n == 0x1680
        || (0x2000 <= n && n <= 0x200a) || n == 0x2028 || n == 0x2029 || n == 0x202f
        || n == 0x205f || n == 0x3000
}

/// `s` without its leading white space.
pub open spec fn trim_left(s: Seq<char>) -> Seq<char>
    decreases s.len(),
{
    if s.len() > 0 && is_white(s[0]) {
        trim_left(s.drop_first())
    } else {
        s
    }
}

/// `s` without its trailing white space.
pub open spec fn trim_right(s: Seq<char>) -> Seq<char>
    decreases s.len(),
{
    if s.len() > 0 && is_white(s.last()) {
        trim_right(s.drop_last())
    } else {
        s
    }
}

/// `s` without surrounding white space.
pub open spec fn trimmed(s: Seq<char>) -> Seq<char> {
    trim_right(trim_left(s))
}

/// `s` without its trailing white space, on characters.
pub fn trim_end_chars(s: &[char]) -> (r: Vec<char>)
    ensures
        r@ == trim_right(s@),
{
    let mut end: usize = s.len();
    proof {
        assert(s@.take(s@.len() as int) == s@);
    }
    while end > 0 && white(s[end - 1])
        invariant
            end <= s.len(),
            trim_right(s@) == trim_right(s@.take(end as int)),
        decreases end,
    {
        proof {
            let t = s@.take(end as int);
            assert(t.last() == s@[end - 1]);
            assert(t.drop_last() == s@.take(end - 1));
        }
        end = end - 1;
    }
    proof {
        let t = s@.take(end as int);
        if end > 0 {
            assert(t.last() == s@[end - 1]);
        }
    }
    copy_range(s, 0, end)
}

/// `s` without surrounding white space.
pub fn trim(s: &str) -> (r: String)
    ensures
        r@ == trimmed(s@),
{
    let cs: Vec<char> = chars_of(s);
    let mut start: usize = 0;
    proof {
        assert(s@.skip(0) == s@);
    }
    while start < cs.len() && white(cs[start])
        invariant
            cs@ == s@,
            start <= cs.len(),
            trim_left(s@) == trim_left(s@.skip(start as int)),
        decreases cs.len() - start,
    {
        proof {
            let t = s@.skip(start as int);
            assert(t[0] == s@[start as int]);
            assert(t.drop_first() == s@.skip(start + 1));
        }
        start = start + 1;
    }
    proof {
        let t = s@.skip(start as int);
        if start < cs.len() {
            assert(t[0] == s@[start as int]);
        }
        assert(trim_left(s@) == t);
        assert(s@.subrange(start as int, s@.len() as int) == t);
    }
    let rest: Vec<char> = copy_range(cs.as_slice(), start, cs.len());
    let body: Vec<char> = trim_end_chars(rest.as_slice());
    string_of(body.as_slice())
}

/// The characters of `s` from `from` up to `to`.
pub fn copy_range(s: &[char], from: usize, to: usize) -> (r: Vec<char>)
    requires
        from <= to <= s.len(),
    ensures
        r@ == s@.subrange(from as int, to as int),
{
    let mut out: Vec<char> = Vec::new();
    let mut i: usize = from;
    while i < to
        invariant
            from <= i <= to <= s.len(),
            out@ == s@.subrange(from as int, i as int),
        decreases to - i,
    {
        out.push(s[i]);
        proof {
            assert(s@.subrange(from as int, i + 1) == s@.subrange(from as int, i as int).push(s@[i as int]));
        }
        i = i + 1;
    }
    out
}

// ---- decimal numbers -------------------------------------------------------

pub open spec fn is_digit(c: char) -> bool {
    48 <= c as u32 <= 57
}

pub open spec fn all_digits(s: Seq<char>) -> bool {
    forall|i: int| 0 <= i < s.len() ==> is_digit(#[trigger] s[i])
}

/// The number that a run of digits writes.
pub open spec fn number(s: Seq<char>) -> nat
    decreases s.len(),
{
    if s.len() == 0 {
        0
    } else {
        number(s.drop_last()) * 10 + (s.last() as u32 - 48) as nat
    }
}

/// The digits behind an optional plus sign.
pub open spec fn unsigned(s: Seq<char>) -> Seq<char> {
    if s.len() > 0 && s[0] == '+' {
        s.skip(1)
    } else {
        s
    }
}

/// What parsing `s` as an unsigned integer of at most `max` gives: an optional
/// plus sign, then one or more digits, whose number does not exceed `max`.
pub open spec fn parsed(s: Seq<char>, max: nat) -> Option<nat> {
    let body = unsigned(s);
    if body.len() > 0 && all_digits(body) && number(body) <= max {
        Some(number(body))
    } else {
        None
    }
}

/// More digits never make a smaller number.
pub proof fn number_grows(s: Seq<char>, n: int)
    requires
        0 <= n <= s.len(),
        all_digits(s),
    ensures
        number(s.take(n)) <= number(s),
    decreases s.len(),
{
    if n == s.len() {
        assert(s.take(n) == s);
    } else {
        assert(s.drop_last().take(n) == s.take(n));
        number_grows(s.drop_last(), n);
    }
}

/// Parses an unsigned integer of at most `max`.
pub fn parse_uint(s: &[char], max: u64) -> (r: Option<u64>)
    ensures
        r is Some <==> parsed(s@, max as nat) is Some,
        r is Some ==> r->0 == parsed(s@, max as nat)->0,
{
    let start: usize = if s.len() > 0 && s[0] == '+' { 1 } else { 0 };
    let ghost body = unsigned(s@);
    proof {
        assert(s@.skip(0) == s@);
        assert(body == s@.skip(start as int));
    }
    if start == s.len() {
        return None;
    }
    let mut i: usize = start;
    let mut n: u64 = 0;
    while i < s.len()
        invariant
            start <= i <= s.len(),
            body == s@.skip(start as int),
            body == unsigned(s@),
            all_digits(body.take(i - start)),
            n == number(body.take(i - start)),
            n <= max,
        decreases s.len() - i,
    {
        let d: u32 = s[i] as u32;
        proof {
            assert(body[i - start] == s@[i as int]);
        }
        if d < 48 || d > 57 {
            return None;
        }
        proof {
            let t = body.take(i + 1 - start);
            assert(t.drop_last() == body.take(i - start));
            assert(t.last() == s@[i as int]);
            assert forall|k: int| 0 <= k < t.len() implies is_digit(#[trigger] t[k]) by {
                if k < i - start {
                    assert(t[k] == body.take(i - start)[k]);
                }
            }
            assert(number(t) == n * 10 + (d - 48));
            if all_digits(body) {
                number_grows(body, i + 1 - start);
            }
        }
        let tens: u64 = match n.checked_mul(10) {
            Some(v) => v,
            None => {
                return None;
            },
        };
        let next: u64 = match tens.checked_add((d - 48) as u64) {
            Some(v) => v,
            None => {
                return None;
            },
        };
        if next > max {
            return None;
        }
        n = next;
        i = i + 1;
    }
    proof {
        assert(body.take(s.len() - start) == body);
    }
    Some(n)
}

/// `n` in decimal.
pub open spec fn decimal(n: nat) -> Seq<char>
    decreases n,
{
    if n < 10 {
        seq![((48 + n) as u32) as char]
    } else {
        decimal(n / 10).push(((48 + n % 10) as u32) as char)
    }
}

/// Reading a number back from its decimal form gives the number.
pub proof fn decimal_reads_back(n: nat)
    ensures
        decimal(n).len() > 0,
        all_digits(decimal(n)),
        number(decimal(n)) == n,
    decreases n,
{
    if n < 10 {
        let d = decimal(n);
        assert(d.drop_last() == Seq::<char>::empty());
        assert(number(d.drop_last()) == 0);
    } else {
        decimal_reads_back(n / 10);
        assert(decimal(n).drop_last() == decimal(n / 10));
    }
}

/// Parsing the decimal form of `n` gives `n`, whatever the bound that admits it.
pub proof fn decimal_parses(n: nat, max: nat)
    requires
        n <= max,
    ensures
        parsed(decimal(n), max) == Some(n),
{
    decimal_reads_back(n);
    assert(is_digit(decimal(n)[0]));
}

/// `n` in decimal.
pub fn decimal_string(n: u64) -> (r: String)
    ensures
        r@ == decimal(n as nat),
    decreases n,
{
    let digit: u8 = (48 + n % 10) as u8;
    if n < 10 {
        let mut out: String = String::new();
        out.push(digit as char);
        proof {
            assert(out@ == decimal(n as nat));
        }
        out
    } else {
        let mut out: String = decimal_string(n / 10);
        out.push(digit as char);
        out
    }
}

/// The concatenation of two texts.
pub fn join2(a: &str, b: &str) -> (r: String)
    ensures
        r@ == a@ + b@,
{
    let mut out: String = a.to_owned();
    out.append(b);
    out
}

/// The concatenation of three texts.
pub fn join3(a: &str, b: &str, c: &str) -> (r: String)
    ensures
        r@ == a@ + b@ + c@,
{
    let mut out: String = join2(a, b);
    out.append(c);
    out
}

} // verus!
