//! What holds of sizes however they are written.

use vstd::prelude::*;
use crate::rounding;
use crate::text;
use crate::text_laws;
use crate::time;
use crate::units::{
    duration_complaint, duration_of_text, instant_complaint, instant_of_text, is_number_char,
    number_len, scale_of, scaled, size_complaint, size_of_text, size_text, trimmed_already,
    unit_of,
};

verus! {

/// A text in ASCII upper case.
pub open spec fn upper_all(s: Seq<char>) -> Seq<char> {
    s.map_values(|c: char| text::upper(c))
}

/// Whether a text is white space alone.
pub open spec fn blank(s: Seq<char>) -> bool {
    forall|i: int| 0 <= i < s.len() ==> text::is_white(#[trigger] s[i])
}

// ---- white space -----------------------------------------------------------

proof fn blank_trims_left(a: Seq<char>, s: Seq<char>)
    requires
        blank(a),
    ensures
        text::trim_left(a + s) == text::trim_left(s),
    decreases a.len(),
{
    if a.len() == 0 {
        assert(a + s =~= s);
    } else {
        assert((a + s)[0] == a[0]);
        assert((a + s).drop_first() =~= a.drop_first() + s);
        assert forall|i: int| 0 <= i < a.drop_first().len() implies text::is_white(
            #[trigger] a.drop_first()[i],
        ) by {
            assert(a.drop_first()[i] == a[i + 1]);
        }
        blank_trims_left(a.drop_first(), s);
    }
}

proof fn blank_trims_right(s: Seq<char>, b: Seq<char>)
    requires
        blank(b),
    ensures
        text::trim_right(s + b) == text::trim_right(s),
    decreases b.len(),
{
    if b.len() == 0 {
        assert(s + b =~= s);
    } else {
        assert((s + b).last() == b[b.len() - 1]);
        assert((s + b).drop_last() =~= s + b.drop_last());
        assert forall|i: int| 0 <= i < b.drop_last().len() implies text::is_white(
            #[trigger] b.drop_last()[i],
        ) by {
            assert(b.drop_last()[i] == b[i]);
        }
        blank_trims_right(s, b.drop_last());
    }
}

proof fn trim_left_before_blank(s: Seq<char>, b: Seq<char>)
    requires
        blank(b),
    ensures
        text::trim_left(s + b) == text::trim_left(s) + b || (text::trim_left(s).len() == 0
            && text::trim_left(s + b).len() == 0),
    decreases s.len(),
{
    if s.len() == 0 {
        let none = Seq::<char>::empty();
        assert(s + b =~= b + none);
        blank_trims_left(b, none);
    } else {
        assert((s + b)[0] == s[0]);
        if text::is_white(s[0]) {
            assert((s + b).drop_first() =~= s.drop_first() + b);
            trim_left_before_blank(s.drop_first(), b);
        }
    }
}

/// White space around a size changes nothing.
pub proof fn surrounding_white_space_changes_no_size(a: Seq<char>, s: Seq<char>, b: Seq<char>)
    requires
        blank(a),
        blank(b),
    ensures
        text::trimmed(a + s + b) == text::trimmed(s),
        size_of_text(text::trimmed(a + s + b)) == size_of_text(text::trimmed(s)),
{
    assert(a + s + b =~= a + (s + b));
    blank_trims_left(a, s + b);
    trim_left_before_blank(s, b);
    if text::trim_left(s + b) == text::trim_left(s) + b {
        blank_trims_right(text::trim_left(s), b);
    } else {
        assert(text::trim_left(s + b) =~= text::trim_left(s));
    }
}

// ---- case ------------------------------------------------------------------

/// Whether a change of characters is one of case alone.
spec fn recases(f: spec_fn(char) -> char) -> bool {
    forall|c: char|
        #![trigger f(c)]
        text::is_white(f(c)) == text::is_white(c) && text::lower(f(c)) == text::lower(c)
            && is_number_char(f(c)) == is_number_char(c) && (is_number_char(c) ==> f(c) == c)
}

proof fn trimming_keeps_case(s: Seq<char>, f: spec_fn(char) -> char)
    requires
        recases(f),
    ensures
        text::trimmed(s.map_values(f)) == text::trimmed(s).map_values(f),
{
    trim_left_keeps_case(s, f);
    trim_right_keeps_case(text::trim_left(s), f);
}

proof fn trim_left_keeps_case(s: Seq<char>, f: spec_fn(char) -> char)
    requires
        recases(f),
    ensures
        text::trim_left(s.map_values(f)) == text::trim_left(s).map_values(f),
    decreases s.len(),
{
    if s.len() > 0 {
        assert(s.map_values(f)[0] == f(s[0]));
        assert(s.map_values(f).drop_first() =~= s.drop_first().map_values(f));
        trim_left_keeps_case(s.drop_first(), f);
    }
}

proof fn trim_right_keeps_case(s: Seq<char>, f: spec_fn(char) -> char)
    requires
        recases(f),
    ensures
        text::trim_right(s.map_values(f)) == text::trim_right(s).map_values(f),
    decreases s.len(),
{
    if s.len() > 0 {
        assert(s.map_values(f).last() == f(s.last()));
        assert(s.map_values(f).drop_last() =~= s.drop_last().map_values(f));
        trim_right_keeps_case(s.drop_last(), f);
    }
}

proof fn number_of_recased(s: Seq<char>, f: spec_fn(char) -> char)
    requires
        recases(f),
    ensures
        number_len(s.map_values(f)) == number_len(s),
        number_len(s) <= s.len(),
        s.map_values(f).take(number_len(s) as int) == s.take(number_len(s) as int),
    decreases s.len(),
{
    let t = s.map_values(f);
    if s.len() > 0 {
        assert(t[0] == f(s[0]));
        if is_number_char(s[0]) {
            let rest = s.drop_first();
            assert(t.drop_first() =~= rest.map_values(f));
            number_of_recased(rest, f);
            let n = number_len(s) as int;
            assert forall|i: int| 0 <= i < n implies t.take(n)[i] == s.take(n)[i] by {
                if i > 0 {
                    assert(rest.map_values(f).take(n - 1)[i - 1] == rest.take(n - 1)[i - 1]);
                }
            }
        }
    }
    assert(t.take(number_len(s) as int) =~= s.take(number_len(s) as int));
}

proof fn recasing_changes_no_size(s: Seq<char>, f: spec_fn(char) -> char)
    requires
        recases(f),
    ensures
        size_of_text(text::trimmed(s.map_values(f))) == size_of_text(text::trimmed(s)),
{
    trimming_keeps_case(s, f);
    let t = text::trimmed(s);
    let u = t.map_values(f);
    number_of_recased(t, f);
    let n = number_len(t) as int;
    let tail = t.skip(n);
    assert(u.skip(n) =~= tail.map_values(f));
    trimming_keeps_case(tail, f);
    let unit = text::trimmed(tail);
    assert(text::lower_all(unit.map_values(f)) =~= text::lower_all(unit));
    assert(unit_of(u) == unit_of(t));
}

proof fn lower_recases()
    ensures
        recases(|c: char| text::lower(c)),
{
    let f = |c: char| text::lower(c);
    assert forall|c: char|
        #![trigger f(c)]
        text::is_white(f(c)) == text::is_white(c) && text::lower(f(c)) == text::lower(c)
            && is_number_char(f(c)) == is_number_char(c) && (is_number_char(c) ==> f(c) == c) by {}
}

proof fn upper_recases()
    ensures
        recases(|c: char| text::upper(c)),
{
    let f = |c: char| text::upper(c);
    assert forall|c: char|
        #![trigger f(c)]
        text::is_white(f(c)) == text::is_white(c) && text::lower(f(c)) == text::lower(c)
            && is_number_char(f(c)) == is_number_char(c) && (is_number_char(c) ==> f(c) == c) by {
        if 97 <= c as u32 <= 122 {
            assert(f(c) as u32 == c as u32 - 32);
        }
    }
}

/// A size reads the same in upper case and in lower case.
pub proof fn case_changes_no_size(s: Seq<char>)
    ensures
        size_of_text(text::trimmed(text::lower_all(s))) == size_of_text(text::trimmed(s)),
        size_of_text(text::trimmed(upper_all(s))) == size_of_text(text::trimmed(s)),
{
    lower_recases();
    recasing_changes_no_size(s, |c: char| text::lower(c));
    assert(text::lower_all(s) =~= s.map_values(|c: char| text::lower(c)));
    upper_recases();
    recasing_changes_no_size(s, |c: char| text::upper(c));
    assert(upper_all(s) =~= s.map_values(|c: char| text::upper(c)));
}

// ---- units -----------------------------------------------------------------

proof fn number_ends_at_unit(d: Seq<char>, unit: Seq<char>)
    requires
        forall|i: int| 0 <= i < d.len() ==> is_number_char(#[trigger] d[i]),
        unit.len() > 0 ==> !is_number_char(unit[0]),
    ensures
        number_len(d + unit) == d.len(),
    decreases d.len(),
{
    let s = d + unit;
    if d.len() == 0 {
        assert(s =~= unit);
    } else {
        assert(s[0] == d[0]);
        let rest = d.drop_first();
        assert forall|i: int| 0 <= i < rest.len() implies is_number_char(#[trigger] rest[i]) by {
            assert(rest[i] == d[i + 1]);
        }
        assert(s.drop_first() =~= rest + unit);
        number_ends_at_unit(rest, unit);
    }
}

/// A number and a unit read as the number, as many times over as the unit says.
proof fn reads_in_units(d: Seq<char>, unit: Seq<char>, plain: Seq<char>, scale: nat)
    requires
        forall|i: int| 0 <= i < d.len() ==> is_number_char(#[trigger] d[i]),
        unit.len() > 0,
        !is_number_char(unit[0]),
        !text::is_white(unit[0]),
        !text::is_white(unit.last()),
        text::lower_all(unit) == plain,
        scale_of(plain) == Some(scale),
    ensures
        size_of_text(text::trimmed(d + unit)) == scaled(d, scale),
{
    let s = d + unit;
    number_ends_at_unit(d, unit);
    assert(s.skip(d.len() as int) =~= unit);
    assert(s.take(d.len() as int) =~= d);
    trimmed_already(unit);
    if d.len() > 0 {
        assert(s[0] == d[0]);
        assert(is_number_char(d[0]));
    }
    assert(s.last() == unit.last());
    trimmed_already(s);
}

/// The bytes of each unit.
proof fn scales_known()
    ensures
        scale_of("k"@) == Some(1024nat),
        scale_of("kib"@) == Some(1024nat),
        scale_of("kb"@) == Some(1_000nat),
        scale_of("m"@) == Some(1_048_576nat),
        scale_of("mib"@) == Some(1_048_576nat),
        scale_of("mb"@) == Some(1_000_000nat),
        scale_of("g"@) == Some(1_073_741_824nat),
        scale_of("gib"@) == Some(1_073_741_824nat),
        scale_of("gb"@) == Some(1_000_000_000nat),
        scale_of("t"@) == Some(1_099_511_627_776nat),
        scale_of("tib"@) == Some(1_099_511_627_776nat),
        scale_of("tb"@) == Some(1_000_000_000_000nat),
{
    reveal_strlit("");
    reveal_strlit("b");
    reveal_strlit("k");
    reveal_strlit("kib");
    reveal_strlit("kb");
    reveal_strlit("m");
    reveal_strlit("mib");
    reveal_strlit("mb");
    reveal_strlit("g");
    reveal_strlit("gib");
    reveal_strlit("gb");
    reveal_strlit("t");
    reveal_strlit("tib");
    reveal_strlit("tb");
    assert("k"@.len() == 1 && "kib"@.len() == 3 && "kb"@.len() == 2);
    assert("k"@[0] == 'k' && "kib"@[0] == 'k' && "kb"@[0] == 'k');
    assert("m"@.len() == 1 && "mib"@.len() == 3 && "mb"@.len() == 2);
    assert("m"@[0] == 'm' && "mib"@[0] == 'm' && "mb"@[0] == 'm');
    assert("g"@.len() == 1 && "gib"@.len() == 3 && "gb"@.len() == 2);
    assert("g"@[0] == 'g' && "gib"@[0] == 'g' && "gb"@[0] == 'g');
    assert("t"@.len() == 1 && "tib"@.len() == 3 && "tb"@.len() == 2);
    assert("t"@[0] == 't' && "tib"@[0] == 't' && "tb"@[0] == 't');
    assert(""@.len() == 0 && "b"@.len() == 1 && "b"@[0] == 'b');
}

proof fn k_units_read(d: Seq<char>)
    requires
        forall|i: int| 0 <= i < d.len() ==> is_number_char(#[trigger] d[i]),
    ensures
        size_of_text(text::trimmed(d + "K"@)) == scaled(d, 1024),
        size_of_text(text::trimmed(d + "KiB"@)) == scaled(d, 1024),
        size_of_text(text::trimmed(d + "KB"@)) == scaled(d, 1_000),
{
    scales_known();
    reveal_strlit("k");
    reveal_strlit("kib");
    reveal_strlit("kb");
    reveal_strlit("K");
    reveal_strlit("KiB");
    reveal_strlit("KB");
    assert(text::lower_all("K"@) =~= "k"@);
    reads_in_units(d, "K"@, "k"@, 1024);
    assert(text::lower_all("KiB"@) =~= "kib"@);
    reads_in_units(d, "KiB"@, "kib"@, 1024);
    assert(text::lower_all("KB"@) =~= "kb"@);
    reads_in_units(d, "KB"@, "kb"@, 1_000);
}

proof fn m_units_read(d: Seq<char>)
    requires
        forall|i: int| 0 <= i < d.len() ==> is_number_char(#[trigger] d[i]),
    ensures
        size_of_text(text::trimmed(d + "M"@)) == scaled(d, 1_048_576),
        size_of_text(text::trimmed(d + "MiB"@)) == scaled(d, 1_048_576),
        size_of_text(text::trimmed(d + "MB"@)) == scaled(d, 1_000_000),
{
    scales_known();
    reveal_strlit("m");
    reveal_strlit("mib");
    reveal_strlit("mb");
    reveal_strlit("M");
    reveal_strlit("MiB");
    reveal_strlit("MB");
    assert(text::lower_all("M"@) =~= "m"@);
    reads_in_units(d, "M"@, "m"@, 1_048_576);
    assert(text::lower_all("MiB"@) =~= "mib"@);
    reads_in_units(d, "MiB"@, "mib"@, 1_048_576);
    assert(text::lower_all("MB"@) =~= "mb"@);
    reads_in_units(d, "MB"@, "mb"@, 1_000_000);
}

proof fn g_units_read(d: Seq<char>)
    requires
        forall|i: int| 0 <= i < d.len() ==> is_number_char(#[trigger] d[i]),
    ensures
        size_of_text(text::trimmed(d + "G"@)) == scaled(d, 1_073_741_824),
        size_of_text(text::trimmed(d + "GiB"@)) == scaled(d, 1_073_741_824),
        size_of_text(text::trimmed(d + "GB"@)) == scaled(d, 1_000_000_000),
{
    scales_known();
    reveal_strlit("g");
    reveal_strlit("gib");
    reveal_strlit("gb");
    reveal_strlit("G");
    reveal_strlit("GiB");
    reveal_strlit("GB");
    assert(text::lower_all("G"@) =~= "g"@);
    reads_in_units(d, "G"@, "g"@, 1_073_741_824);
    assert(text::lower_all("GiB"@) =~= "gib"@);
    reads_in_units(d, "GiB"@, "gib"@, 1_073_741_824);
    assert(text::lower_all("GB"@) =~= "gb"@);
    reads_in_units(d, "GB"@, "gb"@, 1_000_000_000);
}

proof fn t_units_read(d: Seq<char>)
    requires
        forall|i: int| 0 <= i < d.len() ==> is_number_char(#[trigger] d[i]),
    ensures
        size_of_text(text::trimmed(d + "T"@)) == scaled(d, 1_099_511_627_776),
        size_of_text(text::trimmed(d + "TiB"@)) == scaled(d, 1_099_511_627_776),
        size_of_text(text::trimmed(d + "TB"@)) == scaled(d, 1_000_000_000_000),
{
    scales_known();
    reveal_strlit("t");
    reveal_strlit("tib");
    reveal_strlit("tb");
    reveal_strlit("T");
    reveal_strlit("TiB");
    reveal_strlit("TB");
    assert(text::lower_all("T"@) =~= "t"@);
    reads_in_units(d, "T"@, "t"@, 1_099_511_627_776);
    assert(text::lower_all("TiB"@) =~= "tib"@);
    reads_in_units(d, "TiB"@, "tib"@, 1_099_511_627_776);
    assert(text::lower_all("TB"@) =~= "tb"@);
    reads_in_units(d, "TB"@, "tb"@, 1_000_000_000_000);
}

proof fn units_read(d: Seq<char>)
    requires
        forall|i: int| 0 <= i < d.len() ==> is_number_char(#[trigger] d[i]),
    ensures
        size_of_text(text::trimmed(d + "K"@)) == scaled(d, 1024),
        size_of_text(text::trimmed(d + "KiB"@)) == scaled(d, 1024),
        size_of_text(text::trimmed(d + "KB"@)) == scaled(d, 1_000),
        size_of_text(text::trimmed(d + "M"@)) == scaled(d, 1_048_576),
        size_of_text(text::trimmed(d + "MiB"@)) == scaled(d, 1_048_576),
        size_of_text(text::trimmed(d + "MB"@)) == scaled(d, 1_000_000),
        size_of_text(text::trimmed(d + "G"@)) == scaled(d, 1_073_741_824),
        size_of_text(text::trimmed(d + "GiB"@)) == scaled(d, 1_073_741_824),
        size_of_text(text::trimmed(d + "GB"@)) == scaled(d, 1_000_000_000),
        size_of_text(text::trimmed(d + "T"@)) == scaled(d, 1_099_511_627_776),
        size_of_text(text::trimmed(d + "TiB"@)) == scaled(d, 1_099_511_627_776),
        size_of_text(text::trimmed(d + "TB"@)) == scaled(d, 1_000_000_000_000),
{
    k_units_read(d);
    m_units_read(d);
    g_units_read(d);
    t_units_read(d);
}

/// A bare letter and the binary unit that starts with it are the same unit, for
/// whole numbers, for fractions, and for what is no number at all.
pub proof fn a_bare_letter_is_its_binary_unit(d: Seq<char>)
    requires
        forall|i: int| 0 <= i < d.len() ==> is_number_char(#[trigger] d[i]),
    ensures
        size_of_text(text::trimmed(d + "K"@)) == size_of_text(text::trimmed(d + "KiB"@)),
        size_of_text(text::trimmed(d + "M"@)) == size_of_text(text::trimmed(d + "MiB"@)),
        size_of_text(text::trimmed(d + "G"@)) == size_of_text(text::trimmed(d + "GiB"@)),
        size_of_text(text::trimmed(d + "T"@)) == size_of_text(text::trimmed(d + "TiB"@)),
{
    units_read(d);
}

proof fn less_of_a_smaller_unit(d: Seq<char>, small: nat, large: nat)
    requires
        text::all_digits(d),
        text::number(d) > 0,
        small < large,
        scaled(d, large) is Ok,
    ensures
        scaled(d, small) is Ok,
        scaled(d, small)->Ok_0 < scaled(d, large)->Ok_0,
{
    assert(!d.contains('.')) by {
        if d.contains('.') {
            let i = choose|i: int| 0 <= i < d.len() && d[i] == '.';
            assert(text::is_digit(d[i]));
        }
    }
    let n = text::number(d);
    assert(n * small < n * large) by (nonlinear_arith)
        requires
            n > 0,
            small < large,
    ;
}

/// A whole number of a decimal unit is fewer bytes than that many of the binary
/// unit of the same letter.
pub proof fn a_decimal_unit_is_smaller_than_its_binary_one(d: Seq<char>)
    requires
        text::all_digits(d),
        text::number(d) > 0,
    ensures
        size_of_text(text::trimmed(d + "KiB"@)) is Ok ==> size_of_text(
            text::trimmed(d + "KB"@),
        ) is Ok && size_of_text(text::trimmed(d + "KB"@))->Ok_0 < size_of_text(
            text::trimmed(d + "KiB"@),
        )->Ok_0,
        size_of_text(text::trimmed(d + "MiB"@)) is Ok ==> size_of_text(
            text::trimmed(d + "MB"@),
        ) is Ok && size_of_text(text::trimmed(d + "MB"@))->Ok_0 < size_of_text(
            text::trimmed(d + "MiB"@),
        )->Ok_0,
        size_of_text(text::trimmed(d + "GiB"@)) is Ok ==> size_of_text(
            text::trimmed(d + "GB"@),
        ) is Ok && size_of_text(text::trimmed(d + "GB"@))->Ok_0 < size_of_text(
            text::trimmed(d + "GiB"@),
        )->Ok_0,
        size_of_text(text::trimmed(d + "TiB"@)) is Ok ==> size_of_text(
            text::trimmed(d + "TB"@),
        ) is Ok && size_of_text(text::trimmed(d + "TB"@))->Ok_0 < size_of_text(
            text::trimmed(d + "TiB"@),
        )->Ok_0,
{
    assert forall|i: int| 0 <= i < d.len() implies is_number_char(#[trigger] d[i]) by {
        assert(text::is_digit(d[i]));
    }
    units_read(d);
    if scaled(d, 1024) is Ok {
        less_of_a_smaller_unit(d, 1_000, 1024);
    }
    if scaled(d, 1_048_576) is Ok {
        less_of_a_smaller_unit(d, 1_000_000, 1_048_576);
    }
    if scaled(d, 1_073_741_824) is Ok {
        less_of_a_smaller_unit(d, 1_000_000_000, 1_073_741_824);
    }
    if scaled(d, 1_099_511_627_776) is Ok {
        less_of_a_smaller_unit(d, 1_000_000_000_000, 1_099_511_627_776);
    }
}

/// What a whole number of a unit comes to: so many bytes, unless they are more
/// than 64 binary digits hold.
pub open spec fn bytes_of(n: nat, unit: nat) -> Result<nat, Seq<char>> {
    if n * unit <= u64::MAX {
        Ok(n * unit)
    } else {
        Err("too large"@)
    }
}

/// A whole number of a unit is that many times the unit: each binary unit is 1024
/// of the one below it, and each decimal unit 1000.
pub proof fn a_size_counts_its_unit(n: u64)
    ensures
        ({
            let d = text::decimal(n as nat);
            &&& size_of_text(text::trimmed(d)) == bytes_of(n as nat, 1)
            &&& size_of_text(text::trimmed(d + "B"@)) == bytes_of(n as nat, 1)
            &&& size_of_text(text::trimmed(d + "KiB"@)) == bytes_of(n as nat, 1024)
            &&& size_of_text(text::trimmed(d + "MiB"@)) == bytes_of(n as nat, 1024 * 1024)
            &&& size_of_text(text::trimmed(d + "GiB"@)) == bytes_of(n as nat, 1024 * 1024 * 1024)
            &&& size_of_text(text::trimmed(d + "TiB"@)) == bytes_of(
                n as nat,
                1024 * 1024 * 1024 * 1024,
            )
            &&& size_of_text(text::trimmed(d + "KB"@)) == bytes_of(n as nat, 1000)
            &&& size_of_text(text::trimmed(d + "MB"@)) == bytes_of(n as nat, 1000 * 1000)
            &&& size_of_text(text::trimmed(d + "GB"@)) == bytes_of(n as nat, 1000 * 1000 * 1000)
            &&& size_of_text(text::trimmed(d + "TB"@)) == bytes_of(
                n as nat,
                1000 * 1000 * 1000 * 1000,
            )
        }),
{
    let d = text::decimal(n as nat);
    text::decimal_reads_back(n as nat);
    assert forall|i: int| 0 <= i < d.len() implies is_number_char(#[trigger] d[i]) && d[i]
        != '.' by {
        assert(text::is_digit(d[i]));
    }
    units_read(d);
    assert(!d.contains('.'));
    reveal_strlit("");
    reveal_strlit("b");
    reveal_strlit("B");
    assert(text::lower_all("B"@) =~= "b"@);
    reads_in_units(d, "B"@, "b"@, 1);
    assert(text::is_digit(d[0]) && text::is_digit(d.last()));
    trimmed_already(d);
    let none = Seq::<char>::empty();
    number_ends_at_unit(d, none);
    assert(d + none =~= d);
    assert(d.skip(d.len() as int) =~= none);
    assert(d.take(d.len() as int) =~= d);
    assert(text::trimmed(none) =~= none);
    assert(text::lower_all(none) =~= ""@);
}

/// A unit that is none is refused by name, whatever number stands before it.
pub proof fn an_unknown_unit_is_named(s: Seq<char>)
    requires
        !seq![
            ""@,
            "b"@,
            "k"@,
            "kib"@,
            "kb"@,
            "m"@,
            "mib"@,
            "mb"@,
            "g"@,
            "gib"@,
            "gb"@,
            "t"@,
            "tib"@,
            "tb"@,
        ].contains(unit_of(s)),
    ensures
        size_of_text(s) == Err::<nat, Seq<char>>("unknown unit '"@ + unit_of(s) + "'"@),
{
    let known = seq![
        ""@,
        "b"@,
        "k"@,
        "kib"@,
        "kb"@,
        "m"@,
        "mib"@,
        "mb"@,
        "g"@,
        "gib"@,
        "gb"@,
        "t"@,
        "tib"@,
        "tb"@,
    ];
    assert forall|i: int| 0 <= i < 14 implies unit_of(s) != #[trigger] known[i] by {
        assert(known.contains(known[i]));
    }
    assert(known[0] == ""@ && known[1] == "b"@ && known[2] == "k"@ && known[3] == "kib"@ && known[4]
        == "kb"@ && known[5] == "m"@ && known[6] == "mib"@ && known[7] == "mb"@ && known[8] == "g"@
        && known[9] == "gib"@ && known[10] == "gb"@ && known[11] == "t"@ && known[12] == "tib"@
        && known[13] == "tb"@);
}

/// A size is rendered in the largest binary unit of which it is a whole number.
pub proof fn a_size_is_rendered_in_its_largest_unit(k: nat)
    requires
        k > 0,
    ensures
        size_text(0) == text::decimal(0),
        k % 1024 != 0 ==> size_text(k) == text::decimal(k),
        k % 1024 != 0 ==> size_text(k * 1024) == text::decimal(k) + "KiB"@,
        k % 1024 != 0 ==> size_text(k * 1024 * 1024) == text::decimal(k) + "MiB"@,
        k % 1024 != 0 ==> size_text(k * 1024 * 1024 * 1024) == text::decimal(k) + "GiB"@,
        size_text(k * 1024 * 1024 * 1024 * 1024) == text::decimal(k) + "TiB"@,
{
    let a = k * 1024;
    let b = k * 1_048_576;
    let c = k * 1_073_741_824;
    let d = k * 1_099_511_627_776;
    assert(b == k * 1024 * 1024 && c == k * 1024 * 1024 * 1024 && d == k * 1024 * 1024 * 1024
        * 1024);
    assert(a / 1024 == k && b / 1_048_576 == k && c / 1_073_741_824 == k && d / 1_099_511_627_776
        == k);
    assert(d % 1_099_511_627_776 == 0 && c % 1_073_741_824 == 0 && b % 1_048_576 == 0 && a % 1024
        == 0);
    if k % 1024 != 0 {
        assert(k % 1_048_576 != 0 && k % 1_073_741_824 != 0 && k % 1_099_511_627_776 != 0);
        assert(a % 1_048_576 == 1024 * (k % 1024));
        assert(a % 1_073_741_824 != 0 && a % 1_099_511_627_776 != 0);
        assert(b % 1_073_741_824 == 1_048_576 * (k % 1024));
        assert(b % 1_099_511_627_776 != 0);
        assert(c % 1_099_511_627_776 == 1_073_741_824 * (k % 1024));
    }
}

/// A number of seconds is that many seconds, however they are written in digits; and
/// what is no plain number is what its words say.
pub proof fn a_plain_number_is_seconds(n: u64, words: Seq<char>)
    ensures
        duration_of_text(text::decimal(n as nat)) == Ok::<nat, Seq<char>>(
            n as nat * 1_000_000_000,
        ),
        duration_of_text(seq!['+'] + text::decimal(n as nat)) == Ok::<nat, Seq<char>>(
            n as nat * 1_000_000_000,
        ),
        words.len() > 1 && !text::is_digit(words.last()) ==> duration_of_text(words)
            == time::human_duration(words),
{
    text::decimal_reads_back(n as nat);
    text_laws::a_number_is_read_within_its_bound(text::decimal(n as nat), u64::MAX as nat);
    text_laws::only_digits_are_a_number(words, u64::MAX as nat, words.len() - 1);
}

/// A text that is an instant and a day is the instant; a text that is a day alone is
/// its midnight; and a text that is neither is no instant.
pub proof fn a_day_is_its_midnight(s: Seq<char>)
    ensures
        time::rfc3339_instant(s) is Some ==> instant_of_text(s) == time::rfc3339_instant(s),
        time::rfc3339_instant(s) is None ==> instant_of_text(s) == time::midnight_of(s),
{
}

// ---- numbers with a point --------------------------------------------------

/// A number with a point is the digits on both sides of it as one number, so many of
/// them behind the point; a point alone, and a second point, make it none.
pub proof fn a_point_parts_the_digits(whole: Seq<char>, part: Seq<char>, scale: nat)
    requires
        text::all_digits(whole),
        text::all_digits(part),
    ensures
        whole.len() + part.len() > 0 ==> scaled(whole + seq!['.'] + part, scale)
            == rounding::scaled_decimal(text::number(whole + part), part.len(), scale),
        scaled(seq!['.'], scale) == Err::<nat, Seq<char>>("not a number"@),
        scaled(Seq::empty(), scale) == Err::<nat, Seq<char>>("not a number"@),
        scaled(whole + seq!['.'] + part + seq!['.'], scale) == Err::<nat, Seq<char>>(
            "not a number"@,
        ),
{
    let n = whole.len() as int;
    assert forall|i: int| 0 <= i < n implies whole[i] != '.' by {
        assert(text::is_digit(whole[i]));
    }
    assert forall|i: int| 0 <= i < part.len() implies part[i] != '.' by {
        assert(text::is_digit(part[i]));
    }
    let a = whole + seq!['.'] + part;
    point_stands_first(a, n);
    assert(a.take(n) =~= whole);
    assert(a.skip(n + 1) =~= part);
    text_laws::digits_count_by_their_place(whole, part);
    crate::rounding_laws::powers_are_powers(part.len());
    let b = seq!['.'];
    point_stands_first(b, 0);
    assert(b.take(0) =~= Seq::<char>::empty());
    assert(b.skip(1) =~= Seq::<char>::empty());
    let c = a + seq!['.'];
    point_stands_first(c, n);
    assert(c.skip(n + 1) =~= part + seq!['.']);
    assert((part + seq!['.']).last() == '.');
    assert(!Seq::<char>::empty().contains('.'));
}

proof fn point_stands_first(s: Seq<char>, n: int)
    requires
        0 <= n < s.len(),
        s[n] == '.',
        forall|i: int| 0 <= i < n ==> s[i] != '.',
    ensures
        s.contains('.'),
        s.index_of_first('.') == Some(n),
{
    s.index_of_first_ensures('.');
}

/// White space may stand between a number and its unit.
pub proof fn a_unit_may_stand_apart(d: Seq<char>, space: Seq<char>, unit: Seq<char>)
    requires
        forall|i: int| 0 <= i < d.len() ==> is_number_char(#[trigger] d[i]),
        blank(space),
        unit.len() > 0,
        !is_number_char(unit[0]),
        !text::is_white(unit[0]),
        !text::is_white(unit.last()),
    ensures
        size_of_text(d + (space + unit)) == size_of_text(d + unit),
{
    let tail = space + unit;
    assert forall|i: int| 0 <= i < space.len() implies !is_number_char(#[trigger] space[i]) by {
        assert(text::is_white(space[i]));
    }
    assert(tail[0] == if space.len() > 0 {
        space[0]
    } else {
        unit[0]
    });
    number_ends_at_unit(d, tail);
    number_ends_at_unit(d, unit);
    assert((d + tail).skip(d.len() as int) =~= tail);
    assert((d + tail).take(d.len() as int) =~= d);
    assert((d + unit).skip(d.len() as int) =~= unit);
    assert((d + unit).take(d.len() as int) =~= d);
    let none = Seq::<char>::empty();
    text_laws::trimming_takes_the_white_space_around(space, unit, none);
    assert(space + unit + none =~= tail);
    text_laws::trimming_takes_the_white_space_around(none, unit, none);
    assert(none + unit + none =~= unit);
}

// ---- complaints ------------------------------------------------------------

/// What is no size, no duration or no instant is told so with the text and, where
/// there is one, the reason.
pub proof fn each_complaint_names_the_text(s: Seq<char>, what: Seq<char>)
    ensures
        size_complaint(s, what) == "'"@ + (s + ("' is not a size ("@ + (what
            + "); write it as e.g. 512MiB, 2GB, or a plain number of bytes; the suffixes are K, M, G, T and KiB, MiB, GiB, TiB for powers of 1024, and KB, MB, GB, TB for powers of 1000"@))),
        duration_complaint(s, what) == "'"@ + (s + ("' is not a duration ("@ + (what
            + "); write it as e.g. 30d, 2 weeks, 1h 30min, or a plain number of seconds"@))),
        instant_complaint(s) == "'"@ + (s
            + "' is not an instant; write it as e.g. 2026-01-01T00:00:00Z or 2026-01-01"@),
{
    assert(size_complaint(s, what) =~= "'"@ + (s + ("' is not a size ("@ + (what
        + "); write it as e.g. 512MiB, 2GB, or a plain number of bytes; the suffixes are K, M, G, T and KiB, MiB, GiB, TiB for powers of 1024, and KB, MB, GB, TB for powers of 1000"@))));
    assert(duration_complaint(s, what) =~= "'"@ + (s + ("' is not a duration ("@ + (what
        + "); write it as e.g. 30d, 2 weeks, 1h 30min, or a plain number of seconds"@))));
    assert(instant_complaint(s) =~= "'"@ + (s
        + "' is not an instant; write it as e.g. 2026-01-01T00:00:00Z or 2026-01-01"@));
}

} // verus!
