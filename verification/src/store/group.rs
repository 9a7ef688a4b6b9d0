//! What a group was told to be, and whether what a device reports agrees.

use vstd::prelude::*;
use crate::api::{
    FieldName, Intent, IntentModel, ReadValue, RecordingState, ValueModel,
};
use crate::text;
use crate::text_laws;
use crate::text::{chars_of, lower_string, parse_uint, same, same_ignoring_case, trim};

verus! {

/// The field on which the recording state of a device is observed.
pub const RECORDING_STATE_FIELD: &'static str = "RUNNING_STATE";

/// The field and value that an intent asks a device to end up with.
pub open spec fn expectation(intent: IntentModel) -> (Seq<char>, ValueModel) {
    match intent {
        IntentModel::StartRecording => (
            RECORDING_STATE_FIELD@,
            ValueModel::State(RecordingState::Started),
        ),
        IntentModel::StopRecording => (
            RECORDING_STATE_FIELD@,
            ValueModel::State(RecordingState::Stopped),
        ),
        IntentModel::PauseRecording => (
            RECORDING_STATE_FIELD@,
            ValueModel::State(RecordingState::Paused),
        ),
        IntentModel::SetMetadata { field, value } => (field, ValueModel::Text(value)),
        IntentModel::SetSetting { field, value } => (field, ValueModel::Text(value)),
    }
}

/// The field and value that `intent` asks a device to end up with.
pub fn expects(intent: &Intent) -> (r: (FieldName, ReadValue))
    ensures
        r.0@ == expectation(intent@).0,
        r.1@ == expectation(intent@).1,
{
    match intent {
        Intent::StartRecording => (
            RECORDING_STATE_FIELD.to_owned(),
            ReadValue::State(RecordingState::Started),
        ),
        Intent::StopRecording => (
            RECORDING_STATE_FIELD.to_owned(),
            ReadValue::State(RecordingState::Stopped),
        ),
        Intent::PauseRecording => (
            RECORDING_STATE_FIELD.to_owned(),
            ReadValue::State(RecordingState::Paused),
        ),
        Intent::SetMetadata { field, value } => (field.clone(), ReadValue::Text(value.clone())),
        Intent::SetSetting { field, value } => (field.clone(), ReadValue::Text(value.clone())),
    }
}

/// The truth value that a text spells, in any case of ASCII.
pub open spec fn flag_spelled(s: Seq<char>) -> Option<bool> {
    let t = text::lower_all(s);
    if t == "1"@ || t == "true"@ || t == "on"@ || t == "yes"@ {
        Some(true)
    } else if t == "0"@ || t == "false"@ || t == "off"@ || t == "no"@ {
        Some(false)
    } else {
        None
    }
}

/// The truth value that `s` spells, if it spells one.
pub fn flag_of(s: &str) -> (r: Option<bool>)
    ensures
        r == flag_spelled(s@),
{
    let t: String = lower_string(s);
    let t: &str = t.as_str();
    proof {
        reveal_strlit("1");
        reveal_strlit("true");
        reveal_strlit("on");
        reveal_strlit("yes");
        reveal_strlit("0");
        reveal_strlit("false");
        reveal_strlit("off");
        reveal_strlit("no");
    }
    if same(t, "1") || same(t, "true") || same(t, "on") || same(t, "yes") {
        Some(true)
    } else if same(t, "0") || same(t, "false") || same(t, "off") || same(t, "no") {
        Some(false)
    } else {
        None
    }
}

pub open spec fn state_spelling(state: RecordingState) -> Seq<char> {
    match state {
        RecordingState::Stopped => "stopped"@,
        RecordingState::Started => "started"@,
        RecordingState::Paused => "paused"@,
        RecordingState::Unknown => "unknown"@,
    }
}

/// The spelling of a recording state on the wire.
pub fn state_name(state: RecordingState) -> (r: &'static str)
    ensures
        r@ == state_spelling(state),
{
    match state {
        RecordingState::Stopped => "stopped",
        RecordingState::Started => "started",
        RecordingState::Paused => "paused",
        RecordingState::Unknown => "unknown",
    }
}

/// Whether `want`, read in the shape of `observed`, is that value.
pub open spec fn reads_as(want: Seq<char>, observed: ValueModel) -> bool {
    match observed {
        ValueModel::Text(got) => want == got,
        ValueModel::Version(got) => want == got,
        ValueModel::Ack(got) => want == got,
        ValueModel::Port(got) => text::parsed(want, u16::MAX as nat) == Some(got as nat),
        ValueModel::Number(got) => text::parsed(want, u32::MAX as nat) == Some(got as nat),
        ValueModel::Flag(got) => flag_spelled(want) == Some(got),
        ValueModel::Mac(got) => text::lower_all(want) == text::lower_all(got),
        ValueModel::State(got) => text::lower_all(want) == text::lower_all(state_spelling(got)),
        ValueModel::Alarms(_) => false,
    }
}

/// Whether an observed value satisfies an expected one: it is the same value, or
/// the expectation is a text that reads as the value in the value's own shape.
pub open spec fn satisfied(expected: ValueModel, observed: ValueModel) -> bool {
    expected == observed || match expected {
        ValueModel::Text(want) => reads_as(text::trimmed(want), observed),
        _ => false,
    }
}

/// Reads `want` as a value of the shape of `observed`.
fn matches_text(want: &str, observed: &ReadValue) -> (r: bool)
    ensures
        r == reads_as(want@, observed@),
{
    match observed {
        ReadValue::Text(got) => same(want, got.as_str()),
        ReadValue::Version(got) => same(want, got.as_str()),
        ReadValue::Ack(got) => same(want, got.as_str()),
        ReadValue::Port(got) => {
            match parse_uint(chars_of(want).as_slice(), u16::MAX as u64) {
                Some(p) => p == *got as u64,
                None => false,
            }
        },
        ReadValue::Number(got) => {
            match parse_uint(chars_of(want).as_slice(), u32::MAX as u64) {
                Some(n) => n == *got as u64,
                None => false,
            }
        },
        ReadValue::Flag(got) => {
            match flag_of(want) {
                Some(b) => b == *got,
                None => false,
            }
        },
        ReadValue::Mac(got) => same_ignoring_case(want, got.0.as_str()),
        ReadValue::State(got) => same_ignoring_case(want, state_name(*got)),
        ReadValue::Alarms(_) => false,
    }
}

/// Whether `observed` satisfies `expected`.
pub fn satisfies(expected: &ReadValue, observed: &ReadValue) -> (r: bool)
    ensures
        r == satisfied(expected@, observed@),
{
    if expected.same_as(observed) {
        return true;
    }
    match expected {
        ReadValue::Text(want) => {
            let want: String = trim(want.as_str());
            matches_text(want.as_str(), observed)
        },
        _ => false,
    }
}

// ---- laws ------------------------------------------------------------------

/// A device that reports exactly what it was told has done it.
pub proof fn every_value_satisfies_itself(v: ValueModel)
    ensures
        satisfied(v, v),
{
}

/// An expectation that is not a text is satisfied by the same value and no other.
pub proof fn a_typed_expectation_is_exact(expected: ValueModel, observed: ValueModel)
    requires
        !(expected is Text),
    ensures
        satisfied(expected, observed) <==> expected == observed,
{
}

/// The port that a device reports satisfies its decimal form, and that form
/// satisfies no other port.
pub proof fn a_port_satisfies_its_decimal_form(p: u16, q: u16)
    ensures
        satisfied(ValueModel::Text(text::decimal(p as nat)), ValueModel::Port(q)) <==> p == q,
{
    text::decimal_parses(p as nat, u16::MAX as nat);
    text::decimal_reads_back(p as nat);
    assert(text::is_digit(text::decimal(p as nat)[0]));
    assert(text::is_digit(text::decimal(p as nat).last()));
}

/// The number that a device reports satisfies its decimal form, and that form
/// satisfies no other number.
pub proof fn a_number_satisfies_its_decimal_form(n: u32, k: u32)
    ensures
        satisfied(ValueModel::Text(text::decimal(n as nat)), ValueModel::Number(k)) <==> n == k,
{
    text::decimal_parses(n as nat, u32::MAX as nat);
    text::decimal_reads_back(n as nat);
    assert(text::is_digit(text::decimal(n as nat)[0]));
    assert(text::is_digit(text::decimal(n as nat).last()));
}

/// White space around what was asked for, if any.
pub open spec fn blank(s: Seq<char>) -> bool {
    forall|k: int| 0 <= k < s.len() ==> text::is_white(#[trigger] s[k])
}

/// Whether a text has no white space at its ends.
pub open spec fn bare(s: Seq<char>) -> bool {
    s.len() > 0 ==> !text::is_white(s[0]) && !text::is_white(s.last())
}

/// White space around what was asked for does not matter to a value that is not a
/// text itself, nor to a text that has none at its ends.
pub proof fn white_space_around_an_expectation_does_not_matter(
    before: Seq<char>,
    want: Seq<char>,
    after: Seq<char>,
    observed: ValueModel,
)
    requires
        blank(before),
        blank(after),
        bare(want),
        match observed {
            ValueModel::Text(got) => bare(got),
            _ => true,
        },
    ensures
        satisfied(ValueModel::Text(before + want + after), observed) <==> satisfied(
            ValueModel::Text(want),
            observed,
        ),
{
    let none = Seq::<char>::empty();
    text_laws::trimming_takes_the_white_space_around(before, want, after);
    text_laws::trimming_takes_the_white_space_around(none, want, none);
    assert(none + want + none =~= want);
    if let ValueModel::Text(got) = observed {
        if before + want + after == got {
            text_laws::trimming_takes_the_white_space_around(none, got, none);
            assert(none + got + none =~= got);
        }
    }
}

/// Any number, however long, satisfies no other number and no other port, with or
/// without a sign, and none beyond their widths satisfies any.
pub proof fn a_numeral_is_read_exactly(n: nat, p: u16, k: u32)
    ensures
        satisfied(ValueModel::Text(text::decimal(n)), ValueModel::Port(p)) <==> n == p,
        satisfied(ValueModel::Text(text::decimal(n)), ValueModel::Number(k)) <==> n == k,
        satisfied(ValueModel::Text(seq!['+'] + text::decimal(n)), ValueModel::Port(p)) <==> n == p,
        satisfied(ValueModel::Text(seq!['+'] + text::decimal(n)), ValueModel::Number(k)) <==> n
            == k,
        !satisfied(ValueModel::Text(seq!['-'] + text::decimal(n)), ValueModel::Port(p)),
        !satisfied(ValueModel::Text(seq!['-'] + text::decimal(n)), ValueModel::Number(k)),
{
    let d = text::decimal(n);
    let plus = seq!['+'] + d;
    let minus = seq!['-'] + d;
    text::decimal_reads_back(n);
    assert(text::is_digit(d[0]) && text::is_digit(d.last()));
    assert(plus.last() == d.last() && minus.last() == d.last());
    reads_as_is(d);
    reads_as_is(plus);
    reads_as_is(minus);
    text_laws::a_number_is_read_within_its_bound(d, u16::MAX as nat);
    text_laws::a_number_is_read_within_its_bound(d, u32::MAX as nat);
}

proof fn reads_as_is(want: Seq<char>)
    requires
        bare(want),
    ensures
        text::trimmed(want) == want,
{
    let none = Seq::<char>::empty();
    text_laws::trimming_takes_the_white_space_around(none, want, none);
    assert(none + want + none =~= want);
}

/// A text, a version or an acknowledgement satisfies the same text, letter for
/// letter, and no other.
pub proof fn plain_text_is_compared_letter_for_letter(want: Seq<char>, got: Seq<char>)
    requires
        bare(want),
    ensures
        satisfied(ValueModel::Text(want), ValueModel::Text(got)) <==> want == got,
        satisfied(ValueModel::Text(want), ValueModel::Version(got)) <==> want == got,
        satisfied(ValueModel::Text(want), ValueModel::Ack(got)) <==> want == got,
{
    reads_as_is(want);
}

/// Case does not matter to a hardware address; everything else of it does.
pub proof fn a_hardware_address_is_compared_without_case(want: Seq<char>, got: Seq<char>)
    requires
        bare(want),
    ensures
        satisfied(ValueModel::Text(want), ValueModel::Mac(got)) <==> want.len() == got.len()
            && forall|i: int|
            0 <= i < want.len() ==> text::lower(#[trigger] want[i]) == text::lower(got[i]),
{
    reads_as_is(want);
    let a = text::lower_all(want);
    let b = text::lower_all(got);
    if a == b {
        assert(a.len() == want.len() && b.len() == got.len());
        assert forall|i: int| 0 <= i < want.len() implies text::lower(#[trigger] want[i])
            == text::lower(got[i]) by {
            assert(a[i] == b[i]);
        }
    }
    if want.len() == got.len() && forall|i: int|
        0 <= i < want.len() ==> text::lower(#[trigger] want[i]) == text::lower(got[i]) {
        assert(a =~= b);
    }
}

/// The words for true and the words for false, in any case; no other text is a flag.
pub proof fn a_flag_has_four_words_each_way(want: Seq<char>, got: bool)
    requires
        bare(want),
    ensures
        ({
            let w = text::lower_all(want);
            let yes = w == "1"@ || w == "true"@ || w == "on"@ || w == "yes"@;
            let no = w == "0"@ || w == "false"@ || w == "off"@ || w == "no"@;
            &&& !(yes && no)
            &&& satisfied(ValueModel::Text(want), ValueModel::Flag(got)) <==> if got {
                yes
            } else {
                no
            }
        }),
{
    reads_as_is(want);
    reveal_strlit("1");
    reveal_strlit("true");
    reveal_strlit("on");
    reveal_strlit("yes");
    reveal_strlit("0");
    reveal_strlit("false");
    reveal_strlit("off");
    reveal_strlit("no");
    assert("1"@[0] == '1' && "true"@[0] == 't' && "on"@[1] == 'n' && "yes"@[0] == 'y');
    assert("0"@[0] == '0' && "false"@[0] == 'f' && "off"@[1] == 'f' && "no"@[0] == 'n');
    assert("on"@.len() == 2 && "no"@.len() == 2 && "on"@[0] == 'o');
}

/// A recording state satisfies its own word, in any case, and no other word.
pub proof fn a_state_satisfies_its_own_word(want: Seq<char>)
    requires
        bare(want),
    ensures
        ({
            let w = text::lower_all(want);
            let text = ValueModel::Text(want);
            &&& satisfied(text, ValueModel::State(RecordingState::Stopped)) <==> w == "stopped"@
            &&& satisfied(text, ValueModel::State(RecordingState::Started)) <==> w == "started"@
            &&& satisfied(text, ValueModel::State(RecordingState::Paused)) <==> w == "paused"@
            &&& satisfied(text, ValueModel::State(RecordingState::Unknown)) <==> w == "unknown"@
        }),
{
    reads_as_is(want);
    reveal_strlit("stopped");
    reveal_strlit("started");
    reveal_strlit("paused");
    reveal_strlit("unknown");
    assert(text::lower_all("stopped"@) =~= "stopped"@);
    assert(text::lower_all("started"@) =~= "started"@);
    assert(text::lower_all("paused"@) =~= "paused"@);
    assert(text::lower_all("unknown"@) =~= "unknown"@);
}

/// No text satisfies a list of alarms.
pub proof fn no_text_satisfies_alarms(want: Seq<char>, alarms: Seq<crate::api::AlarmModel>)
    ensures
        !satisfied(ValueModel::Text(want), ValueModel::Alarms(alarms)),
{
}

/// A recording command asks for the state it names on the field on which states
/// are observed, and is satisfied by that state alone; any other write asks for the
/// text it writes on the field it writes.
pub proof fn an_intent_asks_for_what_it_names(
    field: Seq<char>,
    value: Seq<char>,
    observed: RecordingState,
)
    ensures
        expectation(IntentModel::StartRecording).0 == "RUNNING_STATE"@,
        expectation(IntentModel::StopRecording).0 == "RUNNING_STATE"@,
        expectation(IntentModel::PauseRecording).0 == "RUNNING_STATE"@,
        satisfied(
            expectation(IntentModel::StartRecording).1,
            ValueModel::State(observed),
        ) <==> observed == RecordingState::Started,
        satisfied(
            expectation(IntentModel::StopRecording).1,
            ValueModel::State(observed),
        ) <==> observed == RecordingState::Stopped,
        satisfied(
            expectation(IntentModel::PauseRecording).1,
            ValueModel::State(observed),
        ) <==> observed == RecordingState::Paused,
        expectation(IntentModel::SetMetadata { field, value }) == (field, ValueModel::Text(value)),
        expectation(IntentModel::SetSetting { field, value }) == (field, ValueModel::Text(value)),
{
}

} // verus!
