//! The wire protocol as the device defines it: the numbers, words and shapes that
//! commands, registers and replies have on the line.

use vstd::prelude::*;
use vstd::string::*;
use crate::protocol::commands::Command;
use crate::protocol::instructions::{collected, echoed, line_of, setting_echoed, stands_at};
use crate::protocol::payload_helpers::{
    first_chars, framed, normal, normal_all, CR, RCDR, RCDR_LOWER,
};
use crate::protocol::register::{Register, MAX_VALUE_LEN};
use crate::protocol::states::RecordingState;
use crate::protocol::value::{hex_byte, hex_digit, hyphenated, DecodedModel};
use crate::text;

verus! {

// ---- registers -------------------------------------------------------------

/// Each register stands at its own number on the device, and all but the
/// creator's can be written.
pub proof fn each_register_has_its_address()
    ensures
        Register::Contributor.address() == 0,
        Register::Coverage.address() == 1,
        Register::Presenter.address() == 2,
        Register::Description.address() == 4,
        Register::Format.address() == 5,
        Register::Language.address() == 7,
        Register::Publisher.address() == 8,
        Register::Relation.address() == 9,
        Register::Rights.address() == 10,
        Register::Source.address() == 11,
        Register::Subject.address() == 12,
        Register::Title.address() == 13,
        Register::Type.address() == 14,
        Register::SystemName.address() == 15,
        Register::Course.address() == 16,
        forall|x: Register| #[trigger] x.addressed() <==> x != Register::Creator,
{
}

proof fn one_digit(n: nat)
    requires
        n < 10,
    ensures
        text::decimal(n) == seq![((48 + n) as u32) as char],
{
}

proof fn two_digits(n: nat)
    requires
        10 <= n < 20,
    ensures
        text::decimal(n) == seq!['1', ((38 + n) as u32) as char],
{
    reveal_with_fuel(text::decimal, 2);
    assert(n / 10 == 1 && n % 10 == n - 10);
    assert(text::decimal(n) =~= seq!['1', ((38 + n) as u32) as char]);
}

/// Each register's address as it is written in a command and in its echo.
pub proof fn each_register_is_addressed_in_text()
    ensures
        Register::Contributor.address_text() == "M0"@,
        Register::Coverage.address_text() == "M1"@,
        Register::Presenter.address_text() == "M2"@,
        Register::Description.address_text() == "M4"@,
        Register::Format.address_text() == "M5"@,
        Register::Language.address_text() == "M7"@,
        Register::Publisher.address_text() == "M8"@,
        Register::Relation.address_text() == "M9"@,
        Register::Rights.address_text() == "M10"@,
        Register::Source.address_text() == "M11"@,
        Register::Subject.address_text() == "M12"@,
        Register::Title.address_text() == "M13"@,
        Register::Type.address_text() == "M14"@,
        Register::SystemName.address_text() == "M15"@,
        Register::Course.address_text() == "M16"@,
{
    reveal_strlit("M");
    reveal_strlit("M0");
    reveal_strlit("M1");
    reveal_strlit("M2");
    reveal_strlit("M4");
    reveal_strlit("M5");
    reveal_strlit("M7");
    reveal_strlit("M8");
    reveal_strlit("M9");
    reveal_strlit("M10");
    reveal_strlit("M11");
    reveal_strlit("M12");
    reveal_strlit("M13");
    reveal_strlit("M14");
    reveal_strlit("M15");
    reveal_strlit("M16");
    one_digit(0);
    one_digit(1);
    one_digit(2);
    one_digit(4);
    one_digit(5);
    one_digit(7);
    one_digit(8);
    one_digit(9);
    two_digits(10);
    two_digits(11);
    two_digits(12);
    two_digits(13);
    two_digits(14);
    two_digits(15);
    two_digits(16);
    assert(Register::Contributor.address_text() =~= "M0"@);
    assert(Register::Coverage.address_text() =~= "M1"@);
    assert(Register::Presenter.address_text() =~= "M2"@);
    assert(Register::Description.address_text() =~= "M4"@);
    assert(Register::Format.address_text() =~= "M5"@);
    assert(Register::Language.address_text() =~= "M7"@);
    assert(Register::Publisher.address_text() =~= "M8"@);
    assert(Register::Relation.address_text() =~= "M9"@);
    assert(Register::Rights.address_text() =~= "M10"@);
    assert(Register::Source.address_text() =~= "M11"@);
    assert(Register::Subject.address_text() =~= "M12"@);
    assert(Register::Title.address_text() =~= "M13"@);
    assert(Register::Type.address_text() =~= "M14"@);
    assert(Register::SystemName.address_text() =~= "M15"@);
    assert(Register::Course.address_text() =~= "M16"@);
}

/// What writing `value` to the register at `address` puts on the line: the escape,
/// the address, an asterisk, the value, the recorder's suffix and a carriage
/// return. A value of at most 127 characters is written whole, and of a longer one
/// the first 127.
pub proof fn a_register_write_on_the_line(address: Seq<char>, value: Seq<char>)
    ensures
        value.len() <= 127 ==> framed(
            address + "*"@ + first_chars(value, MAX_VALUE_LEN as nat) + RCDR@,
        ) == "\x1b"@ + address + "*"@ + value + "RCDR\r"@,
        value.len() > 127 ==> framed(
            address + "*"@ + first_chars(value, MAX_VALUE_LEN as nat) + RCDR@,
        ) == "\x1b"@ + address + "*"@ + value.subrange(0, 127) + "RCDR\r"@,
{
    reveal_strlit("\x1b");
    reveal_strlit("*");
    reveal_strlit("RCDR");
    reveal_strlit("RCDR\r");
    let cut = if value.len() <= 127 {
        value
    } else {
        value.subrange(0, 127)
    };
    assert(first_chars(value, MAX_VALUE_LEN as nat) =~= cut);
    assert(framed(address + "*"@ + cut + RCDR@) =~= "\x1b"@ + address + "*"@ + cut + "RCDR\r"@);
}

/// Each register has its name in the catalog.
pub proof fn each_register_has_its_name()
    ensures
        Register::Contributor.spelling() == "CONTRIBUTOR"@,
        Register::Course.spelling() == "COURSE"@,
        Register::Coverage.spelling() == "COVERAGE"@,
        Register::Creator.spelling() == "CREATOR"@,
        Register::Description.spelling() == "DESCRIPTION"@,
        Register::Format.spelling() == "FORMAT"@,
        Register::Language.spelling() == "LANGUAGE"@,
        Register::Presenter.spelling() == "PRESENTER"@,
        Register::Publisher.spelling() == "PUBLISHER"@,
        Register::Relation.spelling() == "RELATION"@,
        Register::Rights.spelling() == "RIGHTS"@,
        Register::Source.spelling() == "SOURCE"@,
        Register::Subject.spelling() == "SUBJECT"@,
        Register::SystemName.spelling() == "SYSTEMNAME"@,
        Register::Title.spelling() == "TITLE"@,
        Register::Type.spelling() == "TYPE"@,
{
}

/// The echo of a register write: the recorder's prefix, the address, an asterisk,
/// and the value up to a carriage return, whatever follows it.
pub proof fn a_register_echo_gives_its_value_back(
    address: Seq<char>,
    value: Seq<char>,
    rest: Seq<char>,
)
    requires
        !value.contains('\r'),
    ensures
        setting_echoed(
            RCDR_LOWER@ + address + "*"@,
            "Rcdr"@ + address + "*"@ + value + seq!['\r'] + rest,
        ) == Some(DecodedModel::Text(value)),
{
    a_setting_echo_gives_its_value_back("Rcdr"@ + address + "*"@, value, rest);
}

// ---- commands --------------------------------------------------------------

/// Each command on the line, and the echo that answers it.
pub proof fn each_command_on_the_line()
    ensures
        framed(Command::Stop.verb_text() + RCDR@) == "\x1bY0RCDR\r"@,
        framed(Command::Start.verb_text() + RCDR@) == "\x1bY1RCDR\r"@,
        framed(Command::Pause.verb_text() + RCDR@) == "\x1bY2RCDR\r"@,
        RCDR_LOWER@ + Command::Stop.verb_text() == "RcdrY0"@,
        RCDR_LOWER@ + Command::Start.verb_text() == "RcdrY1"@,
        RCDR_LOWER@ + Command::Pause.verb_text() == "RcdrY2"@,
        Command::Stop.spelling() == "STOPRECORDING"@,
        Command::Start.spelling() == "STARTRECORDING"@,
        Command::Pause.spelling() == "PAUSERECORDING"@,
{
    reveal_strlit("\x1b");
    reveal_strlit("RCDR");
    reveal_strlit("Rcdr");
    reveal_strlit("Y0");
    reveal_strlit("Y1");
    reveal_strlit("Y2");
    reveal_strlit("\x1bY0RCDR\r");
    reveal_strlit("\x1bY1RCDR\r");
    reveal_strlit("\x1bY2RCDR\r");
    reveal_strlit("RcdrY0");
    reveal_strlit("RcdrY1");
    reveal_strlit("RcdrY2");
    assert(framed(Command::Stop.verb_text() + RCDR@) =~= "\x1bY0RCDR\r"@);
    assert(framed(Command::Start.verb_text() + RCDR@) =~= "\x1bY1RCDR\r"@);
    assert(framed(Command::Pause.verb_text() + RCDR@) =~= "\x1bY2RCDR\r"@);
    assert(RCDR_LOWER@ + Command::Stop.verb_text() =~= "RcdrY0"@);
    assert(RCDR_LOWER@ + Command::Start.verb_text() =~= "RcdrY1"@);
    assert(RCDR_LOWER@ + Command::Pause.verb_text() =~= "RcdrY2"@);
}

/// The digit of a command's verb is the code of the state that it asks for.
pub proof fn a_verb_carries_the_code_of_its_state(c: Command, code: nat)
    requires
        c.verb_text() == "Y"@ + text::decimal(code),
    ensures
        c == Command::Stop <==> RecordingState::of_code(code as int) == RecordingState::Stopped,
        c == Command::Start <==> RecordingState::of_code(code as int) == RecordingState::Started,
        c == Command::Pause <==> RecordingState::of_code(code as int) == RecordingState::Paused,
{
    reveal_strlit("Y");
    reveal_strlit("Y0");
    reveal_strlit("Y1");
    reveal_strlit("Y2");
    let d = text::decimal(code);
    let t = "Y"@ + d;
    assert(t.len() == 2);
    if code >= 10 {
        text::decimal_reads_back(code / 10);
        assert(d.len() >= 2);
    }
    assert(t[1] == d[0]);
    assert(t[1] == '0' || t[1] == '1' || t[1] == '2');
}

/// The names of a command: the short one and the long one, and no other.
pub proof fn a_command_has_two_names(name: Seq<char>)
    ensures
        Command::named(name) == Some(Command::Start) <==> name == "START"@ || name
            == "STARTRECORDING"@,
        Command::named(name) == Some(Command::Stop) <==> name == "STOP"@ || name
            == "STOPRECORDING"@,
        Command::named(name) == Some(Command::Pause) <==> name == "PAUSE"@ || name
            == "PAUSERECORDING"@,
{
    reveal_strlit("START");
    reveal_strlit("STOP");
    reveal_strlit("PAUSE");
    reveal_strlit("STARTRECORDING");
    reveal_strlit("STOPRECORDING");
    reveal_strlit("PAUSERECORDING");
    assert("START"@[2] == 'A' && "STARTRECORDING"@[2] == 'A');
    assert("STOP"@[2] == 'O' && "STOPRECORDING"@[2] == 'O');
    assert("PAUSE"@[2] == 'U' && "PAUSERECORDING"@[2] == 'U');
}

/// The name that a command goes by leads back to it.
pub proof fn a_command_is_found_by_its_name(c: Command)
    ensures
        Command::named(c.spelling()) == Some(c),
{
    a_command_has_two_names(c.spelling());
}

// ---- names -----------------------------------------------------------------

/// A name is read character by character: a hyphen is an underscore, a small
/// letter of ASCII the capital, and everything else itself.
pub proof fn a_name_is_read_character_by_character(s: Seq<char>, i: int)
    requires
        0 <= i < s.len(),
    ensures
        normal_all(s).len() == s.len(),
        s[i] == '-' ==> normal_all(s)[i] == '_',
        97 <= s[i] as u32 <= 122 ==> normal_all(s)[i] as u32 + 32 == s[i] as u32,
        s[i] != '-' && !(97 <= s[i] as u32 <= 122) ==> normal_all(s)[i] == s[i],
{
}

/// Two names that differ in ASCII case alone, or in a hyphen for an underscore,
/// are one name; and reading a name twice changes nothing.
pub proof fn case_and_hyphens_do_not_matter(s: Seq<char>, t: Seq<char>)
    requires
        s.len() == t.len(),
        forall|i: int|
            0 <= i < s.len() ==> #[trigger] s[i] == t[i] || text::upper(s[i]) == t[i] || (s[i] == '-'
                && t[i] == '_'),
    ensures
        normal_all(s) == normal_all(t),
        normal_all(normal_all(s)) == normal_all(s),
{
    assert forall|i: int| 0 <= i < s.len() implies #[trigger] normal_all(s)[i] == normal_all(
        t,
    )[i] by {
        let c = s[i];
        assert(normal(normal(c)) == normal(c));
        assert(normal(text::upper(c)) == normal(c));
    }
    assert(normal_all(s) =~= normal_all(t));
    assert(normal_all(normal_all(s)) =~= normal_all(s));
}

// ---- replies ---------------------------------------------------------------

/// What stands before the first carriage return is the line, and a text without
/// one has none yet.
pub proof fn a_line_ends_at_the_first_carriage_return(line: Seq<char>, rest: Seq<char>)
    requires
        !line.contains('\r'),
    ensures
        line_of(line) is None,
        line_of(line + seq!['\r'] + rest) == Some(line),
    decreases line.len(),
{
    let whole = line + seq!['\r'] + rest;
    if line.len() == 0 {
        assert(whole[0] == '\r');
    } else {
        let tail = line.skip(1);
        assert forall|j: int| 0 <= j < tail.len() implies tail[j] != '\r' by {
            assert(line.contains(line[j + 1]));
        }
        assert(line.contains(line[0]));
        a_line_ends_at_the_first_carriage_return(tail, rest);
        assert(whole.skip(1) =~= tail + seq!['\r'] + rest);
        assert(whole[0] == line[0]);
        assert(seq![line[0]] + tail =~= line);
    }
}

/// A command's echo is its token and a carriage return at the start of what has
/// arrived: with them it is acknowledged, and without them it is not.
pub proof fn an_echo_acknowledges_its_token(token: Seq<char>, buffer: Seq<char>)
    ensures
        echoed(token, buffer) is Some <==> token.push('\r').is_prefix_of(buffer),
        echoed(token, buffer) is Some ==> echoed(token, buffer) == Some(DecodedModel::Ack(token)),
{
    let line = token + seq![CR];
    assert(line =~= token.push('\r'));
    if line.len() <= buffer.len() {
        if line.is_prefix_of(buffer) {
            assert(line =~= buffer.subrange(0, line.len() as int));
        }
    }
}

/// The echo of a setting gives the value back that stands between its head and the
/// first carriage return, and before that return has arrived it gives nothing.
pub proof fn a_setting_echo_gives_its_value_back(
    head: Seq<char>,
    value: Seq<char>,
    rest: Seq<char>,
)
    requires
        !value.contains('\r'),
    ensures
        setting_echoed(head, head + value + seq!['\r'] + rest) == Some(DecodedModel::Text(value)),
        setting_echoed(head, head + value) is None,
{
    let whole = head + value + seq!['\r'] + rest;
    let n = head.len() as int;
    assert(whole.subrange(0, n) =~= head);
    assert((head + value).subrange(0, n) =~= head);
    assert(whole.skip(n) =~= value + seq!['\r'] + rest);
    assert((head + value).skip(n) =~= value);
    a_line_ends_at_the_first_carriage_return(value, rest);
}

/// A reply that does not start with the head of a setting's echo is none.
pub proof fn another_head_is_no_echo(head: Seq<char>, buffer: Seq<char>)
    requires
        !head.is_prefix_of(buffer),
    ensures
        setting_echoed(head, buffer) is None,
{
    if stands_at(buffer, head, 0) {
        assert(head =~= buffer.subrange(0, head.len() as int));
    }
}

/// A reply that is read up to a terminator is complete once the terminator has
/// arrived, wherever it stands, and not before.
pub proof fn a_collected_reply_waits_for_its_terminator(
    before: Seq<char>,
    terminator: Seq<char>,
    after: Seq<char>,
    short: Seq<char>,
)
    requires
        terminator.len() > 0,
        short.len() < terminator.len(),
    ensures
        collected(terminator, before + terminator + after) == Some(
            DecodedModel::Text(before + terminator + after),
        ),
        collected(terminator, short) is None,
        collected(Seq::empty(), short) == Some(DecodedModel::Text(short)),
{
    let whole = before + terminator + after;
    let at = before.len() as int;
    assert(whole.subrange(at, at + terminator.len()) =~= terminator);
    assert(stands_at(whole, terminator, at));
}

// ---- states ----------------------------------------------------------------

/// The codes of the recording states, and the words for them.
pub proof fn each_state_has_its_code_and_word()
    ensures
        RecordingState::of_code(0) == RecordingState::Stopped,
        RecordingState::of_code(1) == RecordingState::Started,
        RecordingState::of_code(2) == RecordingState::Paused,
        forall|code: int|
            code < 0 || code > 2 ==> #[trigger] RecordingState::of_code(code)
                == RecordingState::Unknown,
        RecordingState::Stopped.spelling() == "stopped"@,
        RecordingState::Started.spelling() == "started"@,
        RecordingState::Paused.spelling() == "paused"@,
        RecordingState::Unknown.spelling() == "unknown"@,
{
}

// ---- hardware addresses ----------------------------------------------------

/// The value of a hexadecimal digit in upper case, if it is one.
pub open spec fn hex_value(c: char) -> Option<int> {
    if '0' <= c <= '9' {
        Some(c as u32 - '0' as u32)
    } else if 'A' <= c <= 'F' {
        Some(c as u32 - 'A' as u32 + 10)
    } else {
        None
    }
}

/// A hexadecimal digit reads back as its number.
pub proof fn a_hex_digit_reads_back(n: int)
    requires
        0 <= n < 16,
    ensures
        hex_value(hex_digit(n)) == Some(n),
{
}

proof fn hyphenated_places(bytes: Seq<u8>, i: int)
    requires
        0 <= i < bytes.len(),
    ensures
        ({
            let t = hyphenated(bytes);
            &&& t.len() == 3 * bytes.len() - 1
            &&& hex_value(t[3 * i]) == Some(bytes[i] as int / 16)
            &&& hex_value(t[3 * i + 1]) == Some(bytes[i] as int % 16)
            &&& i + 1 < bytes.len() ==> t[3 * i + 2] == '-'
        }),
    decreases bytes.len(),
{
    let t = hyphenated(bytes);
    a_hex_digit_reads_back(bytes[i] as int / 16);
    a_hex_digit_reads_back(bytes[i] as int % 16);
    if bytes.len() > 1 {
        let shorter = bytes.drop_last();
        let u = hyphenated(shorter);
        if i < shorter.len() {
            hyphenated_places(shorter, i);
            assert(t[3 * i] == u[3 * i] && t[3 * i + 1] == u[3 * i + 1]);
            if i + 1 < shorter.len() {
                assert(t[3 * i + 2] == u[3 * i + 2]);
            }
        } else {
            hyphenated_places(shorter, 0);
            assert(t[3 * i] == hex_byte(bytes.last())[0]);
            assert(t[3 * i + 1] == hex_byte(bytes.last())[1]);
        }
    }
}

/// A hardware address is written byte by byte, each as two hexadecimal digits in
/// upper case, the high one first, with a hyphen between one byte and the next.
pub proof fn a_hardware_address_reads_back(bytes: Seq<u8>, i: int)
    requires
        0 <= i < bytes.len(),
    ensures
        hyphenated(bytes).len() == 3 * bytes.len() - 1,
        hex_value(hyphenated(bytes)[3 * i]) is Some,
        hex_value(hyphenated(bytes)[3 * i + 1]) is Some,
        hex_value(hyphenated(bytes)[3 * i])->0 * 16 + hex_value(hyphenated(bytes)[3 * i + 1])->0
            == bytes[i],
        i + 1 < bytes.len() ==> hyphenated(bytes)[3 * i + 2] == '-',
{
    hyphenated_places(bytes, i);
}

} // verus!
