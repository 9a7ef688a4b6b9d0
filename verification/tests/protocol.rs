//! The recorder's line protocol.

use sismatic::protocol::commands::Command;
use sismatic::protocol::instructions::{Decode, Instruction, Reply, Step, UnknownInstruction};
use sismatic::protocol::payload_helpers::{esc_cr, esc_rcdr, is_not_cr, normalize, shorten};
use sismatic::protocol::register::{Register, MAX_VALUE_LEN};
use sismatic::protocol::states::RecordingState;
use sismatic::protocol::value::{MacAddr, Value};

#[test]
fn payloads_are_framed() {
    assert_eq!(esc_cr("1CH"), "\x1b1CH\r");
    assert_eq!(esc_rcdr("Y1"), "\x1bY1RCDR\r");
}

#[test]
fn names_are_normalized() {
    assert_eq!(normalize("system-name"), "SYSTEM_NAME");
    assert_eq!(normalize("Ünit"), "ÜNIT");
}

#[test]
fn a_text_is_shortened_by_characters() {
    assert_eq!(shorten("äöü", 2), "äö");
    assert_eq!(shorten("ab", 5), "ab");
    assert_eq!(shorten("ab", 0), "");
}

#[test]
fn only_the_carriage_return_ends_a_line() {
    assert!(is_not_cr('\n'));
    assert!(!is_not_cr('\r'));
}

#[test]
fn state_codes_map_to_states() {
    assert_eq!(RecordingState::from_code(0), RecordingState::Stopped);
    assert_eq!(RecordingState::from_code(1), RecordingState::Started);
    assert_eq!(RecordingState::from_code(2), RecordingState::Paused);
    assert_eq!(RecordingState::from_code(3), RecordingState::Unknown);
    assert_eq!(RecordingState::from_code(-1), RecordingState::Unknown);
    assert!(RecordingState::Started.is_recording());
    assert!(RecordingState::Paused.is_recording());
    assert!(!RecordingState::Stopped.is_recording());
    assert!(!RecordingState::Unknown.is_recording());
    assert_eq!(RecordingState::Paused.name(), "paused");
}

#[test]
fn commands_have_their_names_and_verbs() {
    assert_eq!(Command::all().len(), 3);
    assert_eq!(Command::Start.name(), "STARTRECORDING");
    assert_eq!(Command::Stop.verb(), "Y0");
    assert_eq!(Command::Pause.instruction().payload, "\x1bY2RCDR\r");
    for (text, command) in [
        ("start", Command::Start),
        ("StartRecording", Command::Start),
        ("STOP", Command::Stop),
        ("stoprecording", Command::Stop),
        ("Pause", Command::Pause),
        ("PAUSERECORDING", Command::Pause),
    ] {
        assert_eq!(Command::from_name(text), Ok(command));
    }
    let unknown = Command::from_name("rewind").unwrap_err();
    assert_eq!(unknown, UnknownInstruction("rewind".into()));
    assert_eq!(
        unknown.message(),
        "no built-in instruction named 'rewind'"
    );
}

#[test]
fn every_register_name_reads_back_as_itself() {
    let all = Register::all();
    assert_eq!(all.len(), 16);
    for register in all {
        assert_eq!(Register::from_name(register.name()), Ok(register));
        assert_eq!(
            Register::from_name(&register.name().to_lowercase()),
            Ok(register)
        );
    }
    assert_eq!(
        Register::from_name("system_name"),
        Err(UnknownInstruction("system_name".into()))
    );
    assert_eq!(Register::from_name("systemname"), Ok(Register::SystemName));
}

#[test]
fn registers_have_distinct_addresses() {
    let mut addresses: Vec<u8> = Register::all()
        .into_iter()
        .filter(|r| *r != Register::Creator)
        .map(Register::index)
        .collect();
    addresses.sort();
    assert_eq!(
        addresses,
        [0, 1, 2, 4, 5, 7, 8, 9, 10, 11, 12, 13, 14, 15, 16]
    );
    assert_eq!(Register::Title.reg(), "M13");
}

#[test]
fn a_register_write_is_cut_to_what_the_device_takes() {
    let instr = Register::Title.instruction("Week 4");
    assert_eq!(instr.name, "TITLE");
    assert_eq!(instr.payload, "\x1bM13*Week 4RCDR\r");
    let long = "x".repeat(200);
    let cut = Register::Contributor.instruction(&long);
    assert_eq!(
        cut.payload,
        format!("\x1bM0*{}RCDR\r", "x".repeat(MAX_VALUE_LEN))
    );
}

#[test]
fn echoes_are_read_to_their_end() {
    let start = Command::Start.instruction();
    assert_eq!(start.parse_step("RcdrY1"), Step::NeedMore);
    assert_eq!(
        start.parse_step("RcdrY1\r"),
        Step::Done(Value::Ack("RcdrY1".into()))
    );
    assert_eq!(start.parse_step("RcdrY0\r"), Step::NeedMore);

    let title = Register::Title.instruction("a");
    assert_eq!(title.parse_step("RcdrM13*Week"), Step::NeedMore);
    assert_eq!(
        title.parse_step("RcdrM13*Week 4\r\nmore\r"),
        Step::Done(Value::Text("Week 4".into()))
    );
    assert_eq!(
        title.parse_step("RcdrM13*\r"),
        Step::Done(Value::Text(String::new()))
    );
}

#[test]
fn a_custom_instruction_takes_its_own_parser() {
    let parser = Reply::Echo {
        token: "Ok".into(),
    };
    assert_eq!(
        parser.decode("Ok\r"),
        Step::Done(Value::Ack("Ok".into()))
    );
    let instr = Instruction::custom("PING".into(), "P".into(), parser.clone());
    assert_eq!(instr.name, "PING");
    assert_eq!(instr.payload, "P");
    assert_eq!(
        instr.parse_step("Ok\rrest"),
        Step::Done(Value::Ack("Ok".into()))
    );
}

#[test]
fn a_hardware_address_is_hyphenated() {
    assert_eq!(
        MacAddr([0x00, 0x05, 0xA6, 0x1B, 0x2C, 0x3D]).rendered(),
        "00-05-A6-1B-2C-3D"
    );
    assert_eq!(Value::Flag(true).as_state(), None);
    assert_eq!(
        Value::State(RecordingState::Paused).as_state(),
        Some(RecordingState::Paused)
    );
}
