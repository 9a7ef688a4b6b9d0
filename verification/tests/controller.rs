//! One exchange over an open channel.

use sismatic::devices::controller::{valid_prefix, Controller, ControllerError, Event, Next};
use sismatic::devices::transport::{admitted, connect_error, io_error, ConnectError, TransportError};
use sismatic::protocol::commands::Command;
use sismatic::protocol::instructions::{Instruction, Reply};
use sismatic::protocol::register::Register;
use sismatic::protocol::value::Value;
use sismatic::time::Duration;

/// Plays an exchange in which these pieces arrive, one read each, and the channel
/// then closes.
fn run(
    controller: &Controller,
    instruction: &Instruction<Reply>,
    pieces: &[&[u8]],
) -> Result<Value, ControllerError> {
    let mut received = controller.begin();
    match controller.advance(instruction, &mut received, Event::Written(Ok(()))) {
        Next::Read => {}
        Next::Finish(outcome) => return outcome,
    }
    for piece in pieces {
        match controller.advance(
            instruction,
            &mut received,
            Event::Received(Ok(piece.to_vec())),
        ) {
            Next::Read => {}
            Next::Finish(outcome) => return outcome,
        }
    }
    match controller.advance(instruction, &mut received, Event::Received(Ok(Vec::new()))) {
        Next::Finish(outcome) => outcome,
        Next::Read => panic!("a closed channel ends the exchange"),
    }
}

fn controller(timeout_ms: u64) -> Controller {
    Controller::new(Duration::from_millis(timeout_ms))
}

#[test]
fn runs_instruction_and_writes_payload() {
    let instr = Command::Start.instruction();
    assert_eq!(instr.payload, "\x1bY1RCDR\r");
    assert_eq!(
        run(&controller(500), &instr, &[b"RcdrY1\r\n"]),
        Ok(Value::Ack("RcdrY1".into()))
    );
}

#[test]
fn tolerates_a_reply_arriving_one_byte_at_a_time() {
    let instr = Register::Title.instruction("Übung");
    let reply = "RcdrM13*Übung\r\n".as_bytes();
    let pieces: Vec<&[u8]> = reply.chunks(1).collect();
    assert_eq!(
        run(&controller(500), &instr, &pieces),
        Ok(Value::Text("Übung".into()))
    );
}

#[test]
fn times_out_when_no_complete_reply_arrives() {
    let instr = Command::Stop.instruction();
    let controller = controller(20);
    let mut received = controller.begin();
    assert_eq!(
        controller.advance(
            &instr,
            &mut received,
            Event::Received(Ok(b"RcdrY".to_vec()))
        ),
        Next::Read
    );
    let outcome = controller.advance(&instr, &mut received, Event::Elapsed);
    assert_eq!(
        outcome,
        Next::Finish(Err(ControllerError::Timeout {
            instruction: instr.name.clone(),
            after: Duration::from_millis(20),
        }))
    );
}

#[test]
fn errors_when_channel_closes_before_completion() {
    let instr = Command::Stop.instruction();
    assert_eq!(
        run(&controller(500), &instr, &[b"RcdrY"]),
        Err(ControllerError::ConnectionClosed {
            instruction: instr.name.clone(),
        })
    );
}

#[test]
fn a_failing_channel_ends_the_exchange() {
    let instr = Command::Pause.instruction();
    let controller = controller(500);
    let mut received = controller.begin();
    let expected = ControllerError::Transport {
        instruction: "PAUSERECORDING".into(),
        source: TransportError::Io("reset".into()),
    };
    assert_eq!(
        expected.message(),
        "`PAUSERECORDING`: transport i/o error: reset"
    );
    assert_eq!(
        controller.advance(
            &instr,
            &mut received,
            Event::Written(Err(io_error("reset".into())))
        ),
        Next::Finish(Err(expected))
    );
    assert!(matches!(
        controller.advance(
            &instr,
            &mut received,
            Event::Received(Err(io_error("reset".into())))
        ),
        Next::Finish(Err(ControllerError::Transport { .. }))
    ));
}

#[test]
fn an_error_says_what_happened() {
    let timeout = ControllerError::Timeout {
        instruction: "FIRMWARE".into(),
        after: Duration::from_millis(20),
    };
    assert_eq!(timeout.message(), "`FIRMWARE` timed out after 20ms");
    let closed = ControllerError::ConnectionClosed {
        instruction: "FIRMWARE".into(),
    };
    assert_eq!(closed.message(), "channel closed during `FIRMWARE`");
    let rejected = ControllerError::Rejected {
        instruction: "FIRMWARE".into(),
        code: 13,
    };
    assert_eq!(rejected.message(), "`FIRMWARE` was refused with code 13");
}

#[test]
fn a_character_that_has_not_arrived_whole_is_held_back() {
    let bytes = "aü€b".as_bytes();
    assert_eq!(valid_prefix(bytes), "aü€b");
    assert_eq!(valid_prefix(&bytes[..2]), "a");
    assert_eq!(valid_prefix(&bytes[..3]), "aü");
    assert_eq!(valid_prefix(&bytes[..5]), "aü");
    assert_eq!(valid_prefix(b"ab\xffcd"), "ab");
    assert_eq!(valid_prefix(b""), "");
}

#[test]
fn a_raw_instruction_reads_until_its_terminator() {
    let instr = Instruction::raw_until("RAW".into(), "I".into(), "\r\n".into());
    assert_eq!(
        run(&controller(500), &instr, &[b"one", b" two\r", b"\nrest"]),
        Ok(Value::Text("one two\r\nrest".into()))
    );
    let at_once = Instruction::raw_until("RAW".into(), "I".into(), String::new());
    assert_eq!(
        run(&controller(500), &at_once, &[b"x"]),
        Ok(Value::Text("x".into()))
    );
}

#[test]
fn a_rejected_password_fails_the_dial() {
    assert_eq!(admitted(true), Ok(()));
    assert_eq!(
        admitted(false),
        Err(ConnectError::Failed(
            "password authentication rejected".into()
        ))
    );
    assert_eq!(
        connect_error("no route".into()),
        ConnectError::Failed("no route".into())
    );
}
