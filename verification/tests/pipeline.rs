//! The frame reader and the demultiplexer: reassembly, classification,
//! ordering, and the transport bind policy.

use qtest_socket::demux::{process_block, Event};
use qtest_socket::frame::{FrameReader, ReadEvent, ReadStep};
use qtest_socket::socket::{unix_bind_action, BindAction, BindOutcome};
use qtest_socket::{Irq, IrqState, Response};

#[test]
fn a_response_split_across_two_deliveries_is_reassembled() {
    let mut reader = FrameReader::new();
    assert!(!reader.push_chunk("OK "));
    assert!(reader.push_chunk("1\n"));
    assert_eq!(reader.take_frame(), "OK 1\n");
}

#[test]
fn the_reader_hands_out_whole_frames_and_stops_on_close() {
    let mut reader = FrameReader::new();
    assert!(matches!(reader.on_event(ReadEvent::Data("OK ".to_string())), ReadStep::Pending));
    match reader.on_event(ReadEvent::Data("1\n".to_string())) {
        ReadStep::Frame(f) => assert_eq!(f, "OK 1\n"),
        _ => panic!("expected a frame"),
    }
    assert!(matches!(reader.on_event(ReadEvent::Closed), ReadStep::Stop));
    assert!(matches!(reader.on_event(ReadEvent::Failed), ReadStep::Stop));
}

#[test]
fn a_plain_response_block_yields_one_reply() {
    let events = process_block("OK 5\n");
    assert_eq!(events, vec![Event::Reply(Response::OkVal("5".to_string()))]);
}

#[test]
fn interrupts_and_responses_keep_line_order() {
    let events = process_block("IRQ raise 1\nIRQ lower 2\nOK 5\n");
    assert_eq!(events.len(), 3);
    assert_eq!(events[0], Event::Interrupt(Irq::new(1, IrqState::Raise)));
    assert_eq!(events[1], Event::Interrupt(Irq::new(2, IrqState::Lower)));
    // the response record is decoded from the whole block, not the line:
    // kept as the protocol's callers expect it
    assert_eq!(
        events[2],
        Event::Reply(Response::Error("IRQ raise 1\nIRQ lower 2\nOK 5\n".to_string()))
    );
}

#[test]
fn blank_lines_and_nul_padding_are_dropped() {
    let events = process_block("\0\0\nOK\n\0\0");
    assert_eq!(events, vec![Event::Reply(Response::Okay)]);
}

#[test]
fn unix_bind_retries_exactly_once_on_a_stale_path() {
    assert_eq!(unix_bind_action(true, &BindOutcome::Bound), BindAction::Ready);
    assert_eq!(unix_bind_action(true, &BindOutcome::AddrInUse), BindAction::RemoveAndRetry);
    assert_eq!(unix_bind_action(false, &BindOutcome::AddrInUse), BindAction::Fail);
    assert_eq!(unix_bind_action(true, &BindOutcome::OtherError), BindAction::Fail);
    assert_eq!(unix_bind_action(false, &BindOutcome::Bound), BindAction::Ready);
}
