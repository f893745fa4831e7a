use ls_proxy::inspector::{empty_inspector, message_parser_inspector, Inspector};
use ls_proxy::parser::framing::ParseFault;
use ls_proxy::pump::{
    event_of_failure, Action, Event, FailureKind, Outcome, Phase, Pump, StreamFault,
};

fn relay(inspector: Inspector, reads: &[&[u8]]) -> (Vec<u8>, Vec<String>, Pump) {
    let mut pump = Pump::new(inspector);
    let mut sink = Vec::new();
    let mut texts = Vec::new();
    for chunk in reads {
        let reaction = pump.step(Event::Read(chunk.to_vec()));
        for message in reaction.messages {
            texts.push(message.payload);
        }
        match reaction.action {
            Action::Write(bytes) => {
                sink.extend_from_slice(&bytes);
                assert_eq!(pump.step(Event::Written).action, Action::Flush);
                assert_eq!(pump.step(Event::Flushed).action, Action::Read);
            }
            Action::Retry => assert!(chunk.is_empty()),
            other => panic!("unexpected action {:?}", other),
        }
    }
    (sink, texts, pump)
}

#[test]
fn new_pump_waits_for_a_read() {
    let pump = Pump::new(empty_inspector());
    assert_eq!(pump.phase(), Phase::Reading);
    assert_eq!(pump.outcome(), None);
    assert_eq!(pump.protocol_fault(), None);
}

#[test]
fn chunk_is_written_unchanged_then_flushed() {
    let mut pump = Pump::new(message_parser_inspector());
    let reaction = pump.step(Event::Read(vec![1, 2, 3]));
    assert_eq!(reaction.action, Action::Write(vec![1, 2, 3]));
    assert_eq!(reaction.messages.len(), 0);
    assert_eq!(pump.phase(), Phase::Writing);
    assert_eq!(pump.step(Event::Written).action, Action::Flush);
    assert_eq!(pump.phase(), Phase::Flushing);
    assert_eq!(pump.step(Event::Flushed).action, Action::Read);
    assert_eq!(pump.phase(), Phase::Reading);
}

#[test]
fn relayed_bytes_equal_the_bytes_read_however_they_are_cut() {
    let stream = "Content-Length: 5\r\n\r\nhelloContent-Length: 2\r\n\r\nhi and filler";
    let bytes = stream.as_bytes();
    for size in 1..=bytes.len() {
        let reads: Vec<&[u8]> = bytes.chunks(size).collect();
        let (sink, texts, pump) = relay(message_parser_inspector(), &reads);
        assert_eq!(sink, bytes, "size {}", size);
        assert_eq!(texts, vec!["hello".to_string(), "hi".to_string()], "size {}", size);
        assert_eq!(pump.phase(), Phase::Reading);
    }
}

#[test]
fn relay_does_not_depend_on_the_inspector() {
    let reads: Vec<&[u8]> = vec![b"Content-Length: x", b"", b"more", b"Content-Length: 1\n\na"];
    let (parsed_sink, _, parsed_pump) = relay(message_parser_inspector(), &reads);
    let (silent_sink, silent_texts, silent_pump) = relay(empty_inspector(), &reads);
    assert_eq!(parsed_sink, silent_sink);
    assert_eq!(parsed_sink, b"Content-Length: xmoreContent-Length: 1\n\na".to_vec());
    assert_eq!(silent_texts.len(), 0);
    assert_eq!(parsed_pump.protocol_fault(), Some(ParseFault::MissingLength));
    assert_eq!(silent_pump.protocol_fault(), None);
}

#[test]
fn empty_read_is_tried_again() {
    let mut pump = Pump::new(message_parser_inspector());
    let reaction = pump.step(Event::Read(Vec::new()));
    assert_eq!(reaction.action, Action::Retry);
    assert_eq!(reaction.messages.len(), 0);
    assert_eq!(pump.phase(), Phase::Reading);
    assert_eq!(pump.outcome(), None);
}

#[test]
fn end_of_stream_ends_the_pump() {
    let mut pump = Pump::new(empty_inspector());
    assert_eq!(pump.step(Event::EndOfStream).action, Action::Stop(Outcome::EndOfStream));
    assert_eq!(pump.phase(), Phase::Done(Outcome::EndOfStream));
    assert_eq!(pump.outcome(), Some(Outcome::EndOfStream));
}

#[test]
fn sink_closing_ends_the_pump() {
    let mut pump = Pump::new(empty_inspector());
    let _ = pump.step(Event::Read(vec![1]));
    assert_eq!(pump.step(Event::EndOfStream).action, Action::Stop(Outcome::EndOfStream));
    let mut pump = Pump::new(empty_inspector());
    let _ = pump.step(Event::Read(vec![1]));
    let _ = pump.step(Event::Written);
    assert_eq!(pump.step(Event::EndOfStream).action, Action::Stop(Outcome::EndOfStream));
}

#[test]
fn failed_read_ends_the_pump() {
    let mut pump = Pump::new(empty_inspector());
    assert_eq!(
        pump.step(Event::ReadFailed).action,
        Action::Stop(Outcome::Failed(StreamFault::Read))
    );
    assert_eq!(pump.outcome(), Some(Outcome::Failed(StreamFault::Read)));
}

#[test]
fn failed_write_ends_the_pump() {
    let mut pump = Pump::new(empty_inspector());
    let _ = pump.step(Event::Read(vec![7]));
    assert_eq!(
        pump.step(Event::WriteFailed).action,
        Action::Stop(Outcome::Failed(StreamFault::Write))
    );
    assert_eq!(pump.outcome(), Some(Outcome::Failed(StreamFault::Write)));
}

#[test]
fn failed_flush_ends_the_pump() {
    let mut pump = Pump::new(empty_inspector());
    let _ = pump.step(Event::Read(vec![7]));
    let _ = pump.step(Event::Written);
    assert_eq!(
        pump.step(Event::FlushFailed).action,
        Action::Stop(Outcome::Failed(StreamFault::Flush))
    );
    assert_eq!(pump.outcome(), Some(Outcome::Failed(StreamFault::Flush)));
}

#[test]
fn cancel_while_reading_stops_without_a_write() {
    let mut pump = Pump::new(message_parser_inspector());
    let reaction = pump.step(Event::Cancelled);
    assert_eq!(reaction.action, Action::Stop(Outcome::Cancelled));
    assert_eq!(pump.outcome(), Some(Outcome::Cancelled));
    let late = pump.step(Event::Read(vec![1, 2, 3]));
    assert_eq!(late.action, Action::Stop(Outcome::Cancelled));
    assert_eq!(late.messages.len(), 0);
}

#[test]
fn cancel_while_writing_lets_the_chunk_through() {
    let mut pump = Pump::new(empty_inspector());
    assert_eq!(pump.step(Event::Read(vec![9, 9])).action, Action::Write(vec![9, 9]));
    assert_eq!(pump.step(Event::Cancelled).action, Action::Continue);
    assert_eq!(pump.phase(), Phase::LastWrite);
    assert_eq!(pump.step(Event::Cancelled).action, Action::Continue);
    assert_eq!(pump.phase(), Phase::LastWrite);
    assert_eq!(pump.step(Event::Written).action, Action::Flush);
    assert_eq!(pump.phase(), Phase::LastFlush);
    assert_eq!(pump.step(Event::Flushed).action, Action::Stop(Outcome::Cancelled));
    assert_eq!(pump.outcome(), Some(Outcome::Cancelled));
}

#[test]
fn cancel_while_flushing_lets_the_flush_finish() {
    let mut pump = Pump::new(empty_inspector());
    let _ = pump.step(Event::Read(vec![9]));
    let _ = pump.step(Event::Written);
    assert_eq!(pump.step(Event::Cancelled).action, Action::Continue);
    assert_eq!(pump.phase(), Phase::LastFlush);
    assert_eq!(pump.step(Event::Flushed).action, Action::Stop(Outcome::Cancelled));
}

#[test]
fn failure_after_a_cancellation_is_still_a_failure() {
    let mut pump = Pump::new(empty_inspector());
    let _ = pump.step(Event::Read(vec![9]));
    let _ = pump.step(Event::Cancelled);
    assert_eq!(
        pump.step(Event::WriteFailed).action,
        Action::Stop(Outcome::Failed(StreamFault::Write))
    );
    let mut pump = Pump::new(empty_inspector());
    let _ = pump.step(Event::Read(vec![9]));
    let _ = pump.step(Event::Written);
    let _ = pump.step(Event::Cancelled);
    assert_eq!(
        pump.step(Event::FlushFailed).action,
        Action::Stop(Outcome::Failed(StreamFault::Flush))
    );
}

#[test]
fn only_an_ended_stream_counts_as_end_of_stream() {
    for call in [StreamFault::Read, StreamFault::Write, StreamFault::Flush] {
        assert_eq!(event_of_failure(call, FailureKind::UnexpectedEof), Event::EndOfStream);
    }
    for kind in [FailureKind::BrokenPipe, FailureKind::Other] {
        assert_eq!(event_of_failure(StreamFault::Read, kind), Event::ReadFailed);
        assert_eq!(event_of_failure(StreamFault::Write, kind), Event::WriteFailed);
        assert_eq!(event_of_failure(StreamFault::Flush, kind), Event::FlushFailed);
    }
}

#[test]
fn broken_pipe_ends_the_pump_as_a_failure() {
    let mut pump = Pump::new(empty_inspector());
    let _ = pump.step(Event::Read(vec![1]));
    let event = event_of_failure(StreamFault::Write, FailureKind::BrokenPipe);
    assert_eq!(
        pump.step(event).action,
        Action::Stop(Outcome::Failed(StreamFault::Write))
    );
}

#[test]
fn ended_pump_stays_ended() {
    let mut pump = Pump::new(empty_inspector());
    let _ = pump.step(Event::EndOfStream);
    for event in [
        Event::Read(vec![1]),
        Event::Written,
        Event::Flushed,
        Event::Cancelled,
        Event::ReadFailed,
        Event::WriteFailed,
        Event::FlushFailed,
        Event::EndOfStream,
    ] {
        assert_eq!(pump.step(event).action, Action::Stop(Outcome::EndOfStream));
        assert_eq!(pump.outcome(), Some(Outcome::EndOfStream));
    }
}

#[test]
fn event_out_of_turn_changes_nothing() {
    let mut pump = Pump::new(empty_inspector());
    assert_eq!(pump.step(Event::Written).action, Action::Continue);
    assert_eq!(pump.step(Event::Flushed).action, Action::Continue);
    assert_eq!(pump.phase(), Phase::Reading);
    let _ = pump.step(Event::Read(vec![1]));
    let out_of_turn = pump.step(Event::Read(vec![2]));
    assert_eq!(out_of_turn.action, Action::Continue);
    assert_eq!(out_of_turn.messages.len(), 0);
    assert_eq!(pump.step(Event::Flushed).action, Action::Continue);
    assert_eq!(pump.phase(), Phase::Writing);
}
