use pty_event_loop::channel::ChannelClosed;
use pty_event_loop::failure::IoErrorKind;
use pty_event_loop::message::{Msg, WindowSize};
use pty_event_loop::state::{DrainStep, State, WriteAction, WriteEvent, Writing};
use std::borrow::Cow;

const SIZE: WindowSize = WindowSize { num_lines: 24, num_cols: 80, cell_width: 9, cell_height: 18 };

fn queued(inputs: &[&'static [u8]]) -> State {
    let mut state = State::default();
    for input in inputs {
        assert_eq!(state.handle_message(Msg::Input(Cow::Borrowed(input))), DrainStep::Queued);
    }
    state
}

/// Writes all that waits in pieces of at most `piece` bytes, and returns what went out.
fn write_all(state: &mut State, piece: usize) -> Vec<u8> {
    let mut out = Vec::new();
    let mut action = state.pty_write(WriteEvent::Writable);
    while action == WriteAction::Write {
        let n = state.remaining_bytes().len().min(piece);
        out.extend_from_slice(&state.remaining_bytes()[..n]);
        action = state.pty_write(WriteEvent::Wrote(n));
    }
    assert_eq!(action, WriteAction::Finish);
    out
}

#[test]
fn writing_tracks_what_is_left() {
    let mut writing = Writing::new(Cow::Borrowed(b"hello"));
    assert_eq!(writing.remaining_bytes(), b"hello");
    assert!(!writing.finished());
    writing.advance(2);
    assert_eq!(writing.remaining_bytes(), b"llo");
    assert!(!writing.finished());
    writing.advance(3);
    assert_eq!(writing.remaining_bytes(), b"");
    assert!(writing.finished());

    let writing = Writing::new(Cow::Owned(vec![1, 2]));
    assert_eq!(writing.remaining_bytes(), [1, 2]);
    assert!(Writing::new(Cow::Borrowed(b"")).finished());
}

#[test]
fn a_new_state_has_nothing_to_write() {
    let mut state = State::default();
    assert!(!state.needs_write());
    assert_eq!(state.remaining_bytes(), b"");
    assert_eq!(state.pty_write(WriteEvent::Writable), WriteAction::Finish);
    assert_eq!(state.sync_bytes_count(), 0);
    assert!(state.sync_deadline().is_none());
}

#[test]
fn the_current_buffer_can_be_taken_and_put_back() {
    let mut state = queued(&[b"ab", b"cd"]);
    assert!(state.take_current().is_none());
    state.ensure_next();
    assert_eq!(state.remaining_bytes(), b"ab");
    state.ensure_next();
    assert_eq!(state.remaining_bytes(), b"ab");
    let mut current = state.take_current().unwrap();
    assert_eq!(state.remaining_bytes(), b"");
    assert!(state.needs_write());
    current.advance(1);
    state.set_current(Some(current));
    assert_eq!(state.remaining_bytes(), b"b");
    state.goto_next();
    assert_eq!(state.remaining_bytes(), b"cd");
    state.goto_next();
    assert!(!state.needs_write());
}

#[test]
fn every_byte_goes_out_once_and_in_order() {
    for piece in 1..8 {
        let mut state = queued(&[b"first", b"2", b"third"]);
        assert!(state.needs_write());
        assert_eq!(write_all(&mut state, piece), b"first2third");
        assert!(!state.needs_write());
    }
}

#[test]
fn what_is_left_stays_for_the_next_attempt() {
    let mut state = queued(&[b"abcd", b"ef"]);
    assert_eq!(state.pty_write(WriteEvent::Writable), WriteAction::Write);
    assert_eq!(state.pty_write(WriteEvent::Wrote(1)), WriteAction::Write);
    let blocked = WriteEvent::Failed(IoErrorKind::WouldBlock);
    assert_eq!(state.pty_write(blocked), WriteAction::Finish);
    assert_eq!(state.remaining_bytes(), b"bcd");
    assert_eq!(state.pty_write(WriteEvent::Writable), WriteAction::Write);
    let interrupted = WriteEvent::Failed(IoErrorKind::Interrupted);
    assert_eq!(state.pty_write(interrupted), WriteAction::Finish);
    assert_eq!(state.pty_write(WriteEvent::Wrote(0)), WriteAction::Finish);
    assert_eq!(state.pty_write(WriteEvent::Failed(IoErrorKind::Other)), WriteAction::Fail);
    assert!(state.needs_write());
    assert_eq!(write_all(&mut state, 2), b"bcdef");
}

#[test]
fn an_empty_buffer_stays_in_the_way() {
    let mut state = queued(&[b"", b"x"]);
    assert_eq!(state.pty_write(WriteEvent::Writable), WriteAction::Write);
    assert_eq!(state.remaining_bytes(), b"");
    assert_eq!(state.pty_write(WriteEvent::Wrote(0)), WriteAction::Finish);
    assert_eq!(state.pty_write(WriteEvent::Writable), WriteAction::Write);
    assert_eq!(state.remaining_bytes(), b"");
}

#[test]
fn messages_ask_for_what_they_say() {
    let mut state = State::default();
    assert_eq!(state.take_in(Ok(Some(Msg::Resize(SIZE)))), DrainStep::Resize(SIZE));
    assert_eq!(state.take_in(Ok(Some(Msg::Shutdown))), DrainStep::Shutdown);
    assert_eq!(state.take_in(Ok(None)), DrainStep::Drained);
    assert_eq!(state.take_in(Err(ChannelClosed)), DrainStep::Closed);
    assert!(!state.needs_write());
    let input = Msg::Input(Cow::Borrowed(b"ls\n"));
    assert_eq!(state.take_in(Ok(Some(input))), DrainStep::Queued);
    assert!(state.needs_write());
    assert_eq!(write_all(&mut state, 3), b"ls\n");
}
