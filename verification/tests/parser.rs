use pty_event_loop::clock::wait_until;
use pty_event_loop::event_loop::EventLoop;
use pty_event_loop::read::{ReadAction, ReadEvent, ReadPass};
use pty_event_loop::state::State;

/// A terminal that ignores everything.
struct Screen;

impl vte::ansi::Handler for Screen {}

const BEGIN_SYNC: &[u8] = b"\x1b[?2026h";

#[test]
fn the_time_left_is_never_negative() {
    assert_eq!(wait_until(None, 7), None);
    assert_eq!(wait_until(Some(10), 7), Some(3));
    assert_eq!(wait_until(Some(7), 7), Some(0));
    assert_eq!(wait_until(Some(3), 7), Some(0));
}

#[test]
fn a_poll_is_limited_only_during_a_synchronized_update() {
    let event_loop = EventLoop::new(false, false);
    let mut state = State::default();
    assert_eq!(event_loop.poll_timeout(&state), None);
    state.parser.processor.advance(&mut Screen, BEGIN_SYNC);
    let nanos = event_loop.poll_timeout(&state).unwrap();
    assert!(nanos > 0 && nanos <= 150_000_000);
    let start = std::time::Instant::now();
    while start.elapsed().as_millis() < 160 {}
    assert_eq!(event_loop.poll_timeout(&state), Some(0));
    state.parser.processor.stop_sync(&mut Screen);
    assert_eq!(event_loop.poll_timeout(&state), None);
}

#[test]
fn the_limit_of_a_poll_shrinks_to_nothing() {
    let event_loop = EventLoop::new(false, false);
    let mut state = State::default();
    assert_eq!(event_loop.poll_timeout_at(&state, 0), None);
    state.parser.processor.advance(&mut Screen, BEGIN_SYNC);
    let deadline = event_loop.poll_timeout_at(&state, 0).unwrap();
    assert!(deadline >= 150_000_000);
    assert_eq!(event_loop.poll_timeout_at(&state, 1_000), Some(deadline - 1_000));
    assert_eq!(event_loop.poll_timeout_at(&state, deadline - 1), Some(1));
    assert_eq!(event_loop.poll_timeout_at(&state, deadline), Some(0));
    assert_eq!(event_loop.poll_timeout_at(&state, deadline + 1), Some(0));
}

#[test]
fn bytes_of_a_synchronized_update_are_counted() {
    let mut state = State::default();
    state.parser.processor.advance(&mut Screen, BEGIN_SYNC);
    assert_eq!(state.sync_bytes_count(), 0);
    state.parser.processor.advance(&mut Screen, b"hello");
    assert_eq!(state.sync_bytes_count(), 5);
    assert!(state.sync_deadline().is_some());
}

#[test]
fn a_pass_within_a_synchronized_update_asks_for_no_redraw() {
    let mut event_loop = EventLoop::new(false, false);
    let mut state = State::default();
    state.parser.processor.advance(&mut Screen, BEGIN_SYNC);
    let buf = *b"hello---";
    let mut pass = ReadPass::new();
    event_loop.pty_read(&state, &mut pass, &buf, ReadEvent::Read(5));
    let action = event_loop.pty_read(&state, &mut pass, &buf, ReadEvent::TryLocked(true));
    assert_eq!(action, ReadAction::Record);
    event_loop.pty_read(&state, &mut pass, &buf, ReadEvent::Recorded);
    let action = event_loop.pty_read(&state, &mut pass, &buf, ReadEvent::Copied);
    assert_eq!(action, ReadAction::Parse);
    assert_eq!(pass.bytes(), b"hello");
    state.parser.processor.advance(&mut Screen, pass.bytes());
    event_loop.pty_read(&state, &mut pass, &buf, ReadEvent::Parsed);
    let action = event_loop.pty_read(&state, &mut pass, &buf, ReadEvent::Read(0));
    assert!(matches!(action, ReadAction::Finish { wakeup: false }));
}
