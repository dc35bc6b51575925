use pty_event_loop::event_loop::EventLoop;
use pty_event_loop::failure::{hangup_error, IoErrorKind, LINUX_EIO};
use pty_event_loop::message::{Msg, WindowSize};
use pty_event_loop::state::{DrainStep, State};
use pty_event_loop::turn::{ChildPoll, LoopConfig, PollEvent, Turn, TurnAction, TurnEvent};
use std::borrow::Cow;

const PTY: usize = 0;
const CHILD: usize = 1;
const HANGUP: i32 = 5;
const SIZE: WindowSize = WindowSize { num_lines: 24, num_cols: 80, cell_width: 9, cell_height: 18 };

fn polling(drain_on_exit: bool) -> Turn {
    let mut turn = Turn::new(LoopConfig {
        child_token: CHILD,
        read_write_token: PTY,
        drain_on_exit,
        hangup_error: Some(HANGUP),
    });
    assert_eq!(turn.step(TurnEvent::Registered(true), false), TurnAction::Poll);
    turn
}

fn ready(key: usize, readable: bool, writable: bool, interrupt: bool) -> PollEvent {
    PollEvent { key, readable, writable, interrupt }
}

/// Polls with `events` and no message; returns what the first event asks for.
fn dispatching(turn: &mut Turn, events: Vec<PollEvent>, needs_write: bool) -> TurnAction {
    let polled = TurnEvent::Polled { events, message_waiting: false };
    assert_eq!(turn.step(polled, needs_write), TurnAction::Drain);
    turn.step(TurnEvent::Drained(DrainStep::Drained), needs_write)
}

#[test]
fn a_failed_registration_stops_the_loop() {
    let mut turn = Turn::new(LoopConfig {
        child_token: CHILD,
        read_write_token: PTY,
        drain_on_exit: false,
        hangup_error: None,
    });
    assert_eq!(turn.step(TurnEvent::Registered(false), false), TurnAction::Stop);
}

#[test]
fn an_interrupted_poll_is_repeated_and_a_failed_one_ends_the_loop() {
    let mut turn = polling(false);
    let interrupted = TurnEvent::PollFailed(IoErrorKind::Interrupted);
    assert_eq!(turn.step(interrupted, false), TurnAction::Poll);
    let failed = TurnEvent::PollFailed(IoErrorKind::WouldBlock);
    assert_eq!(turn.step(failed, false), TurnAction::Deregister);
    assert_eq!(turn.step(TurnEvent::Deregistered, false), TurnAction::Stop);

    let mut turn = polling(false);
    let failed = TurnEvent::PollFailed(IoErrorKind::Other);
    assert_eq!(turn.step(failed, false), TurnAction::Deregister);
}

#[test]
fn a_timeout_ends_the_synchronized_update() {
    let mut turn = polling(false);
    let nothing = TurnEvent::Polled { events: vec![], message_waiting: false };
    assert_eq!(turn.step(nothing, false), TurnAction::EndSync);
    assert_eq!(turn.step(TurnEvent::SyncEnded, false), TurnAction::Poll);
    let message = TurnEvent::Polled { events: vec![], message_waiting: true };
    assert_eq!(turn.step(message, false), TurnAction::Drain);
}

#[test]
fn messages_are_taken_in_before_events() {
    let mut turn = polling(false);
    let events = vec![ready(PTY, true, false, false)];
    let polled = TurnEvent::Polled { events, message_waiting: true };
    assert_eq!(turn.step(polled, false), TurnAction::Drain);
    assert_eq!(turn.step(TurnEvent::Drained(DrainStep::Queued), true), TurnAction::Drain);
    let resize = TurnEvent::Drained(DrainStep::Resize(SIZE));
    assert_eq!(turn.step(resize, true), TurnAction::Resize(SIZE));
    assert_eq!(turn.step(TurnEvent::Resized, true), TurnAction::Drain);
    assert_eq!(turn.step(TurnEvent::Drained(DrainStep::Drained), true), TurnAction::ReadPty);
}

#[test]
fn a_shutdown_message_ends_the_loop() {
    let mut turn = polling(false);
    let polled = TurnEvent::Polled { events: vec![], message_waiting: true };
    turn.step(polled, false);
    let shutdown = TurnEvent::Drained(DrainStep::Shutdown);
    assert_eq!(turn.step(shutdown, true), TurnAction::Deregister);
    assert_eq!(turn.step(TurnEvent::Deregistered, true), TurnAction::Stop);
}

#[test]
fn a_closed_queue_is_given_up_on() {
    let mut turn = polling(false);
    let polled = TurnEvent::Polled { events: vec![], message_waiting: true };
    turn.step(polled, false);
    let closed = TurnEvent::Drained(DrainStep::Closed);
    assert_eq!(turn.step(closed, false), TurnAction::GiveUp);
}

#[test]
fn reading_comes_before_writing() {
    let mut turn = polling(false);
    let events = vec![ready(PTY, true, true, false)];
    assert_eq!(dispatching(&mut turn, events, false), TurnAction::ReadPty);
    assert_eq!(turn.step(TurnEvent::PtyRead, false), TurnAction::WritePty);
    assert_eq!(turn.step(TurnEvent::PtyWritten, false), TurnAction::Poll);
}

#[test]
fn events_are_dealt_with_in_order_and_idle_ones_skipped() {
    let mut turn = polling(false);
    let events = vec![
        ready(9, true, true, false),
        ready(PTY, true, true, true),
        ready(PTY, false, true, false),
        ready(PTY, false, false, false),
        ready(CHILD, true, false, true),
        ready(PTY, true, false, false),
    ];
    assert_eq!(dispatching(&mut turn, events, false), TurnAction::WritePty);
    assert_eq!(turn.step(TurnEvent::PtyWritten, false), TurnAction::PollChild);
    let nothing = TurnEvent::ChildPolled(ChildPoll::Nothing);
    assert_eq!(turn.step(nothing, false), TurnAction::ReadPty);
    assert_eq!(turn.step(TurnEvent::PtyRead, false), TurnAction::Poll);
}

#[test]
fn the_interest_in_writing_follows_the_need() {
    let mut turn = polling(false);
    let events = vec![ready(PTY, true, false, false)];
    assert_eq!(dispatching(&mut turn, events, true), TurnAction::ReadPty);
    let reregister = TurnAction::Reregister { writable: true };
    assert_eq!(turn.step(TurnEvent::PtyRead, true), reregister);
    assert_eq!(turn.step(TurnEvent::Reregistered, true), TurnAction::Poll);
    let events = vec![ready(PTY, false, true, false)];
    assert_eq!(dispatching(&mut turn, events, true), TurnAction::WritePty);
    assert_eq!(turn.step(TurnEvent::PtyWritten, true), TurnAction::Poll);
    let events = vec![ready(PTY, false, true, false)];
    assert_eq!(dispatching(&mut turn, events, true), TurnAction::WritePty);
    let reregister = TurnAction::Reregister { writable: false };
    assert_eq!(turn.step(TurnEvent::PtyWritten, false), reregister);
}

#[test]
fn a_hangup_is_passed_over_without_a_write() {
    let mut turn = polling(false);
    let events = vec![ready(PTY, true, true, false), ready(CHILD, true, false, false)];
    assert_eq!(dispatching(&mut turn, events, false), TurnAction::ReadPty);
    let hangup = TurnEvent::PtyReadFailed { os_error: Some(HANGUP) };
    assert_eq!(turn.step(hangup, false), TurnAction::PollChild);
}

#[test]
fn failures_of_the_pseudoterminal_end_the_loop() {
    let mut turn = polling(false);
    dispatching(&mut turn, vec![ready(PTY, true, true, false)], false);
    let failed = TurnEvent::PtyReadFailed { os_error: Some(HANGUP + 1) };
    assert_eq!(turn.step(failed, false), TurnAction::Deregister);

    let mut turn = polling(false);
    dispatching(&mut turn, vec![ready(PTY, true, true, false)], false);
    let failed = TurnEvent::PtyReadFailed { os_error: None };
    assert_eq!(turn.step(failed, false), TurnAction::Deregister);

    let mut turn = polling(false);
    dispatching(&mut turn, vec![ready(PTY, false, true, false)], false);
    assert_eq!(turn.step(TurnEvent::PtyWriteFailed, false), TurnAction::Deregister);
}

#[test]
fn without_a_hangup_code_no_failure_is_a_hangup() {
    let event_loop = EventLoop::new(false, false);
    let mut turn = event_loop.turn(CHILD, PTY, false);
    turn.step(TurnEvent::Registered(true), false);
    dispatching(&mut turn, vec![ready(PTY, true, true, false)], false);
    let failed = TurnEvent::PtyReadFailed { os_error: None };
    assert_eq!(turn.step(failed, false), TurnAction::Deregister);
}

#[test]
fn the_hangup_code_is_that_of_the_platform() {
    assert_eq!(LINUX_EIO, libc::EIO);
    assert_eq!(hangup_error(true), Some(5));
    assert_eq!(hangup_error(false), None);

    let event_loop = EventLoop::new(false, false);
    let mut turn = event_loop.turn(CHILD, PTY, true);
    turn.step(TurnEvent::Registered(true), false);
    dispatching(&mut turn, vec![ready(PTY, true, true, false)], false);
    let hangup = TurnEvent::PtyReadFailed { os_error: Some(libc::EIO) };
    assert_eq!(turn.step(hangup, false), TurnAction::Poll);
}

#[test]
fn an_exit_is_reported_and_drained() {
    let mut turn = polling(true);
    let events = vec![ready(CHILD, true, false, false), ready(PTY, true, false, false)];
    assert_eq!(dispatching(&mut turn, events, false), TurnAction::PollChild);
    let exited = TurnEvent::ChildPolled(ChildPoll::Exited { with_status: true });
    assert_eq!(turn.step(exited, false), TurnAction::ReportExit);
    assert_eq!(turn.step(TurnEvent::ExitReported, false), TurnAction::ReadPty);
    let failed = TurnEvent::PtyReadFailed { os_error: Some(1) };
    assert_eq!(turn.step(failed, false), TurnAction::ExitTerminal);
    assert_eq!(turn.step(TurnEvent::TerminalExited, false), TurnAction::Deregister);
    assert_eq!(turn.step(TurnEvent::Deregistered, false), TurnAction::Stop);
}

#[test]
fn an_exit_without_a_status_is_not_reported() {
    let mut turn = polling(false);
    dispatching(&mut turn, vec![ready(CHILD, true, false, false)], false);
    let exited = TurnEvent::ChildPolled(ChildPoll::Exited { with_status: false });
    assert_eq!(turn.step(exited, false), TurnAction::ExitTerminal);
}

#[test]
fn a_poll_without_events_looks_for_a_message() {
    let mut event_loop = EventLoop::new(false, true);
    assert!(event_loop.ref_test());
    let mut state = State::default();
    let mut turn = event_loop.turn(CHILD, PTY, true);
    turn.step(TurnEvent::Registered(true), false);
    assert_eq!(event_loop.polled(&mut turn, &state, vec![]), TurnAction::EndSync);
    turn.step(TurnEvent::SyncEnded, state.needs_write());

    let sender = event_loop.channel();
    assert!(sender.send(Msg::Input(Cow::Borrowed(b"ls\n"))).is_ok());
    assert!(sender.send(Msg::Shutdown).is_ok());
    assert_eq!(event_loop.polled(&mut turn, &state, vec![]), TurnAction::Drain);
    assert_eq!(event_loop.drain(&mut turn, &mut state), TurnAction::Drain);
    assert!(state.needs_write());
    assert_eq!(event_loop.drain(&mut turn, &mut state), TurnAction::Deregister);
}

#[test]
fn input_leads_to_interest_in_writing() {
    let mut event_loop = EventLoop::new(false, false);
    assert!(!event_loop.ref_test());
    let mut state = State::default();
    let mut turn = event_loop.turn(CHILD, PTY, true);
    turn.step(TurnEvent::Registered(true), false);
    assert!(event_loop.channel().send(Msg::Input(Cow::Borrowed(b"x"))).is_ok());
    let events = vec![ready(9, true, false, false)];
    assert_eq!(event_loop.polled(&mut turn, &state, events), TurnAction::Drain);
    assert_eq!(event_loop.drain(&mut turn, &mut state), TurnAction::Drain);
    let reregister = TurnAction::Reregister { writable: true };
    assert_eq!(event_loop.drain(&mut turn, &mut state), reregister);
}

#[test]
fn messages_behind_a_shutdown_take_no_effect() {
    let mut event_loop = EventLoop::new(false, false);
    let mut state = State::default();
    let mut turn = event_loop.turn(CHILD, PTY, true);
    turn.step(TurnEvent::Registered(true), false);
    let sender = event_loop.channel();
    assert!(sender.send(Msg::Input(Cow::Borrowed(b"a"))).is_ok());
    assert!(sender.send(Msg::Resize(SIZE)).is_ok());
    assert!(sender.send(Msg::Input(Cow::Borrowed(b"b"))).is_ok());
    assert!(sender.send(Msg::Shutdown).is_ok());
    assert!(sender.send(Msg::Input(Cow::Borrowed(b"c"))).is_ok());

    let mut sizes = Vec::new();
    let mut action = event_loop.polled(&mut turn, &state, vec![]);
    while action != TurnAction::Deregister {
        action = match action {
            TurnAction::Drain => event_loop.drain(&mut turn, &mut state),
            TurnAction::Resize(size) => {
                sizes.push(size);
                turn.step(TurnEvent::Resized, state.needs_write())
            },
            _ => panic!("nothing but the drain goes on"),
        };
    }
    assert_eq!(sizes, [SIZE]);
    state.goto_next();
    assert_eq!(state.remaining_bytes(), b"a");
    state.goto_next();
    assert_eq!(state.remaining_bytes(), b"b");
    state.goto_next();
    assert!(!state.needs_write());
}

#[test]
fn a_failed_last_read_is_ignored() {
    for last_read in [TurnEvent::PtyRead, TurnEvent::PtyReadFailed { os_error: None }] {
        let mut turn = polling(true);
        dispatching(&mut turn, vec![ready(CHILD, true, false, false)], false);
        let exited = TurnEvent::ChildPolled(ChildPoll::Exited { with_status: false });
        assert_eq!(turn.step(exited, false), TurnAction::ReadPty);
        assert_eq!(turn.step(last_read, false), TurnAction::ExitTerminal);
        assert_eq!(turn.step(TurnEvent::TerminalExited, false), TurnAction::Deregister);
    }
}
