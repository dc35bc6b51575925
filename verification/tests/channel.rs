use pty_event_loop::channel::{
    queueing_outcome, taken, ChannelClosed, Notifier, PeekableReceiver,
};
use pty_event_loop::event_loop::EventLoop;
use pty_event_loop::message::{input_message, EventLoopSendError, Msg, WindowSize};
use pty_event_loop::queue::Received;
use pty_event_loop::state::{DrainStep, State};
use std::borrow::Cow;
use std::sync::mpsc;

const SIZE: WindowSize = WindowSize { num_lines: 24, num_cols: 80, cell_width: 9, cell_height: 18 };

#[test]
fn a_message_can_be_looked_at_before_it_is_taken() {
    let (tx, rx) = mpsc::channel();
    let mut receiver = PeekableReceiver::new(rx);
    assert_eq!(receiver.peek(), None);
    assert_eq!(receiver.recv(), Ok(None));
    tx.send(1).unwrap();
    tx.send(2).unwrap();
    assert_eq!(receiver.peek(), Some(&1));
    assert_eq!(receiver.peek(), Some(&1));
    assert_eq!(receiver.recv(), Ok(Some(1)));
    assert_eq!(receiver.recv(), Ok(Some(2)));
    assert_eq!(receiver.recv(), Ok(None));
}

#[test]
fn a_closed_queue_is_told_from_an_empty_one() {
    let (tx, rx) = mpsc::channel();
    let mut receiver = PeekableReceiver::new(rx);
    tx.send(7).unwrap();
    assert_eq!(receiver.peek(), Some(&7));
    drop(tx);
    assert_eq!(receiver.recv(), Ok(Some(7)));
    assert_eq!(receiver.peek(), None);
    assert_eq!(receiver.recv(), Err(ChannelClosed));
}

#[test]
fn what_the_queue_gave_is_held_or_taken() {
    assert_eq!(taken(Received::Message(3)), Ok(Some(3)));
    assert_eq!(taken(Received::<u8>::Empty), Ok(None));
    assert_eq!(taken(Received::<u8>::Disconnected), Err(ChannelClosed));

    let (tx, rx) = mpsc::channel();
    let mut receiver = PeekableReceiver::new(rx);
    receiver.hold(Received::Disconnected);
    receiver.hold(Received::Empty);
    receiver.hold(Received::Message(9));
    tx.send(10).unwrap();
    assert_eq!(receiver.peek(), Some(&9));
    assert_eq!(receiver.recv(), Ok(Some(9)));
    assert_eq!(receiver.recv(), Ok(Some(10)));
}

#[test]
fn what_is_sent_reaches_the_event_loop() {
    let mut event_loop = EventLoop::new(false, false);
    let mut state = State::default();
    let sender = event_loop.channel();
    let other = sender.clone();
    assert_eq!(event_loop.drain_recv_channel(&mut state), DrainStep::Drained);
    let wake = sender.send(Msg::Input(Cow::Borrowed(b"a"))).ok().unwrap();
    assert!(wake.finished(Ok(())).is_ok());
    assert!(other.send(Msg::Resize(SIZE)).is_ok());
    assert!(sender.send(Msg::Shutdown).is_ok());
    assert_eq!(event_loop.drain_recv_channel(&mut state), DrainStep::Queued);
    assert_eq!(event_loop.drain_recv_channel(&mut state), DrainStep::Resize(SIZE));
    assert_eq!(event_loop.drain_recv_channel(&mut state), DrainStep::Shutdown);
    assert_eq!(event_loop.drain_recv_channel(&mut state), DrainStep::Drained);
    state.ensure_next();
    assert_eq!(state.remaining_bytes(), b"a");
}

#[test]
fn a_refused_message_comes_back() {
    let event_loop = EventLoop::new(false, false);
    let sender = event_loop.channel();
    drop(event_loop);
    let refused = sender.send(Msg::Resize(SIZE));
    assert!(matches!(refused, Err(EventLoopSendError::Send(Msg::Resize(SIZE)))));
    let mut notifier = Notifier(sender);
    let refused = notifier.on_resize(SIZE);
    assert!(matches!(refused, Err(EventLoopSendError::Send(Msg::Resize(SIZE)))));
    match notifier.notify(Cow::Borrowed(b"x")) {
        Some(Err(EventLoopSendError::Send(Msg::Input(bytes)))) => assert_eq!(&bytes[..], b"x"),
        _ => panic!("the input was lost"),
    }

    let outcome = queueing_outcome(Err(Msg::Shutdown));
    assert!(matches!(outcome, Err(EventLoopSendError::Send(Msg::Shutdown))));
}

#[test]
fn a_failed_wake_up_is_reported() {
    let event_loop = EventLoop::new(false, false);
    let wake = event_loop.channel().send(Msg::Shutdown).ok().unwrap();
    let failure = std::io::Error::new(std::io::ErrorKind::BrokenPipe, "gone");
    match wake.finished(Err(failure)) {
        Err(EventLoopSendError::Io(err)) => assert_eq!(err.kind(), std::io::ErrorKind::BrokenPipe),
        _ => panic!("the failure was lost"),
    }
}

#[test]
fn a_notifier_sends_input_and_sizes() {
    let mut event_loop = EventLoop::new(false, false);
    let mut state = State::default();
    let mut notifier = Notifier(event_loop.channel());
    assert!(notifier.notify(Cow::Borrowed(b"")).is_none());
    assert!(notifier.notify(Cow::Owned(vec![b'q'])).is_some_and(|sent| sent.is_ok()));
    assert!(notifier.on_resize(SIZE).is_ok());
    assert_eq!(event_loop.drain_recv_channel(&mut state), DrainStep::Queued);
    assert_eq!(event_loop.drain_recv_channel(&mut state), DrainStep::Resize(SIZE));
    assert_eq!(event_loop.drain_recv_channel(&mut state), DrainStep::Drained);
    state.ensure_next();
    assert_eq!(state.remaining_bytes(), b"q");
}

#[test]
fn no_message_carries_nothing() {
    assert!(input_message(Cow::Borrowed(b"")).is_none());
    assert!(input_message(Cow::Owned(Vec::new())).is_none());
    match input_message(Cow::Borrowed(b"ls")) {
        Some(Msg::Input(bytes)) => assert_eq!(&bytes[..], b"ls"),
        _ => panic!("the input was lost"),
    }
}
