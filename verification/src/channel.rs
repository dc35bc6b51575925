//! How messages are sent to the event loop, and how it receives them.

use crate::message::{input_message, EventLoopSendError, Msg, WindowSize};
use crate::queue::{clone_sender, enqueue, fed_queue, try_recv, Received, WakeLoop};
use std::borrow::Cow;
use std::sync::mpsc::{Receiver, Sender};
use vstd::prelude::*;

verus! {

/// Every sender of the queue is gone.
#[derive(Debug, Clone, Copy, PartialEq, Eq, Structural)]
pub struct ChannelClosed;

/// A receiver whose next message can be looked at before it is taken.
#[verifier::reject_recursive_types(T)]
pub struct PeekableReceiver<T> {
    rx: Receiver<T>,
    peeked: Option<T>,
}

impl<T> PeekableReceiver<T> {
    /// The receiver that the messages come from.
    pub closed spec fn receiver(&self) -> Receiver<T> {
        self.rx
    }

    /// The message that was looked at and not taken yet.
    pub closed spec fn peeked(&self) -> Option<T> {
        self.peeked
    }

    /// Wraps `rx`; no message has been looked at.
    pub fn new(rx: Receiver<T>) -> (peekable: Self)
        ensures
            peekable.receiver() == rx,
            peekable.peeked() is None,
    {
        PeekableReceiver { rx, peeked: None }
    }

    /// Looks at the next message without taking it, and looks into the queue only where no message
    /// is held back already.
    pub fn peek(&mut self) -> (message: Option<&T>)
        ensures
            final(self).receiver() == old(self).receiver(),
            old(self).peeked() is Some ==> final(self).peeked() == old(self).peeked(),
            match message {
                Some(next) => final(self).peeked() == Some(*next),
                None => final(self).peeked() is None,
            },
    {
        if self.peeked.is_none() {
            let received: Received<T> = try_recv(&self.rx);
            self.hold(received);
        }
        self.peeked.as_ref()
    }

    /// Holds back what a look into the queue gave, where it gave a message.
    pub fn hold(&mut self, received: Received<T>)
        requires
            old(self).peeked() is None,
        ensures
            final(self).receiver() == old(self).receiver(),
            final(self).peeked() == (match received {
                Received::Message(message) => Some(message),
                Received::Empty => None,
                Received::Disconnected => None,
            }),
    {
        self.peeked = match received {
            Received::Message(message) => Some(message),
            Received::Empty => None,
            Received::Disconnected => None,
        };
    }

    /// Takes the next message: the one that is held back, else the next of the queue.
    pub fn recv(&mut self) -> (message: Result<Option<T>, ChannelClosed>)
        ensures
            final(self).receiver() == old(self).receiver(),
            final(self).peeked() is None,
            old(self).peeked() is Some ==> message == Ok::<Option<T>, ChannelClosed>(
                old(self).peeked(),
            ),
    {
        if self.peeked.is_some() {
            Ok(self.peeked.take())
        } else {
            taken(try_recv(&self.rx))
        }
    }
}

/// The outcome of taking the next message straight from the queue, where a look into it gave
/// `received`.
pub fn taken<T>(received: Received<T>) -> (message: Result<Option<T>, ChannelClosed>)
    ensures
        message == (match received {
            Received::Message(next) => Ok(Some(next)),
            Received::Empty => Ok(None),
            Received::Disconnected => Err(ChannelClosed),
        }),
{
    match received {
        Received::Message(next) => Ok(Some(next)),
        Received::Empty => Ok(None),
        Received::Disconnected => Err(ChannelClosed),
    }
}

/// The outcome of an attempt to queue a message, where the queue took it or gave it back.
pub fn queueing_outcome(queued: Result<WakeLoop, Msg>) -> (outcome: Result<
    WakeLoop,
    EventLoopSendError,
>)
    ensures
        outcome == (match queued {
            Ok(wake) => Ok(wake),
            Err(refused) => Err(EventLoopSendError::Send(refused)),
        }),
{
    match queued {
        Ok(wake) => Ok(wake),
        Err(refused) => Err(EventLoopSendError::Send(refused)),
    }
}

/// Whether `outcome` is one of an attempt to put `msg` into `queue`: it is there, or it came back.
pub open spec fn attempted(
    queue: int,
    msg: Msg,
    outcome: Result<WakeLoop, EventLoopSendError>,
) -> bool {
    match outcome {
        Ok(wake) => wake.message() == msg && wake.queue() == queue,
        Err(err) => err == EventLoopSendError::Send(msg),
    }
}

/// The sending end of an event loop's queue.
pub struct EventLoopSender {
    sender: Sender<Msg>,
}

impl EventLoopSender {
    /// The queue that this sender feeds.
    pub closed spec fn queue(&self) -> int {
        fed_queue(self.sender)
    }

    /// Wraps `sender`.
    pub(crate) fn new(sender: Sender<Msg>) -> (wrapped: Self)
        ensures
            wrapped.queue() == fed_queue(sender),
    {
        EventLoopSender { sender }
    }

    /// Queues `msg`. A message that was queued is seen only once the event loop wakes up; one that
    /// was refused comes back in the error, and the event loop is left asleep.
    pub fn send(&self, msg: Msg) -> (sent: Result<WakeLoop, EventLoopSendError>)
        ensures
            attempted(self.queue(), msg, sent),
    {
        queueing_outcome(enqueue(&self.sender, msg))
    }
}

impl Clone for EventLoopSender {
    /// A second sender for the same queue.
    fn clone(&self) -> (clone: Self)
        ensures
            clone.queue() == self.queue(),
    {
        EventLoopSender { sender: clone_sender(&self.sender) }
    }
}

/// Notifies an event loop of input and of new window sizes.
pub struct Notifier(pub EventLoopSender);

impl Notifier {
    /// Queues `bytes` as input. Where there are none nothing is queued, since the terminal hangs on
    /// a write of zero bytes.
    pub fn notify(&self, bytes: Cow<'static, [u8]>) -> (sent: Option<
        Result<WakeLoop, EventLoopSendError>,
    >)
        ensures
            sent is None <==> bytes@.len() == 0,
            sent matches Some(outcome) ==> attempted(
                self.0.queue(),
                Msg::Input(bytes),
                outcome,
            ),
    {
        match input_message(bytes) {
            Some(msg) => Some(self.0.send(msg)),
            None => None,
        }
    }

    /// Queues a new window size.
    pub fn on_resize(&mut self, window_size: WindowSize) -> (sent: Result<
        WakeLoop,
        EventLoopSendError,
    >)
        ensures
            *final(self) == *old(self),
            attempted(old(self).0.queue(), Msg::Resize(window_size), sent),
    {
        self.0.send(Msg::Resize(window_size))
    }
}

/// Sending a message loses nothing and changes nothing: the message as it was sent is in the sender's
/// own queue, or it comes back.
pub proof fn law_message_is_queued_or_comes_back(
    queue: int,
    msg: Msg,
    outcome: Result<WakeLoop, EventLoopSendError>,
)
    requires
        attempted(queue, msg, outcome),
    ensures
        match outcome {
            Ok(wake) => wake.message() == msg && wake.queue() == queue,
            Err(EventLoopSendError::Send(refused)) => refused == msg,
            Err(EventLoopSendError::Io(_)) => false,
        },
{
}

} // verus!
