//! The two ends of a queue of messages.

use crate::message::{EventLoopSendError, Msg};
use std::sync::mpsc::{Receiver, Sender};
use vstd::prelude::*;

verus! {

#[verifier::external_type_specification]
#[verifier::external_body]
#[verifier::reject_recursive_types(T)]
pub struct ExReceiver<T>(std::sync::mpsc::Receiver<T>);

#[verifier::external_type_specification]
#[verifier::external_body]
#[verifier::reject_recursive_types(T)]
pub struct ExSender<T>(std::sync::mpsc::Sender<T>);

/// Which queue of messages a sender feeds.
pub uninterp spec fn fed_queue(sender: Sender<Msg>) -> int;

/// Which queue of messages a receiver empties.
pub uninterp spec fn emptied_queue(receiver: Receiver<Msg>) -> int;

/// Calls `std::sync::mpsc::channel`. What is sent on the sender comes out at the receiver: both
/// are ends of one queue.
#[verifier::external_body]
pub(crate) fn new_queue() -> (ends: (Sender<Msg>, Receiver<Msg>))
    ensures
        fed_queue(ends.0) == emptied_queue(ends.1),
{
    std::sync::mpsc::channel()
}

/// Calls `clone` on a `std::sync::mpsc::Sender`. The clone feeds the same queue.
#[verifier::external_body]
pub(crate) fn clone_sender(sender: &Sender<Msg>) -> (clone: Sender<Msg>)
    ensures
        fed_queue(clone) == fed_queue(*sender),
{
    sender.clone()
}

/// A message was queued and the event loop has yet to be woken up, so that it looks into its queue.
///
/// Only queueing a message gives one of these.
#[must_use]
pub struct WakeLoop {
    message: Ghost<Msg>,
    queue: Ghost<int>,
}

impl WakeLoop {
    /// The message that was queued.
    pub closed spec fn message(&self) -> Msg {
        self.message@
    }

    /// The queue that took the message.
    pub closed spec fn queue(&self) -> int {
        self.queue@
    }

    /// The outcome of sending a message whose wake-up ended in `notified`.
    pub fn finished(self, notified: Result<(), std::io::Error>) -> (sent: Result<
        (),
        EventLoopSendError,
    >)
        ensures
            sent == (match notified {
                Ok(()) => Ok(()),
                Err(err) => Err(EventLoopSendError::Io(err)),
            }),
    {
        match notified {
            Ok(()) => Ok(()),
            Err(err) => Err(EventLoopSendError::Io(err)),
        }
    }
}

/// Calls `std::sync::mpsc::Sender::send`. The message either goes into the queue that the sender
/// feeds, or comes back because the queue is closed; which of the two depends on the receiving
/// thread.
#[verifier::external_body]
pub(crate) fn enqueue(sender: &Sender<Msg>, msg: Msg) -> (queued: Result<WakeLoop, Msg>)
    ensures
        match queued {
            Ok(wake) => wake.message() == msg && wake.queue() == fed_queue(*sender),
            Err(refused) => refused == msg,
        },
{
    let ghost message = msg;
    match sender.send(msg) {
        Ok(()) => Ok(WakeLoop { message: Ghost(message), queue: Ghost(fed_queue(*sender)) }),
        Err(err) => Err(err.0),
    }
}

/// What a look into the queue gave.
#[derive(Debug)]
pub enum Received<T> {
    /// The next message.
    Message(T),
    /// No message is waiting.
    Empty,
    /// No message is waiting and none will come any more.
    Disconnected,
}

/// Calls `std::sync::mpsc::Receiver::try_recv`. What comes back depends on the sending threads, so
/// nothing is claimed of it.
#[verifier::external_body]
pub(crate) fn try_recv<T>(receiver: &Receiver<T>) -> (received: Received<T>) {
    match receiver.try_recv() {
        Ok(message) => Received::Message(message),
        Err(std::sync::mpsc::TryRecvError::Empty) => Received::Empty,
        Err(std::sync::mpsc::TryRecvError::Disconnected) => Received::Disconnected,
    }
}

} // verus!
