//! The course of the event loop: when it polls, drains its messages, reads, writes and stops.

use crate::failure::IoErrorKind;
use crate::message::WindowSize;
use crate::state::DrainStep;
use vstd::prelude::*;

verus! {

/// Something became ready.
#[derive(Debug, Clone, Copy, PartialEq, Eq, Structural)]
pub struct PollEvent {
    /// What became ready.
    pub key: usize,
    /// Whether it can be read from.
    pub readable: bool,
    /// Whether it can be written to.
    pub writable: bool,
    /// Whether its other side hung up.
    pub interrupt: bool,
}

/// What the event loop goes by.
#[derive(Debug, Clone, Copy, PartialEq, Eq, Structural)]
pub struct LoopConfig {
    /// The key of the child process.
    pub child_token: usize,
    /// The key of the pseudoterminal.
    pub read_write_token: usize,
    /// Whether the pseudoterminal is read once more when the child has exited.
    pub drain_on_exit: bool,
    /// The error code of a read that found the other side gone.
    pub hangup_error: Option<i32>,
}

/// What the child process has to report.
#[derive(Debug, Clone, Copy, PartialEq, Eq, Structural)]
pub enum ChildPoll {
    /// Nothing.
    Nothing,
    /// It exited, with a status or without.
    Exited { with_status: bool },
}

/// What the event loop waits for.
#[derive(Debug, Clone, Copy, PartialEq, Eq, Structural)]
pub enum TurnPhase {
    /// The pseudoterminal's first registration.
    Registering,
    /// Something to become ready.
    Polling,
    /// The end of the synchronized update.
    EndingSync,
    /// A look for a message.
    Draining,
    /// The pseudoterminal's new size.
    Resizing,
    /// The child's report.
    PollingChild,
    /// The child's exit status to be passed on.
    ReportingExit,
    /// The last pass of reading, after the child's exit.
    FinalRead,
    /// The terminal to be told to exit.
    ExitingTerminal,
    /// A pass of reading.
    Reading,
    /// The pseudoterminal to be written to.
    Writing,
    /// A new registration.
    Reregistering,
    /// The registration to be undone.
    Deregistering,
    /// Nothing any more.
    Stopped,
}

/// What happened to the event loop.
#[derive(Debug)]
pub enum TurnEvent {
    /// The pseudoterminal was registered for reading, or could not be.
    Registered(bool),
    /// Polling failed.
    PollFailed(IoErrorKind),
    /// Polling ended with these events, none of them where it timed out; `message_waiting` says
    /// whether a message waits.
    Polled { events: Vec<PollEvent>, message_waiting: bool },
    /// The synchronized update was ended and a redraw asked for.
    SyncEnded,
    /// A message was looked for.
    Drained(DrainStep),
    /// The pseudoterminal was resized.
    Resized,
    /// The child process was asked for a report.
    ChildPolled(ChildPoll),
    /// The child's exit status was passed on.
    ExitReported,
    /// A pass of reading is over.
    PtyRead,
    /// A pass of reading failed, with this error code of the operating system.
    PtyReadFailed { os_error: Option<i32> },
    /// The terminal was told to exit and a redraw asked for.
    TerminalExited,
    /// Writing is over for now.
    PtyWritten,
    /// Writing failed.
    PtyWriteFailed,
    /// The pseudoterminal was registered anew.
    Reregistered,
    /// The pseudoterminal is no longer registered.
    Deregistered,
}

/// What the event loop does next.
#[derive(Debug, Clone, Copy, PartialEq, Eq, Structural)]
pub enum TurnAction {
    /// Wait until something is ready, at most as long as the parser's deadline allows.
    Poll,
    /// End the synchronized update and ask for a redraw.
    EndSync,
    /// Look for a message.
    Drain,
    /// Resize the pseudoterminal.
    Resize(WindowSize),
    /// Ask the child process for a report.
    PollChild,
    /// Pass the child's exit status on.
    ReportExit,
    /// Read from the pseudoterminal in a pass.
    ReadPty,
    /// Tell the terminal to exit and ask for a redraw.
    ExitTerminal,
    /// Write to the pseudoterminal.
    WritePty,
    /// Register the pseudoterminal anew, for reading and, where `writable` says so, for writing.
    Reregister { writable: bool },
    /// Deregister the pseudoterminal.
    Deregister,
    /// Stop.
    Stop,
    /// Give up: the queue of messages is closed.
    GiveUp,
}

/// Where the event loop is.
pub struct Stage {
    pub phase: TurnPhase,
    /// What the last poll gave.
    pub events: Seq<PollEvent>,
    /// Which of the events is at hand.
    pub next: nat,
    /// Whether the pseudoterminal is registered for writing.
    pub interest_writable: bool,
}

/// What an event asks for first.
pub enum Duty {
    Nothing,
    Child,
    Read,
    Write,
}

/// What `event` asks for first. Nothing is read from or written to a dead pseudoterminal.
pub open spec fn duty(config: LoopConfig, event: PollEvent) -> Duty {
    if event.key == config.child_token {
        Duty::Child
    } else if event.key != config.read_write_token || event.interrupt {
        Duty::Nothing
    } else if event.readable {
        Duty::Read
    } else if event.writable {
        Duty::Write
    } else {
        Duty::Nothing
    }
}

impl Stage {
    /// What holds of the event loop at all times.
    pub open spec fn wf(self, config: LoopConfig) -> bool {
        match self.phase {
            TurnPhase::PollingChild => self.next < self.events.len() && duty(
                config,
                self.events[self.next as int],
            ) is Child,
            TurnPhase::Reading => self.next < self.events.len() && duty(
                config,
                self.events[self.next as int],
            ) is Read,
            TurnPhase::Writing => {
                &&& self.next < self.events.len()
                &&& duty(config, self.events[self.next as int]) is Read || duty(
                    config,
                    self.events[self.next as int],
                ) is Write
                &&& self.events[self.next as int].writable
            },
            _ => true,
        }
    }

    /// The same, waiting for something else.
    pub open spec fn to(self, phase: TurnPhase) -> Stage {
        Stage { phase, ..self }
    }

    /// Whether `event` is what the event loop waits for.
    pub open spec fn expects(self, event: TurnEvent) -> bool {
        match event {
            TurnEvent::Registered(_) => self.phase is Registering,
            TurnEvent::PollFailed(_) => self.phase is Polling,
            TurnEvent::Polled { .. } => self.phase is Polling,
            TurnEvent::SyncEnded => self.phase is EndingSync,
            TurnEvent::Drained(_) => self.phase is Draining,
            TurnEvent::Resized => self.phase is Resizing,
            TurnEvent::ChildPolled(_) => self.phase is PollingChild,
            TurnEvent::ExitReported => self.phase is ReportingExit,
            TurnEvent::PtyRead => self.phase is Reading || self.phase is FinalRead,
            TurnEvent::PtyReadFailed { .. } => self.phase is Reading || self.phase is FinalRead,
            TurnEvent::TerminalExited => self.phase is ExitingTerminal,
            TurnEvent::PtyWritten => self.phase is Writing,
            TurnEvent::PtyWriteFailed => self.phase is Writing,
            TurnEvent::Reregistered => self.phase is Reregistering,
            TurnEvent::Deregistered => self.phase is Deregistering,
        }
    }
}

/// Every event was dealt with: make sure that the interest in writing fits the need, then poll.
pub open spec fn end_of_events(stage: Stage, needs_write: bool) -> (Stage, TurnAction) {
    if needs_write != stage.interest_writable {
        (
            Stage {
                phase: TurnPhase::Reregistering,
                interest_writable: needs_write,
                next: stage.events.len(),
                ..stage
            },
            TurnAction::Reregister { writable: needs_write },
        )
    } else {
        (
            Stage { phase: TurnPhase::Polling, next: stage.events.len(), ..stage },
            TurnAction::Poll,
        )
    }
}

/// Deals with the events from `i` on, up to the first that asks for something.
pub open spec fn dispatch(config: LoopConfig, stage: Stage, i: nat, needs_write: bool) -> (
    Stage,
    TurnAction,
)
    decreases stage.events.len() - i,
{
    if i >= stage.events.len() {
        end_of_events(stage, needs_write)
    } else {
        match duty(config, stage.events[i as int]) {
            Duty::Nothing => dispatch(config, stage, i + 1, needs_write),
            Duty::Child => (
                Stage { phase: TurnPhase::PollingChild, next: i, ..stage },
                TurnAction::PollChild,
            ),
            Duty::Read => (
                Stage { phase: TurnPhase::Reading, next: i, ..stage },
                TurnAction::ReadPty,
            ),
            Duty::Write => (
                Stage { phase: TurnPhase::Writing, next: i, ..stage },
                TurnAction::WritePty,
            ),
        }
    }
}

/// The child is gone and its status was passed on, if there was one.
pub open spec fn wind_up(config: LoopConfig, stage: Stage) -> (Stage, TurnAction) {
    if config.drain_on_exit {
        (stage.to(TurnPhase::FinalRead), TurnAction::ReadPty)
    } else {
        (stage.to(TurnPhase::ExitingTerminal), TurnAction::ExitTerminal)
    }
}

/// The event loop ends.
pub open spec fn leave(stage: Stage) -> (Stage, TurnAction) {
    (stage.to(TurnPhase::Deregistering), TurnAction::Deregister)
}

/// Where the event loop is after `event`, and what it does next, where `needs_write` says whether
/// anything waits to be written.
pub open spec fn turn_step(
    config: LoopConfig,
    stage: Stage,
    event: TurnEvent,
    needs_write: bool,
) -> (Stage, TurnAction) {
    match event {
        TurnEvent::Registered(true) => (stage.to(TurnPhase::Polling), TurnAction::Poll),
        TurnEvent::Registered(false) => (stage.to(TurnPhase::Stopped), TurnAction::Stop),
        TurnEvent::PollFailed(IoErrorKind::Interrupted) => (stage, TurnAction::Poll),
        TurnEvent::PollFailed(_) => leave(stage),
        TurnEvent::Polled { events, message_waiting } => {
            let polled = Stage { events: events@, next: 0, ..stage };
            if events@.len() == 0 && !message_waiting {
                (polled.to(TurnPhase::EndingSync), TurnAction::EndSync)
            } else {
                (polled.to(TurnPhase::Draining), TurnAction::Drain)
            }
        },
        TurnEvent::SyncEnded => (stage.to(TurnPhase::Polling), TurnAction::Poll),
        TurnEvent::Drained(DrainStep::Queued) => (stage, TurnAction::Drain),
        TurnEvent::Drained(DrainStep::Resize(size)) => (
            stage.to(TurnPhase::Resizing),
            TurnAction::Resize(size),
        ),
        TurnEvent::Drained(DrainStep::Shutdown) => leave(stage),
        TurnEvent::Drained(DrainStep::Drained) => dispatch(config, stage, 0, needs_write),
        TurnEvent::Drained(DrainStep::Closed) => (
            stage.to(TurnPhase::Stopped),
            TurnAction::GiveUp,
        ),
        TurnEvent::Resized => (stage.to(TurnPhase::Draining), TurnAction::Drain),
        TurnEvent::ChildPolled(ChildPoll::Nothing) => dispatch(
            config,
            stage,
            stage.next + 1,
            needs_write,
        ),
        TurnEvent::ChildPolled(ChildPoll::Exited { with_status }) => if with_status {
            (stage.to(TurnPhase::ReportingExit), TurnAction::ReportExit)
        } else {
            wind_up(config, stage)
        },
        TurnEvent::ExitReported => wind_up(config, stage),
        TurnEvent::PtyRead => if stage.phase is FinalRead {
            (stage.to(TurnPhase::ExitingTerminal), TurnAction::ExitTerminal)
        } else if stage.events[stage.next as int].writable {
            (stage.to(TurnPhase::Writing), TurnAction::WritePty)
        } else {
            dispatch(config, stage, stage.next + 1, needs_write)
        },
        TurnEvent::PtyReadFailed { os_error } => if stage.phase is FinalRead {
            (stage.to(TurnPhase::ExitingTerminal), TurnAction::ExitTerminal)
        } else if config.hangup_error is Some && os_error == config.hangup_error {
            dispatch(config, stage, stage.next + 1, needs_write)
        } else {
            leave(stage)
        },
        TurnEvent::TerminalExited => leave(stage),
        TurnEvent::PtyWritten => dispatch(config, stage, stage.next + 1, needs_write),
        TurnEvent::PtyWriteFailed => leave(stage),
        TurnEvent::Reregistered => (stage.to(TurnPhase::Polling), TurnAction::Poll),
        TurnEvent::Deregistered => (stage.to(TurnPhase::Stopped), TurnAction::Stop),
    }
}

/// The course of the event loop, from the registration of the pseudoterminal to the end.
pub struct Turn {
    config: LoopConfig,
    phase: TurnPhase,
    events: Vec<PollEvent>,
    next: usize,
    interest_writable: bool,
}

impl View for Turn {
    type V = Stage;

    closed spec fn view(&self) -> Stage {
        Stage {
            phase: self.phase,
            events: self.events@,
            next: self.next as nat,
            interest_writable: self.interest_writable,
        }
    }
}

impl Turn {
    /// What the event loop goes by.
    pub closed spec fn config(&self) -> LoopConfig {
        self.config
    }

    /// The event loop that goes by `config`, before the pseudoterminal is registered for reading.
    pub fn new(config: LoopConfig) -> (turn: Turn)
        ensures
            turn@ == (Stage {
                phase: TurnPhase::Registering,
                events: Seq::<PollEvent>::empty(),
                next: 0,
                interest_writable: false,
            }),
            turn.config() == config,
            turn@.wf(config),
    {
        Turn {
            config,
            phase: TurnPhase::Registering,
            events: Vec::new(),
            next: 0,
            interest_writable: false,
        }
    }

    /// Takes in what happened, and says what to do next; `needs_write` says whether anything waits
    /// to be written.
    pub fn step(&mut self, event: TurnEvent, needs_write: bool) -> (action: TurnAction)
        requires
            old(self)@.wf(old(self).config()),
            old(self)@.expects(event),
        ensures
            (final(self)@, action) == turn_step(
                old(self).config(),
                old(self)@,
                event,
                needs_write,
            ),
            final(self).config() == old(self).config(),
            final(self)@.wf(final(self).config()),
            brings_about(action, final(self)@.phase),
    {
        proof {
            law_action_fits_phase(self.config, self@, event, needs_write);
        }
        assert(self.events@.len() == self.events.len());
        match event {
            TurnEvent::Registered(ok) => if ok {
                self.go(TurnPhase::Polling, TurnAction::Poll)
            } else {
                self.go(TurnPhase::Stopped, TurnAction::Stop)
            },
            TurnEvent::PollFailed(kind) => match kind {
                IoErrorKind::Interrupted => TurnAction::Poll,
                IoErrorKind::WouldBlock | IoErrorKind::Other => self.leave(),
            },
            TurnEvent::Polled { events, message_waiting } => {
                let timed_out: bool = events.len() == 0 && !message_waiting;
                self.events = events;
                self.next = 0;
                if timed_out {
                    self.go(TurnPhase::EndingSync, TurnAction::EndSync)
                } else {
                    self.go(TurnPhase::Draining, TurnAction::Drain)
                }
            },
            TurnEvent::SyncEnded | TurnEvent::Reregistered => {
                self.go(TurnPhase::Polling, TurnAction::Poll)
            },
            TurnEvent::Drained(step) => match step {
                DrainStep::Queued => TurnAction::Drain,
                DrainStep::Resize(size) => self.go(TurnPhase::Resizing, TurnAction::Resize(size)),
                DrainStep::Shutdown => self.leave(),
                DrainStep::Drained => self.dispatch(0, needs_write),
                DrainStep::Closed => self.go(TurnPhase::Stopped, TurnAction::GiveUp),
            },
            TurnEvent::Resized => self.go(TurnPhase::Draining, TurnAction::Drain),
            TurnEvent::ChildPolled(poll) => match poll {
                ChildPoll::Nothing => self.dispatch(self.next + 1, needs_write),
                ChildPoll::Exited { with_status } => if with_status {
                    self.go(TurnPhase::ReportingExit, TurnAction::ReportExit)
                } else {
                    self.wind_up()
                },
            },
            TurnEvent::ExitReported => self.wind_up(),
            TurnEvent::PtyRead => if self.phase == TurnPhase::FinalRead {
                self.go(TurnPhase::ExitingTerminal, TurnAction::ExitTerminal)
            } else if self.events[self.next].writable {
                self.go(TurnPhase::Writing, TurnAction::WritePty)
            } else {
                self.dispatch(self.next + 1, needs_write)
            },
            TurnEvent::PtyReadFailed { os_error } => if self.phase == TurnPhase::FinalRead {
                self.go(TurnPhase::ExitingTerminal, TurnAction::ExitTerminal)
            } else if is_hangup(self.config.hangup_error, os_error) {
                self.dispatch(self.next + 1, needs_write)
            } else {
                self.leave()
            },
            TurnEvent::PtyWritten => self.dispatch(self.next + 1, needs_write),
            TurnEvent::TerminalExited | TurnEvent::PtyWriteFailed => self.leave(),
            TurnEvent::Deregistered => self.go(TurnPhase::Stopped, TurnAction::Stop),
        }
    }

    /// Waits for something else.
    fn go(&mut self, phase: TurnPhase, action: TurnAction) -> (same: TurnAction)
        ensures
            same == action,
            final(self)@ == old(self)@.to(phase),
            final(self).config() == old(self).config(),
    {
        self.phase = phase;
        action
    }

    /// Ends the event loop.
    fn leave(&mut self) -> (action: TurnAction)
        ensures
            (final(self)@, action) == leave(old(self)@),
            final(self).config() == old(self).config(),
    {
        self.go(TurnPhase::Deregistering, TurnAction::Deregister)
    }

    /// Ends the event loop because the child is gone.
    fn wind_up(&mut self) -> (action: TurnAction)
        ensures
            (final(self)@, action) == wind_up(old(self).config(), old(self)@),
            final(self).config() == old(self).config(),
    {
        if self.config.drain_on_exit {
            self.go(TurnPhase::FinalRead, TurnAction::ReadPty)
        } else {
            self.go(TurnPhase::ExitingTerminal, TurnAction::ExitTerminal)
        }
    }

    /// Deals with the events from `start` on, up to the first that asks for something.
    fn dispatch(&mut self, start: usize, needs_write: bool) -> (action: TurnAction)
        requires
            start <= old(self)@.events.len(),
        ensures
            (final(self)@, action) == dispatch(
                old(self).config(),
                old(self)@,
                start as nat,
                needs_write,
            ),
            final(self).config() == old(self).config(),
            final(self)@.wf(final(self).config()),
    {
        let mut i: usize = start;
        while i < self.events.len()
            invariant
                *self == *old(self),
                i <= self.events@.len(),
                dispatch(self.config(), self@, i as nat, needs_write) == dispatch(
                    old(self).config(),
                    old(self)@,
                    start as nat,
                    needs_write,
                ),
            decreases self.events@.len() - i,
        {
            let event: PollEvent = self.events[i];
            if event.key == self.config.child_token {
                self.next = i;
                return self.go(TurnPhase::PollingChild, TurnAction::PollChild);
            }
            if event.key == self.config.read_write_token && !event.interrupt {
                if event.readable {
                    self.next = i;
                    return self.go(TurnPhase::Reading, TurnAction::ReadPty);
                }
                if event.writable {
                    self.next = i;
                    return self.go(TurnPhase::Writing, TurnAction::WritePty);
                }
            }
            i = i + 1;
        }
        self.next = self.events.len();
        if needs_write != self.interest_writable {
            self.interest_writable = needs_write;
            self.go(TurnPhase::Reregistering, TurnAction::Reregister { writable: needs_write })
        } else {
            self.go(TurnPhase::Polling, TurnAction::Poll)
        }
    }
}

/// Whether a read that failed with `os_error` found the other side gone.
fn is_hangup(hangup_error: Option<i32>, os_error: Option<i32>) -> (yes: bool)
    ensures
        yes == (hangup_error is Some && os_error == hangup_error),
{
    match (hangup_error, os_error) {
        (Some(hangup), Some(code)) => hangup == code,
        _ => false,
    }
}

/// The event loop stops only after the pseudoterminal was deregistered, or where it could not be
/// registered at all.
pub proof fn law_stop_follows_deregistration(
    config: LoopConfig,
    stage: Stage,
    event: TurnEvent,
    needs_write: bool,
)
    requires
        stage.wf(config),
        stage.expects(event),
    ensures
        turn_step(config, stage, event, needs_write).1 is Stop <==> event is Deregistered || event
            == TurnEvent::Registered(false),
{
    lemma_dispatch(config, stage, 0, needs_write);
    lemma_dispatch(config, stage, stage.next + 1, needs_write);
}

/// What dispatching from `i` on leads to: the first event that asks for something, or the end.
proof fn lemma_dispatch(config: LoopConfig, stage: Stage, i: nat, needs_write: bool)
    ensures
        ({
            let (after, action) = dispatch(config, stage, i, needs_write);
            &&& after.events == stage.events
            &&& after.wf(config)
            &&& forall|j: int|
                i <= j < after.next && j < stage.events.len() ==> duty(
                    config,
                    #[trigger] stage.events[j],
                ) is Nothing
            &&& match after.phase {
                TurnPhase::PollingChild => action is PollChild && i <= after.next,
                TurnPhase::Reading => action is ReadPty && i <= after.next,
                TurnPhase::Writing => action is WritePty && i <= after.next,
                TurnPhase::Reregistering => {
                    &&& action == TurnAction::Reregister { writable: needs_write }
                    &&& after.next == stage.events.len()
                    &&& after.interest_writable == needs_write
                    &&& stage.interest_writable != needs_write
                },
                TurnPhase::Polling => {
                    &&& action is Poll
                    &&& after.next == stage.events.len()
                    &&& after.interest_writable == needs_write
                    &&& stage.interest_writable == needs_write
                },
                _ => false,
            }
        }),
    decreases stage.events.len() - i,
{
    if i < stage.events.len() && duty(config, stage.events[i as int]) is Nothing {
        lemma_dispatch(config, stage, i + 1, needs_write);
    }
}

/// Whether the event loop is done with one event and goes on with those behind it.
pub open spec fn moves_on(config: LoopConfig, stage: Stage, event: TurnEvent) -> bool {
    match event {
        TurnEvent::ChildPolled(ChildPoll::Nothing) => true,
        TurnEvent::PtyRead => stage.phase is Reading && !stage.events[stage.next as int].writable,
        TurnEvent::PtyReadFailed { os_error } => stage.phase is Reading && config.hangup_error
            is Some && os_error == config.hangup_error,
        TurnEvent::PtyWritten => true,
        _ => false,
    }
}

/// The events of a poll are dealt with in order and none that asks for something is passed over:
/// the event loop goes on to the first one behind it that does, or polls again.
pub proof fn law_no_event_is_passed_over(
    config: LoopConfig,
    stage: Stage,
    event: TurnEvent,
    needs_write: bool,
)
    requires
        stage.wf(config),
        stage.expects(event),
        moves_on(config, stage, event),
    ensures
        ({
            let (after, action) = turn_step(config, stage, event, needs_write);
            &&& after.events == stage.events
            &&& after.next > stage.next
            &&& forall|j: int|
                stage.next < j < after.next ==> duty(config, #[trigger] stage.events[j]) is Nothing
            &&& after.next < stage.events.len() <==> action is PollChild || action is ReadPty
                || action is WritePty
        }),
{
    lemma_dispatch(config, stage, stage.next + 1, needs_write);
}

/// Once all messages are taken in, the first event that asks for something is dealt with.
pub proof fn law_events_follow_messages(config: LoopConfig, stage: Stage, needs_write: bool)
    requires
        stage.phase is Draining,
    ensures
        ({
            let (after, action) = turn_step(
                config,
                stage,
                TurnEvent::Drained(DrainStep::Drained),
                needs_write,
            );
            &&& after.events == stage.events
            &&& forall|j: int|
                0 <= j < after.next && j < stage.events.len() ==> duty(
                    config,
                    #[trigger] stage.events[j],
                ) is Nothing
        }),
{
    lemma_dispatch(config, stage, 0, needs_write);
}

/// Whenever the event loop polls again after events were dealt with, the pseudoterminal is
/// registered for writing exactly where something waits to be written.
pub proof fn law_interest_fits_need(
    config: LoopConfig,
    stage: Stage,
    event: TurnEvent,
    needs_write: bool,
)
    requires
        stage.wf(config),
        stage.expects(event),
        moves_on(config, stage, event) || event == TurnEvent::Drained(DrainStep::Drained),
    ensures
        ({
            let (after, action) = turn_step(config, stage, event, needs_write);
            &&& action is Poll || action is Reregister ==> after.interest_writable == needs_write
            &&& action is Poll ==> stage.interest_writable == needs_write
            &&& action matches TurnAction::Reregister { writable } ==> writable == needs_write
                && stage.interest_writable != needs_write
        }),
{
    lemma_dispatch(config, stage, 0, needs_write);
    lemma_dispatch(config, stage, stage.next + 1, needs_write);
}

/// The interest in writing changes only together with a new registration.
pub proof fn law_interest_changes_by_registration(
    config: LoopConfig,
    stage: Stage,
    event: TurnEvent,
    needs_write: bool,
)
    requires
        stage.wf(config),
        stage.expects(event),
    ensures
        ({
            let (after, action) = turn_step(config, stage, event, needs_write);
            after.interest_writable != stage.interest_writable <==> action is Reregister
        }),
{
    lemma_dispatch(config, stage, 0, needs_write);
    lemma_dispatch(config, stage, stage.next + 1, needs_write);
    lemma_dispatch_interest(config, stage, 0, needs_write);
    lemma_dispatch_interest(config, stage, stage.next + 1, needs_write);
}

proof fn lemma_dispatch_interest(config: LoopConfig, stage: Stage, i: nat, needs_write: bool)
    ensures
        ({
            let (after, action) = dispatch(config, stage, i, needs_write);
            after.interest_writable != stage.interest_writable <==> action is Reregister
        }),
    decreases stage.events.len() - i,
{
    if i < stage.events.len() {
        lemma_dispatch_interest(config, stage, i + 1, needs_write);
    }
}

/// Nothing is read from or written to a pseudoterminal whose other side hung up, and nothing but
/// what the poll found ready; only the last read after the child's exit is made regardless.
pub proof fn law_only_ready_pty_is_used(
    config: LoopConfig,
    stage: Stage,
    event: TurnEvent,
    needs_write: bool,
)
    requires
        stage.wf(config),
        stage.expects(event),
    ensures
        ({
            let (after, action) = turn_step(config, stage, event, needs_write);
            let at_hand = after.events[after.next as int];
            let alive = at_hand.key == config.read_write_token && !at_hand.interrupt;
            &&& action is ReadPty && !(after.phase is FinalRead) ==> alive && at_hand.readable
            &&& action is WritePty ==> alive && at_hand.writable
        }),
{
    lemma_dispatch(config, stage, 0, needs_write);
    lemma_dispatch(config, stage, stage.next + 1, needs_write);
}

/// Whether the event loop is on its way out.
pub open spec fn leaving(phase: TurnPhase) -> bool {
    phase is ReportingExit || phase is FinalRead || phase is ExitingTerminal || phase
        is Deregistering || phase is Stopped
}

/// A shutdown message, the child's exit, a failed write, and a failed read or poll that is more
/// than an interruption end the event loop, and there is no way back.
pub proof fn law_leaving_is_final(
    config: LoopConfig,
    stage: Stage,
    event: TurnEvent,
    needs_write: bool,
)
    requires
        stage.wf(config),
        stage.expects(event),
    ensures
        leaving(stage.phase) ==> leaving(turn_step(config, stage, event, needs_write).0.phase),
        event == TurnEvent::Drained(DrainStep::Shutdown) || event is PtyWriteFailed || event
            is TerminalExited || (event matches TurnEvent::PollFailed(kind) && kind
            != IoErrorKind::Interrupted) ==> turn_step(config, stage, event, needs_write)
            == leave(stage),
        event matches TurnEvent::ChildPolled(ChildPoll::Exited { .. }) ==> leaving(
            turn_step(config, stage, event, needs_write).0.phase,
        ),
        stage.phase is Reading && (event matches TurnEvent::PtyReadFailed { os_error } && (
        config.hangup_error is None || os_error != config.hangup_error)) ==> turn_step(
            config,
            stage,
            event,
            needs_write,
        ) == leave(stage),
{
}

/// A read that finds the other side gone is no failure: the event loop goes on with the next
/// event, without a write, until the child's exit is reported.
pub proof fn law_hangup_is_no_failure(
    config: LoopConfig,
    stage: Stage,
    code: i32,
    needs_write: bool,
)
    requires
        stage.wf(config),
        stage.phase is Reading,
        config.hangup_error == Some(code),
    ensures
        turn_step(
            config,
            stage,
            TurnEvent::PtyReadFailed { os_error: Some(code) },
            needs_write,
        ) == dispatch(config, stage, stage.next + 1, needs_write),
{
}

/// When the child exits, its status is passed on where there is one, the pseudoterminal is read
/// once more where that is asked for, and then the terminal is told to exit, whether or not that
/// last read succeeded.
pub proof fn law_exit_takes_its_course(
    config: LoopConfig,
    stage: Stage,
    with_status: bool,
    last_read: TurnEvent,
    needs_write: bool,
)
    requires
        stage.phase is PollingChild,
        last_read is PtyRead || last_read is PtyReadFailed,
    ensures
        ({
            let exited = TurnEvent::ChildPolled(ChildPoll::Exited { with_status });
            let (told, first) = turn_step(config, stage, exited, needs_write);
            let (wound, second) = if with_status {
                turn_step(config, told, TurnEvent::ExitReported, needs_write)
            } else {
                (told, first)
            };
            let (read, third) = if config.drain_on_exit {
                turn_step(config, wound, last_read, needs_write)
            } else {
                (wound, second)
            };
            let (left, fourth) = turn_step(config, read, TurnEvent::TerminalExited, needs_write);
            &&& with_status ==> first is ReportExit
            &&& config.drain_on_exit ==> second is ReadPty
            &&& third is ExitTerminal
            &&& fourth is Deregister
            &&& left.phase is Deregistering
        }),
{
}

/// A synchronized update is ended exactly where a poll came back with nothing and no message
/// waits.
pub proof fn law_sync_ends_on_timeout(
    config: LoopConfig,
    stage: Stage,
    events: Vec<PollEvent>,
    message_waiting: bool,
    needs_write: bool,
)
    requires
        stage.phase is Polling,
    ensures
        turn_step(config, stage, TurnEvent::Polled { events, message_waiting }, needs_write).1
            is EndSync <==> events@.len() == 0 && !message_waiting,
{
}

/// What holds of the event loop at all times still holds after a step.
pub proof fn law_stage_stays_well_formed(
    config: LoopConfig,
    stage: Stage,
    event: TurnEvent,
    needs_write: bool,
)
    requires
        stage.wf(config),
        stage.expects(event),
    ensures
        turn_step(config, stage, event, needs_write).0.wf(config),
{
    lemma_dispatch(config, stage, 0, needs_write);
    lemma_dispatch(config, stage, stage.next + 1, needs_write);
}

/// Whether `action` is what brings about the events that `phase` waits for.
pub open spec fn brings_about(action: TurnAction, phase: TurnPhase) -> bool {
    match phase {
        TurnPhase::Registering => false,
        TurnPhase::Polling => action is Poll,
        TurnPhase::EndingSync => action is EndSync,
        TurnPhase::Draining => action is Drain,
        TurnPhase::Resizing => action is Resize,
        TurnPhase::PollingChild => action is PollChild,
        TurnPhase::ReportingExit => action is ReportExit,
        TurnPhase::FinalRead => action is ReadPty,
        TurnPhase::ExitingTerminal => action is ExitTerminal,
        TurnPhase::Reading => action is ReadPty,
        TurnPhase::Writing => action is WritePty,
        TurnPhase::Reregistering => action is Reregister,
        TurnPhase::Deregistering => action is Deregister,
        TurnPhase::Stopped => action is Stop || action is GiveUp,
    }
}

/// What the event loop asks for and what it waits for agree: whoever does what was asked for last
/// and reports what came of it reports an event that is waited for.
pub proof fn law_action_fits_phase(
    config: LoopConfig,
    stage: Stage,
    event: TurnEvent,
    needs_write: bool,
)
    requires
        stage.wf(config),
        stage.expects(event),
    ensures
        ({
            let (after, action) = turn_step(config, stage, event, needs_write);
            brings_about(action, after.phase)
        }),
{
    lemma_dispatch(config, stage, 0, needs_write);
    lemma_dispatch(config, stage, stage.next + 1, needs_write);
}

/// Messages are taken in until none waits or one asks for a shutdown: after queued input and after
/// a resize the next message is looked for, with the events of the poll untouched.
pub proof fn law_drain_takes_its_course(
    config: LoopConfig,
    stage: Stage,
    size: WindowSize,
    needs_write: bool,
)
    requires
        stage.phase is Draining,
    ensures
        turn_step(config, stage, TurnEvent::Drained(DrainStep::Queued), needs_write) == (
            stage,
            TurnAction::Drain,
        ),
        ({
            let (resizing, first) = turn_step(
                config,
                stage,
                TurnEvent::Drained(DrainStep::Resize(size)),
                needs_write,
            );
            let (resized, second) = turn_step(config, resizing, TurnEvent::Resized, needs_write);
            &&& first == TurnAction::Resize(size)
            &&& (resized, second) == (stage, TurnAction::Drain)
        }),
        turn_step(config, stage, TurnEvent::Drained(DrainStep::Shutdown), needs_write) == leave(
            stage,
        ),
{
}

proof fn lemma_dispatch_skips(
    config: LoopConfig,
    stage: Stage,
    start: nat,
    end: nat,
    needs_write: bool,
)
    requires
        start <= end <= stage.events.len(),
        forall|i: int|
            start <= i < end ==> duty(config, #[trigger] stage.events[i]) is Nothing,
    ensures
        dispatch(config, stage, start, needs_write) == dispatch(config, stage, end, needs_write),
    decreases end - start,
{
    if start < end {
        assert(duty(config, stage.events[start as int]) is Nothing);
        lemma_dispatch_skips(config, stage, start + 1, end, needs_write);
    }
}

/// Whenever events are to be dealt with from `start` on, the one at `found` gets its due where it is
/// the first of them that asks for something. The child is asked for a report where the event is the
/// child's; a pseudoterminal that did not hang up is read from where it is readable, and else written
/// to where it is writable. Events are dealt with from the first one once all messages are taken in,
/// and from the next one once the one at hand is done with: its child had nothing to report, it was
/// read for and is not writable, the read found the other side gone, or it was written for.
pub proof fn law_first_event_that_asks_gets_its_due(
    config: LoopConfig,
    stage: Stage,
    event: TurnEvent,
    needs_write: bool,
    start: nat,
    found: nat,
)
    requires
        match event {
            TurnEvent::Drained(step) => step is Drained && start == 0,
            TurnEvent::ChildPolled(poll) => poll is Nothing && start == stage.next + 1,
            TurnEvent::PtyRead => {
                &&& stage.phase is Reading
                &&& !stage.events[stage.next as int].writable
                &&& start == stage.next + 1
            },
            TurnEvent::PtyReadFailed { os_error } => {
                &&& stage.phase is Reading
                &&& os_error is Some
                &&& os_error == config.hangup_error
                &&& start == stage.next + 1
            },
            TurnEvent::PtyWritten => start == stage.next + 1,
            _ => false,
        },
        start <= found < stage.events.len(),
        forall|i: int|
            #![trigger stage.events[i]]
            start <= i < found ==> {
                let passed = stage.events[i];
                &&& passed.key != config.child_token
                &&& passed.key != config.read_write_token || passed.interrupt || (!passed.readable
                    && !passed.writable)
            },
        ({
            let asking = stage.events[found as int];
            ||| asking.key == config.child_token
            ||| asking.key == config.read_write_token && !asking.interrupt && (asking.readable
                || asking.writable)
        }),
    ensures
        ({
            let asking = stage.events[found as int];
            turn_step(config, stage, event, needs_write) == (if asking.key == config.child_token {
                (
                    Stage { phase: TurnPhase::PollingChild, next: found, ..stage },
                    TurnAction::PollChild,
                )
            } else if asking.readable {
                (Stage { phase: TurnPhase::Reading, next: found, ..stage }, TurnAction::ReadPty)
            } else {
                (Stage { phase: TurnPhase::Writing, next: found, ..stage }, TurnAction::WritePty)
            })
        }),
{
    lemma_dispatch_skips(config, stage, start, found, needs_write);
}

/// Where no event from `start` on asks for anything, the event loop polls again. First it registers
/// the pseudoterminal anew, for writing or not, where that is not what it is registered for: it has to
/// be registered for writing exactly where something waits to be written.
pub proof fn law_poll_follows_the_last_event(
    config: LoopConfig,
    stage: Stage,
    event: TurnEvent,
    needs_write: bool,
    start: nat,
)
    requires
        match event {
            TurnEvent::Drained(step) => step is Drained && start == 0,
            TurnEvent::ChildPolled(poll) => poll is Nothing && start == stage.next + 1,
            TurnEvent::PtyRead => {
                &&& stage.phase is Reading
                &&& !stage.events[stage.next as int].writable
                &&& start == stage.next + 1
            },
            TurnEvent::PtyReadFailed { os_error } => {
                &&& stage.phase is Reading
                &&& os_error is Some
                &&& os_error == config.hangup_error
                &&& start == stage.next + 1
            },
            TurnEvent::PtyWritten => start == stage.next + 1,
            _ => false,
        },
        start <= stage.events.len(),
        forall|i: int|
            #![trigger stage.events[i]]
            start <= i < stage.events.len() ==> {
                let passed = stage.events[i];
                &&& passed.key != config.child_token
                &&& passed.key != config.read_write_token || passed.interrupt || (!passed.readable
                    && !passed.writable)
            },
    ensures
        turn_step(config, stage, event, needs_write) == (if stage.interest_writable
            == needs_write {
            (
                Stage { phase: TurnPhase::Polling, next: stage.events.len(), ..stage },
                TurnAction::Poll,
            )
        } else {
            (
                Stage {
                    phase: TurnPhase::Reregistering,
                    next: stage.events.len(),
                    interest_writable: needs_write,
                    ..stage
                },
                TurnAction::Reregister { writable: needs_write },
            )
        }),
{
    lemma_dispatch_skips(config, stage, start, stage.events.len(), needs_write);
}

/// After a successful pass of reading for an event that is also writable, the pseudoterminal is
/// written to for that same event, whether or not anything waits to be written by then.
pub proof fn law_write_follows_read_for_the_same_event(
    config: LoopConfig,
    stage: Stage,
    needs_write: bool,
)
    requires
        stage.phase is Reading,
        stage.events[stage.next as int].writable,
    ensures
        turn_step(config, stage, TurnEvent::PtyRead, needs_write) == (
            Stage { phase: TurnPhase::Writing, ..stage },
            TurnAction::WritePty,
        ),
{
}

/// A read that fails ends the event loop, unless it found the other side gone, which only a platform
/// that has an error code for that can tell.
pub proof fn law_failed_read_ends_the_event_loop(
    config: LoopConfig,
    stage: Stage,
    os_error: Option<i32>,
    needs_write: bool,
)
    requires
        stage.phase is Reading,
        config.hangup_error is None || os_error is None || os_error->0 != config.hangup_error->0,
    ensures
        turn_step(config, stage, TurnEvent::PtyReadFailed { os_error }, needs_write) == (
            Stage { phase: TurnPhase::Deregistering, ..stage },
            TurnAction::Deregister,
        ),
{
}

/// What else ends the event loop: a shutdown message, a poll that failed other than by an
/// interruption, a failed write, and the terminal's exit. Each leads to the deregistration of the
/// pseudoterminal, which leads to the stop.
pub proof fn law_ends_lead_through_deregistration(
    config: LoopConfig,
    stage: Stage,
    event: TurnEvent,
    needs_write: bool,
)
    requires
        match event {
            TurnEvent::Drained(step) => step is Shutdown,
            TurnEvent::PollFailed(kind) => kind is WouldBlock || kind is Other,
            TurnEvent::PtyWriteFailed => true,
            TurnEvent::TerminalExited => true,
            _ => false,
        },
    ensures
        turn_step(config, stage, event, needs_write) == (
            Stage { phase: TurnPhase::Deregistering, ..stage },
            TurnAction::Deregister,
        ),
        turn_step(
            config,
            turn_step(config, stage, event, needs_write).0,
            TurnEvent::Deregistered,
            needs_write,
        ) == (Stage { phase: TurnPhase::Stopped, ..stage }, TurnAction::Stop),
{
}

/// The first registration leads to a poll, and its failure to the stop. An interrupted poll is made
/// again, and so is one after a new registration and after the end of a synchronized update.
pub proof fn law_polls_are_taken_up_again(
    config: LoopConfig,
    stage: Stage,
    event: TurnEvent,
    needs_write: bool,
)
    requires
        match event {
            TurnEvent::Registered(ok) => ok,
            TurnEvent::PollFailed(kind) => kind is Interrupted && stage.phase is Polling,
            TurnEvent::SyncEnded => true,
            TurnEvent::Reregistered => true,
            _ => false,
        },
    ensures
        turn_step(config, stage, event, needs_write) == (
            Stage { phase: TurnPhase::Polling, ..stage },
            TurnAction::Poll,
        ),
        turn_step(config, stage, TurnEvent::Registered(false), needs_write) == (
            Stage { phase: TurnPhase::Stopped, ..stage },
            TurnAction::Stop,
        ),
{
}

/// A poll that comes back with nothing, while no message waits, ends the synchronized update. Any
/// other leads to the messages first. Either way its events are kept, all of them and in order, and
/// none is dealt with yet.
pub proof fn law_messages_come_before_events(
    config: LoopConfig,
    stage: Stage,
    events: Vec<PollEvent>,
    message_waiting: bool,
    needs_write: bool,
)
    ensures
        turn_step(config, stage, TurnEvent::Polled { events, message_waiting }, needs_write) == (
            if events@.len() == 0 && !message_waiting {
                (
                    Stage { phase: TurnPhase::EndingSync, events: events@, next: 0, ..stage },
                    TurnAction::EndSync,
                )
            } else {
                (
                    Stage { phase: TurnPhase::Draining, events: events@, next: 0, ..stage },
                    TurnAction::Drain,
                )
            }
        ),
{
}

/// Messages are looked for again after queued input and after a resize, which is to the size that was
/// asked for. A closed queue ends the event loop on the spot.
pub proof fn law_messages_are_taken_in_one_by_one(
    config: LoopConfig,
    stage: Stage,
    size: WindowSize,
    needs_write: bool,
)
    requires
        stage.phase is Draining,
    ensures
        turn_step(config, stage, TurnEvent::Drained(DrainStep::Queued), needs_write) == (
            stage,
            TurnAction::Drain,
        ),
        turn_step(config, stage, TurnEvent::Drained(DrainStep::Resize(size)), needs_write) == (
            Stage { phase: TurnPhase::Resizing, ..stage },
            TurnAction::Resize(size),
        ),
        turn_step(
            config,
            Stage { phase: TurnPhase::Resizing, ..stage },
            TurnEvent::Resized,
            needs_write,
        ) == (stage, TurnAction::Drain),
        turn_step(config, stage, TurnEvent::Drained(DrainStep::Closed), needs_write) == (
            Stage { phase: TurnPhase::Stopped, ..stage },
            TurnAction::GiveUp,
        ),
{
}

/// A child that exits with a status has it passed on. Then, or at once where there is none, the
/// pseudoterminal is read once more where that is asked for. Then, whatever came of that read, or at
/// once where it is not asked for, the terminal is told to exit.
pub proof fn law_exit_steps_follow_each_other(
    config: LoopConfig,
    stage: Stage,
    event: TurnEvent,
    needs_write: bool,
)
    requires
        event is ExitReported || event == TurnEvent::ChildPolled(
            ChildPoll::Exited { with_status: false },
        ),
    ensures
        turn_step(
            config,
            stage,
            TurnEvent::ChildPolled(ChildPoll::Exited { with_status: true }),
            needs_write,
        ) == (Stage { phase: TurnPhase::ReportingExit, ..stage }, TurnAction::ReportExit),
        turn_step(config, stage, event, needs_write) == (if config.drain_on_exit {
            (Stage { phase: TurnPhase::FinalRead, ..stage }, TurnAction::ReadPty)
        } else {
            (Stage { phase: TurnPhase::ExitingTerminal, ..stage }, TurnAction::ExitTerminal)
        }),
{
}

/// Whatever comes of the last read after the child's exit, the terminal is told to exit next.
pub proof fn law_last_read_leads_to_the_terminals_exit(
    config: LoopConfig,
    stage: Stage,
    os_error: Option<i32>,
    needs_write: bool,
)
    requires
        stage.phase is FinalRead,
    ensures
        turn_step(config, stage, TurnEvent::PtyRead, needs_write) == (
            Stage { phase: TurnPhase::ExitingTerminal, ..stage },
            TurnAction::ExitTerminal,
        ),
        turn_step(config, stage, TurnEvent::PtyReadFailed { os_error }, needs_write) == (
            Stage { phase: TurnPhase::ExitingTerminal, ..stage },
            TurnAction::ExitTerminal,
        ),
{
}

} // verus!
