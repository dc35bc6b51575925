//! The event loop's own state, and the steps that it takes.

use crate::channel::{ChannelClosed, EventLoopSender, PeekableReceiver};
use crate::clock::{time_left, wait_until, Clock};
use crate::failure::{hangup_error, LINUX_EIO};
use crate::message::Msg;
use crate::parser::{sync_buffer, sync_until};
use crate::queue::{clone_sender, emptied_queue, fed_queue, new_queue};
use crate::read::{
    read_step, Memory, Outcome, ReadAction, ReadEvent, ReadPass, Surroundings, MAX_LOCKED_READ,
};
use crate::recent::{RecentOutput, Stamped};
use crate::state::{drained, DrainStep, State};
use crate::turn::{
    turn_step, LoopConfig, PollEvent, Stage, Turn, TurnAction, TurnEvent, TurnPhase,
};
use std::sync::mpsc::Sender;
use vstd::prelude::*;

verus! {

/// What there is to an event loop.
pub struct Core {
    /// Whether the pseudoterminal is read once more when the child has exited.
    pub drain_on_exit: bool,
    /// Whether the output is recorded.
    pub ref_test: bool,
    /// Whether `\r\r\n` runs are kept from the parser.
    pub collapse_cr_cr_lf: bool,
    /// Whether the output ended in `\r` when `\r\r\n` runs were last kept from the parser.
    pub pending_trailing_cr: bool,
    /// What was recently forwarded.
    pub window: Seq<Stamped>,
    /// The message that was looked at and not taken yet.
    pub peeked: Option<Msg>,
    /// The queue that the event loop's senders feed.
    pub fed: int,
    /// The queue that the event loop empties.
    pub emptied: int,
    /// The clock by which the event loop tells old output from new.
    pub clock: Clock,
}

/// The main event loop.
///
/// Handles what is read from and written to the pseudoterminal, apart from the I/O itself.
pub struct EventLoop {
    rx: PeekableReceiver<Msg>,
    tx: Sender<Msg>,
    drain_on_exit: bool,
    ref_test: bool,
    recent_output: RecentOutput,
    collapse_cr_cr_lf: bool,
    pending_trailing_cr: bool,
    clock: Clock,
}

impl View for EventLoop {
    type V = Core;

    closed spec fn view(&self) -> Core {
        Core {
            drain_on_exit: self.drain_on_exit,
            ref_test: self.ref_test,
            collapse_cr_cr_lf: self.collapse_cr_cr_lf,
            pending_trailing_cr: self.pending_trailing_cr,
            window: self.recent_output@,
            peeked: self.rx.peeked(),
            fed: fed_queue(self.tx),
            emptied: emptied_queue(self.rx.receiver()),
            clock: self.clock,
        }
    }
}

impl EventLoop {
    /// What the event loop's clock shows at the instant `at`.
    pub open spec fn shows(&self, at: std::time::Instant) -> u128 {
        self@.clock.shows(at)
    }

    /// What the event loop remembers from one pass of reading to the next.
    pub open spec fn memory(&self) -> Memory {
        Memory { window: self@.window, trailing_cr: self@.pending_trailing_cr }
    }

    /// How long a poll may take that begins when the clock shows `now`, where `state` holds the
    /// parser.
    pub open spec fn poll_limit(&self, state: &State, now: u128) -> Option<u128> {
        time_left(
            match sync_until(state.parser_state()) {
                Some(at) => Some(self.shows(at)),
                None => None,
            },
            now,
        )
    }

    /// Creates a new event loop with a queue of its own. It has forwarded nothing yet and leaves
    /// `\r\r\n` runs alone.
    pub fn new(drain_on_exit: bool, ref_test: bool) -> (event_loop: EventLoop)
        ensures
            event_loop@ == (Core {
                drain_on_exit,
                ref_test,
                collapse_cr_cr_lf: false,
                pending_trailing_cr: false,
                window: Seq::<Stamped>::empty(),
                peeked: None,
                fed: event_loop@.emptied,
                emptied: event_loop@.emptied,
                clock: event_loop@.clock,
            }),
    {
        let (tx, rx) = new_queue();
        EventLoop {
            rx: PeekableReceiver::new(rx),
            tx,
            drain_on_exit,
            ref_test,
            recent_output: RecentOutput::new(),
            collapse_cr_cr_lf: false,
            pending_trailing_cr: false,
            clock: Clock::start(),
        }
    }

    /// Says whether `\r\r\n` runs are kept from the parser. Only output that crosses two
    /// pseudoterminals should have this turned on.
    pub fn collapse_cr_cr_lf(self, enabled: bool) -> (event_loop: EventLoop)
        ensures
            event_loop@ == (Core { collapse_cr_cr_lf: enabled, ..self@ }),
    {
        EventLoop {
            rx: self.rx,
            tx: self.tx,
            drain_on_exit: self.drain_on_exit,
            ref_test: self.ref_test,
            recent_output: self.recent_output,
            collapse_cr_cr_lf: enabled,
            pending_trailing_cr: self.pending_trailing_cr,
            clock: self.clock,
        }
    }

    /// A sender for the event loop's queue.
    pub fn channel(&self) -> (sender: EventLoopSender)
        ensures
            sender.queue() == self@.fed,
    {
        EventLoopSender::new(clone_sender(&self.tx))
    }

    /// Whether the output is recorded.
    pub fn ref_test(&self) -> (yes: bool)
        ensures
            yes == self@.ref_test,
    {
        self.ref_test
    }

    /// The course of this event loop, before the pseudoterminal is registered for reading.
    pub fn turn(&self, child_token: usize, read_write_token: usize, on_linux: bool) -> (turn: Turn)
        ensures
            turn.config() == (LoopConfig {
                child_token,
                read_write_token,
                drain_on_exit: self@.drain_on_exit,
                hangup_error: if on_linux {
                    Some(LINUX_EIO)
                } else {
                    None
                },
            }),
            turn@ == (Stage {
                phase: TurnPhase::Registering,
                events: Seq::<PollEvent>::empty(),
                next: 0,
                interest_writable: false,
            }),
            turn@.wf(turn.config()),
    {
        Turn::new(
            LoopConfig {
                child_token,
                read_write_token,
                drain_on_exit: self.drain_on_exit,
                hangup_error: hangup_error(on_linux),
            },
        )
    }

    /// Takes in what happened during a pass of reading, and says what to do next.
    pub fn pty_read(
        &mut self,
        state: &State,
        pass: &mut ReadPass,
        buf: &[u8],
        event: ReadEvent,
    ) -> (action: ReadAction)
        requires
            buf@.len() + MAX_LOCKED_READ <= usize::MAX,
            old(pass)@.wf(buf@.len()),
            old(pass)@.expects(event, buf@.len()),
        ensures
            exists|instant: std::time::Instant|
                (Outcome {
                    pass: final(pass)@,
                    memory: final(self).memory(),
                    next: action,
                }) == read_step(
                    old(pass)@,
                    old(self).memory(),
                    Surroundings {
                        buf: buf@,
                        collapse: old(self)@.collapse_cr_cr_lf,
                        now: #[trigger] old(self).shows(instant),
                        sync_bytes: sync_buffer(state.parser_state()).len(),
                    },
                    event,
                ),
            final(self)@ == (Core {
                window: final(self)@.window,
                pending_trailing_cr: final(self)@.pending_trailing_cr,
                ..old(self)@
            }),
            final(pass)@.wf(buf@.len()),
            crate::read::brings_about(action, final(pass)@.phase),
    {
        let now: u128 = self.clock.now();
        assert(exists|instant: std::time::Instant| now == #[trigger] self.shows(instant)) by {
            let instant = choose|instant: std::time::Instant|
                now == #[trigger] self.clock.shows(instant);
            assert(now == self.shows(instant));
        }
        let sync_bytes: usize = state.sync_bytes_count();
        self.pty_read_at(pass, buf, event, now, sync_bytes)
    }

    /// Takes in what happened at `now` during a pass of reading, where the parser holds
    /// `sync_bytes` bytes back for a synchronized update, and says what to do next.
    pub fn pty_read_at(
        &mut self,
        pass: &mut ReadPass,
        buf: &[u8],
        event: ReadEvent,
        now: u128,
        sync_bytes: usize,
    ) -> (action: ReadAction)
        requires
            buf@.len() + MAX_LOCKED_READ <= usize::MAX,
            old(pass)@.wf(buf@.len()),
            old(pass)@.expects(event, buf@.len()),
        ensures
            (Outcome { pass: final(pass)@, memory: final(self).memory(), next: action })
                == read_step(
                old(pass)@,
                old(self).memory(),
                Surroundings {
                    buf: buf@,
                    collapse: old(self)@.collapse_cr_cr_lf,
                    now,
                    sync_bytes: sync_bytes as nat,
                },
                event,
            ),
            final(self)@ == (Core {
                window: final(self)@.window,
                pending_trailing_cr: final(self)@.pending_trailing_cr,
                ..old(self)@
            }),
            final(pass)@.wf(buf@.len()),
            crate::read::brings_about(action, final(pass)@.phase),
    {
        pass.step(
            &mut self.recent_output,
            self.collapse_cr_cr_lf,
            &mut self.pending_trailing_cr,
            buf,
            event,
            now,
            sync_bytes,
        )
    }

    /// Takes the next message, if one waits, and handles it.
    ///
    /// This is called over and over, with what it asks for done in between, until no message
    /// waits any more or the event loop is to shut down.
    pub fn drain_recv_channel(&mut self, state: &mut State) -> (step: DrainStep)
        ensures
            exists|message: Result<Option<Msg>, ChannelClosed>|
                {
                    &&& (final(state)@, step) == #[trigger] drained(old(state)@, message)
                    &&& old(self)@.peeked is Some ==> message == Ok::<Option<Msg>, ChannelClosed>(
                        old(self)@.peeked,
                    )
                },
            final(state).parser_state() == old(state).parser_state(),
            final(self)@ == (Core { peeked: None, ..old(self)@ }),
    {
        let message = self.rx.recv();
        state.take_in(message)
    }

    /// How many nanoseconds a poll may take that begins now, so that a synchronized update is ended
    /// when its time is up; without a limit where no such update is under way.
    pub fn poll_timeout(&self, state: &State) -> (nanos: Option<u128>)
        ensures
            exists|instant: std::time::Instant|
                nanos == self.poll_limit(state, #[trigger] self.shows(instant)),
    {
        let now: u128 = self.clock.now();
        proof {
            let instant = choose|instant: std::time::Instant|
                now == #[trigger] self.clock.shows(instant);
            assert(now == self.shows(instant));
        }
        self.poll_timeout_at(state, now)
    }

    /// How many nanoseconds a poll may take that begins when the clock shows `now`, so that a
    /// synchronized update is ended when its time is up; without a limit where no such update is
    /// under way.
    pub fn poll_timeout_at(&self, state: &State, now: u128) -> (nanos: Option<u128>)
        ensures
            nanos == self.poll_limit(state, now),
    {
        let deadline: Option<u128> = match state.sync_deadline() {
            Some(at) => Some(self.clock.at(at)),
            None => None,
        };
        wait_until(deadline, now)
    }

    /// Takes in the events that a poll ended with, and says what to do next. Where there are none,
    /// it matters whether a message waits, so the queue is looked into.
    pub fn polled(&mut self, turn: &mut Turn, state: &State, events: Vec<PollEvent>) -> (action:
        TurnAction)
        requires
            old(turn)@.wf(old(turn).config()),
            old(turn)@.phase is Polling,
        ensures
            (final(turn)@, action) == turn_step(
                old(turn).config(),
                old(turn)@,
                TurnEvent::Polled { events, message_waiting: final(self)@.peeked is Some },
                state@.waiting(),
            ),
            final(turn).config() == old(turn).config(),
            final(turn)@.wf(final(turn).config()),
            crate::turn::brings_about(action, final(turn)@.phase),
            final(self)@ == (Core { peeked: final(self)@.peeked, ..old(self)@ }),
            events@.len() > 0 || old(self)@.peeked is Some ==> final(self)@ == old(self)@,
    {
        let message_waiting: bool = if events.len() == 0 {
            self.rx.peek().is_some()
        } else {
            false
        };
        turn.step(TurnEvent::Polled { events, message_waiting }, state.needs_write())
    }

    /// Takes in the next message, if one waits, and says what to do next.
    pub fn drain(&mut self, turn: &mut Turn, state: &mut State) -> (action: TurnAction)
        requires
            old(turn)@.wf(old(turn).config()),
            old(turn)@.phase is Draining,
        ensures
            exists|message: Result<Option<Msg>, ChannelClosed>|
                {
                    let (out, step) = #[trigger] drained(old(state)@, message);
                    &&& final(state)@ == out
                    &&& (final(turn)@, action) == turn_step(
                        old(turn).config(),
                        old(turn)@,
                        TurnEvent::Drained(step),
                        out.waiting(),
                    )
                    &&& old(self)@.peeked is Some ==> message == Ok::<Option<Msg>, ChannelClosed>(
                        old(self)@.peeked,
                    )
                },
            final(state).parser_state() == old(state).parser_state(),
            final(turn).config() == old(turn).config(),
            final(turn)@.wf(final(turn).config()),
            crate::turn::brings_about(action, final(turn)@.phase),
            final(self)@ == (Core { peeked: None, ..old(self)@ }),
    {
        let step: DrainStep = self.drain_recv_channel(state);
        turn.step(TurnEvent::Drained(step), state.needs_write())
    }
}

/// A poll has a limit exactly where a synchronized update is under way: it ends when the update has to
/// end, and at once where that time has passed.
pub proof fn law_poll_ends_with_the_synchronized_update(
    event_loop: EventLoop,
    state: State,
    now: u128,
)
    ensures
        match sync_until(state.parser_state()) {
            Some(at) => match event_loop.poll_limit(&state, now) {
                Some(limit) => {
                    &&& now <= event_loop@.clock.shows(at) ==> now + limit
                        == event_loop@.clock.shows(at)
                    &&& now >= event_loop@.clock.shows(at) ==> limit == 0
                },
                None => false,
            },
            None => event_loop.poll_limit(&state, now) is None,
        },
{
}

/// What the event loop remembers from one pass of reading to the next is its window and whether the
/// output ended in `\r`; its time is that of its clock.
pub proof fn law_memory_is_the_event_loops_own(event_loop: EventLoop, at: std::time::Instant)
    ensures
        event_loop.memory().window == event_loop@.window,
        event_loop.memory().trailing_cr == event_loop@.pending_trailing_cr,
        event_loop.shows(at) == event_loop@.clock.shows(at),
{
}

} // verus!
