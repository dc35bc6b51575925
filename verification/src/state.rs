//! The mutable state of the event loop: what is still to be written, and the parser.

use crate::channel::ChannelClosed;
use crate::failure::IoErrorKind;
use crate::message::{cow_from, cow_len, lemma_cow_fits, Msg, WindowSize};
use crate::parser::{sync_buffer, sync_until, Parser};
use std::borrow::Cow;
use std::collections::VecDeque;
use vstd::prelude::*;

verus! {

/// How far a buffer has been written: the first `written` bytes of `source` are out.
pub struct Progress {
    pub source: Seq<u8>,
    pub written: nat,
}

impl Progress {
    /// Nothing beyond the end of the buffer has been written.
    pub open spec fn wf(self) -> bool {
        self.written <= self.source.len()
    }

    /// The bytes that are still to be written.
    pub open spec fn remaining(self) -> Seq<u8> {
        self.source.skip(self.written as int)
    }
}

/// Tracks how much of a buffer has been written.
pub struct Writing {
    source: Cow<'static, [u8]>,
    written: usize,
}

impl View for Writing {
    type V = Progress;

    closed spec fn view(&self) -> Progress {
        Progress { source: self.source@, written: self.written as nat }
    }
}

impl Writing {
    /// Starts to write `c`.
    pub fn new(c: Cow<'static, [u8]>) -> (writing: Writing)
        ensures
            writing@ == (Progress { source: c@, written: 0 }),
    {
        Writing { source: c, written: 0 }
    }

    /// Takes note that `n` more bytes are out.
    pub fn advance(&mut self, n: usize)
        requires
            old(self)@.written + n <= usize::MAX || old(self)@.written + n <= old(
                self,
            )@.source.len(),
        ensures
            final(self)@ == (Progress {
                source: old(self)@.source,
                written: old(self)@.written + n as nat,
            }),
    {
        proof {
            lemma_cow_fits(self.source);
        }
        self.written = self.written + n;
    }

    /// The bytes that are still to be written.
    pub fn remaining_bytes(&self) -> (rest: &[u8])
        requires
            self@.wf(),
        ensures
            rest@ == self@.remaining(),
    {
        cow_from(&self.source, self.written)
    }

    /// Whether the whole buffer is out.
    pub fn finished(&self) -> (yes: bool)
        ensures
            yes == (self@.written >= self@.source.len()),
    {
        self.written >= cow_len(&self.source)
    }
}

/// What is to be written: the buffer that is being written, if any, and those that wait.
pub struct Outgoing {
    pub current: Option<Progress>,
    pub queue: Seq<Seq<u8>>,
}

/// `queue`, one buffer after the other.
pub open spec fn joined(queue: Seq<Seq<u8>>) -> Seq<u8>
    decreases queue.len(),
{
    if queue.len() == 0 {
        Seq::empty()
    } else {
        queue[0] + joined(queue.skip(1))
    }
}

impl Outgoing {
    /// The buffer that is being written is not written beyond its end.
    pub open spec fn wf(self) -> bool {
        self.current matches Some(progress) ==> progress.wf()
    }

    /// Whether anything waits to be written.
    pub open spec fn waiting(self) -> bool {
        self.current is Some || self.queue.len() > 0
    }

    /// Turns to the first buffer that waits, if any.
    pub open spec fn next(self) -> Outgoing {
        if self.queue.len() == 0 {
            Outgoing { current: None, queue: self.queue }
        } else {
            Outgoing {
                current: Some(Progress { source: self.queue[0], written: 0 }),
                queue: self.queue.skip(1),
            }
        }
    }

    /// Turns to the first buffer that waits, unless one is being written.
    pub open spec fn ensured(self) -> Outgoing {
        if self.current is None {
            self.next()
        } else {
            self
        }
    }

    /// Puts `bytes` behind everything that waits.
    pub open spec fn with_input(self, bytes: Seq<u8>) -> Outgoing {
        Outgoing { current: self.current, queue: self.queue.push(bytes) }
    }

    /// Every byte that is still to be written, in the order in which it goes out.
    pub open spec fn pending(self) -> Seq<u8> {
        match self.current {
            Some(progress) => progress.remaining() + joined(self.queue),
            None => joined(self.queue),
        }
    }

    /// No buffer is empty and the one that is being written is not finished.
    pub open spec fn no_empty(self) -> bool {
        &&& self.current matches Some(progress) ==> progress.written < progress.source.len()
        &&& forall|i: int| 0 <= i < self.queue.len() ==> (#[trigger] self.queue[i]).len() > 0
    }
}

/// What happened while the pseudoterminal is being written to.
#[derive(Debug, Clone, Copy, PartialEq, Eq, Structural)]
pub enum WriteEvent {
    /// The pseudoterminal became writable.
    Writable,
    /// This many bytes were accepted.
    Wrote(usize),
    /// Writing failed.
    Failed(IoErrorKind),
}

/// What to do next to write to the pseudoterminal.
#[derive(Debug, Clone, Copy, PartialEq, Eq, Structural)]
pub enum WriteAction {
    /// Write `State::remaining_bytes`.
    Write,
    /// Stop writing for now.
    Finish,
    /// Report the failure.
    Fail,
}

/// Go on with the buffer at hand, or stop where there is none.
pub open spec fn go_on(out: Outgoing) -> (Outgoing, WriteAction) {
    (
        out,
        if out.current is Some {
            WriteAction::Write
        } else {
            WriteAction::Finish
        },
    )
}

/// What is left to be written after `event`, and what to do next.
pub open spec fn write_step(out: Outgoing, event: WriteEvent) -> (Outgoing, WriteAction) {
    match event {
        WriteEvent::Writable => go_on(out.ensured()),
        WriteEvent::Wrote(n) => {
            let progress = out.current->0;
            if n == 0 {
                (out, WriteAction::Finish)
            } else if progress.written + n >= progress.source.len() {
                go_on(out.next())
            } else {
                let advanced = Progress {
                    source: progress.source,
                    written: progress.written + n as nat,
                };
                (Outgoing { current: Some(advanced), queue: out.queue }, WriteAction::Write)
            }
        },
        WriteEvent::Failed(kind) => (
            out,
            if kind.is_transient() {
                WriteAction::Finish
            } else {
                WriteAction::Fail
            },
        ),
    }
}

/// What a message asks of the event loop.
#[derive(Debug, Clone, Copy, PartialEq, Eq, Structural)]
pub enum DrainStep {
    /// The input was queued; look for the next message.
    Queued,
    /// Resize the pseudoterminal, then look for the next message.
    Resize(WindowSize),
    /// Shut down.
    Shutdown,
    /// No message is waiting.
    Drained,
    /// No message will ever come any more.
    Closed,
}

/// What is left to be written once `msg` was handled, and what it asks of the event loop.
pub open spec fn handled(out: Outgoing, msg: Msg) -> (Outgoing, DrainStep) {
    match msg {
        Msg::Input(bytes) => (out.with_input(bytes@), DrainStep::Queued),
        Msg::Resize(size) => (out, DrainStep::Resize(size)),
        Msg::Shutdown => (out, DrainStep::Shutdown),
    }
}

/// What is left to be written once a message was looked for and handled, and what is asked of the
/// event loop.
pub open spec fn drained(
    out: Outgoing,
    message: Result<Option<Msg>, ChannelClosed>,
) -> (Outgoing, DrainStep) {
    match message {
        Ok(Some(msg)) => handled(out, msg),
        Ok(None) => (out, DrainStep::Drained),
        Err(_) => (out, DrainStep::Closed),
    }
}

/// All of the mutable state that the event loop needs besides its own: the list of buffers to
/// write, how far the current one is, and the parser.
pub struct State {
    write_list: VecDeque<Cow<'static, [u8]>>,
    writing: Option<Writing>,
    pub parser: Parser,
}

impl View for State {
    type V = Outgoing;

    closed spec fn view(&self) -> Outgoing {
        Outgoing {
            current: match self.writing {
                Some(writing) => Some(writing@),
                None => None,
            },
            queue: Seq::new(self.write_list@.len(), |i: int| self.write_list@[i]@),
        }
    }
}

impl Default for State {
    /// Nothing to write, and a new parser.
    fn default() -> (state: State)
        ensures
            state@ == (Outgoing { current: None, queue: Seq::<Seq<u8>>::empty() }),
            sync_buffer(state.parser_state()) == Seq::<u8>::empty(),
            sync_until(state.parser_state()) is None,
    {
        let state = State { write_list: VecDeque::new(), writing: None, parser: Parser::new() };
        assert(state@.queue == Seq::<Seq<u8>>::empty());
        state
    }
}

impl State {
    /// The parser.
    pub closed spec fn parser_state(&self) -> Parser {
        self.parser
    }

    /// How many bytes the parser holds back for a synchronized update.
    pub fn sync_bytes_count(&self) -> (count: usize)
        ensures
            count == sync_buffer(self.parser_state()).len(),
    {
        self.parser.sync_bytes_count()
    }

    /// When the synchronized update that is under way has to end; none where there is no such
    /// update.
    pub fn sync_deadline(&self) -> (deadline: Option<std::time::Instant>)
        ensures
            deadline == sync_until(self.parser_state()),
    {
        self.parser.sync_deadline()
    }

    /// Queues `input` to be written.
    pub fn push_input(&mut self, input: Cow<'static, [u8]>)
        ensures
            final(self)@ == old(self)@.with_input(input@),
            final(self).parser_state() == old(self).parser_state(),
    {
        self.write_list.push_back(input);
        assert(self@.queue == old(self)@.queue.push(input@));
    }

    /// Turns to the next buffer, unless one is being written.
    pub fn ensure_next(&mut self)
        ensures
            final(self)@ == old(self)@.ensured(),
            final(self).parser_state() == old(self).parser_state(),
    {
        if self.writing.is_none() {
            self.goto_next();
        }
    }

    /// Turns to the next buffer.
    pub fn goto_next(&mut self)
        ensures
            final(self)@ == old(self)@.next(),
            final(self).parser_state() == old(self).parser_state(),
    {
        self.writing = match self.write_list.pop_front() {
            Some(input) => Some(Writing::new(input)),
            None => None,
        };
        assert(old(self)@.queue.len() > 0 ==> self@.queue == old(self)@.queue.skip(1));
        assert(old(self)@.queue.len() == 0 ==> self@.queue == old(self)@.queue);
    }

    /// Takes the buffer that is being written out of the state.
    pub fn take_current(&mut self) -> (current: Option<Writing>)
        ensures
            match current {
                Some(writing) => old(self)@.current == Some(writing@),
                None => old(self)@.current is None,
            },
            final(self)@ == (Outgoing { current: None, queue: old(self)@.queue }),
            final(self).parser_state() == old(self).parser_state(),
    {
        let current = self.writing.take();
        assert(self@.queue == old(self)@.queue);
        current
    }

    /// Whether anything waits to be written.
    pub fn needs_write(&self) -> (yes: bool)
        ensures
            yes == self@.waiting(),
    {
        self.writing.is_some() || self.write_list.len() > 0
    }

    /// Makes `new` the buffer that is being written.
    pub fn set_current(&mut self, new: Option<Writing>)
        ensures
            final(self)@ == (Outgoing {
                current: match new {
                    Some(writing) => Some(writing@),
                    None => None,
                },
                queue: old(self)@.queue,
            }),
            final(self).parser_state() == old(self).parser_state(),
    {
        self.writing = new;
        assert(self@.queue == old(self)@.queue);
    }

    /// The bytes that the buffer at hand still has to offer; none where there is no buffer.
    pub fn remaining_bytes(&self) -> (rest: &[u8])
        requires
            self@.wf(),
        ensures
            rest@ == (match self@.current {
                Some(progress) => progress.remaining(),
                None => Seq::<u8>::empty(),
            }),
    {
        match &self.writing {
            Some(writing) => writing.remaining_bytes(),
            None => &[],
        }
    }

    /// Takes in what happened while the pseudoterminal is being written to, and says what to do
    /// next.
    ///
    /// Buffers go out one after the other. A write of zero bytes, or one that would have to wait,
    /// ends the attempt; what is left stays for the next one.
    pub fn pty_write(&mut self, event: WriteEvent) -> (action: WriteAction)
        requires
            old(self)@.wf(),
            event is Writable || old(self)@.current is Some,
            event matches WriteEvent::Wrote(n) ==> old(self)@.current->0.written + n <= usize::MAX
                || n <= old(self)@.current->0.remaining().len(),
        ensures
            (final(self)@, action) == write_step(old(self)@, event),
            final(self)@.wf(),
            possible(old(self)@, event) ==> accepted(old(self)@, event) + final(self)@.pending()
                == old(self)@.pending(),
            final(self).parser_state() == old(self).parser_state(),
    {
        proof {
            if possible(self@, event) {
                law_write_step_keeps_every_byte(self@, event);
            }
        }
        match event {
            WriteEvent::Writable => {
                self.ensure_next();
            },
            WriteEvent::Wrote(n) => {
                if n == 0 {
                    return WriteAction::Finish;
                }
                if let Some(mut current) = self.take_current() {
                    current.advance(n);
                    if current.finished() {
                        self.goto_next();
                    } else {
                        self.set_current(Some(current));
                    }
                }
            },
            WriteEvent::Failed(kind) => {
                return if kind.transient() {
                    WriteAction::Finish
                } else {
                    WriteAction::Fail
                };
            },
        }
        if self.writing.is_some() {
            WriteAction::Write
        } else {
            WriteAction::Finish
        }
    }

    /// Handles `msg`: queues input, and says what else the message asks for.
    pub fn handle_message(&mut self, msg: Msg) -> (step: DrainStep)
        ensures
            (final(self)@, step) == handled(old(self)@, msg),
            final(self).parser_state() == old(self).parser_state(),
    {
        match msg {
            Msg::Input(input) => {
                self.push_input(input);
                DrainStep::Queued
            },
            Msg::Resize(window_size) => DrainStep::Resize(window_size),
            Msg::Shutdown => DrainStep::Shutdown,
        }
    }

    /// Handles what a look for the next message gave.
    pub fn take_in(&mut self, message: Result<Option<Msg>, ChannelClosed>) -> (step: DrainStep)
        ensures
            (final(self)@, step) == drained(old(self)@, message),
            final(self).parser_state() == old(self).parser_state(),
    {
        match message {
            Ok(Some(msg)) => self.handle_message(msg),
            Ok(None) => DrainStep::Drained,
            Err(_) => DrainStep::Closed,
        }
    }
}

/// Whether `event` can happen in the middle of writing `out`: there is a buffer at hand, and no
/// more of it was accepted than it had to offer.
pub open spec fn possible(out: Outgoing, event: WriteEvent) -> bool {
    match event {
        WriteEvent::Writable => true,
        WriteEvent::Wrote(n) => out.current matches Some(progress) && progress.written + n
            <= progress.source.len(),
        WriteEvent::Failed(_) => out.current is Some,
    }
}

/// The bytes that were accepted with `event`.
pub open spec fn accepted(out: Outgoing, event: WriteEvent) -> Seq<u8> {
    match event {
        WriteEvent::Wrote(n) => out.current->0.remaining().take(n as int),
        _ => Seq::empty(),
    }
}

proof fn lemma_next_pending(out: Outgoing)
    ensures
        out.next().pending() == joined(out.queue),
{
    if out.queue.len() > 0 {
        assert(out.queue[0].skip(0) == out.queue[0]);
    }
}

/// Nothing is lost, repeated or reordered by a step: what was accepted and what is still pending
/// make up what was pending before.
pub proof fn law_write_step_keeps_every_byte(out: Outgoing, event: WriteEvent)
    requires
        out.wf(),
        possible(out, event),
    ensures
        accepted(out, event) + write_step(out, event).0.pending() == out.pending(),
        write_step(out, event).0.wf(),
{
    let after = write_step(out, event).0;
    match event {
        WriteEvent::Writable => {
            lemma_next_pending(out);
        },
        WriteEvent::Wrote(n) => {
            let progress = out.current->0;
            let rest = progress.remaining();
            assert(rest.take(n as int) + rest.skip(n as int) == rest);
            if n > 0 && progress.written + n >= progress.source.len() {
                lemma_next_pending(out);
                assert(rest.take(n as int) == rest);
            } else {
                assert(rest.skip(n as int) == progress.source.skip(progress.written + n));
                assert(rest.skip(0) == rest);
            }
        },
        WriteEvent::Failed(_) => {},
    }
    assert(accepted(out, event) + after.pending() == out.pending());
}

/// What is left to be written after `events`, in order.
pub open spec fn write_run(out: Outgoing, events: Seq<WriteEvent>) -> Outgoing
    decreases events.len(),
{
    if events.len() == 0 {
        out
    } else {
        write_step(write_run(out, events.drop_last()), events.last()).0
    }
}

/// All bytes that were accepted with `events`, in order.
pub open spec fn accepted_run(out: Outgoing, events: Seq<WriteEvent>) -> Seq<u8>
    decreases events.len(),
{
    if events.len() == 0 {
        Seq::empty()
    } else {
        accepted_run(out, events.drop_last()) + accepted(
            write_run(out, events.drop_last()),
            events.last(),
        )
    }
}

/// Whether `events` can happen one after the other.
pub open spec fn possible_run(out: Outgoing, events: Seq<WriteEvent>) -> bool
    decreases events.len(),
{
    events.len() == 0 || (possible_run(out, events.drop_last()) && possible(
        write_run(out, events.drop_last()),
        events.last(),
    ))
}

/// Over any course of writing, with partial writes and failures in between, the pseudoterminal
/// gets the bytes that were pending, each once and in order.
pub proof fn law_writing_keeps_every_byte(out: Outgoing, events: Seq<WriteEvent>)
    requires
        out.wf(),
        possible_run(out, events),
    ensures
        accepted_run(out, events) + write_run(out, events).pending() == out.pending(),
        write_run(out, events).wf(),
    decreases events.len(),
{
    if events.len() > 0 {
        let before = events.drop_last();
        law_writing_keeps_every_byte(out, before);
        let middle = write_run(out, before);
        law_write_step_keeps_every_byte(middle, events.last());
        let end = write_run(out, events);
        assert(accepted_run(out, events) + end.pending() == accepted_run(out, before) + (accepted(
            middle,
            events.last(),
        ) + end.pending()));
    } else {
        assert(accepted_run(out, events) + out.pending() == out.pending());
    }
}

/// Where writing stops for want of buffers, everything that was pending is out.
pub proof fn law_idle_means_all_written(out: Outgoing)
    requires
        !out.waiting(),
    ensures
        out.pending() == Seq::<u8>::empty(),
{
}

/// As long as no empty buffer was queued, something waits exactly while bytes are pending.
pub proof fn law_waiting_means_bytes_are_pending(out: Outgoing)
    requires
        out.no_empty(),
    ensures
        out.waiting() <==> out.pending().len() > 0,
{
    if out.queue.len() > 0 {
        assert(out.queue[0].len() > 0);
        assert(joined(out.queue).len() >= out.queue[0].len());
    }
}

/// As long as no empty buffer was queued, none comes up: every write that is asked for offers at
/// least one byte.
pub proof fn law_no_empty_write(out: Outgoing, event: WriteEvent)
    requires
        out.no_empty(),
        possible(out, event),
    ensures
        write_step(out, event).0.no_empty(),
        write_step(out, event).1 is Write ==> write_step(out, event).0.current->0.remaining().len()
            > 0,
{
    let after = write_step(out, event).0;
    assert forall|i: int| 0 <= i < after.queue.len() implies (#[trigger] after.queue[i]).len()
        > 0 by {
        if after.queue.len() < out.queue.len() {
            assert(after.queue[i] == out.queue[i + 1]);
        } else {
            assert(after.queue[i] == out.queue[i]);
        }
    }
    if out.queue.len() > 0 {
        assert(out.queue[0].len() > 0);
    }
}

proof fn lemma_joined_push(queue: Seq<Seq<u8>>, bytes: Seq<u8>)
    ensures
        joined(queue.push(bytes)) == joined(queue) + bytes,
    decreases queue.len(),
{
    let all = queue.push(bytes);
    if queue.len() == 0 {
        assert(all.skip(1) == Seq::<Seq<u8>>::empty());
        assert(joined(all.skip(1)) == Seq::<u8>::empty());
        assert(joined(all) == joined(queue) + bytes);
    } else {
        assert(all.skip(1) == queue.skip(1).push(bytes));
        lemma_joined_push(queue.skip(1), bytes);
        assert(joined(all) == joined(queue) + bytes);
    }
}

/// Input goes out behind everything that is pending; no other message touches what is pending.
pub proof fn law_input_is_appended(out: Outgoing, msg: Msg)
    ensures
        handled(out, msg).0.pending() == out.pending() + (match msg {
            Msg::Input(bytes) => bytes@,
            _ => Seq::<u8>::empty(),
        }),
{
    match msg {
        Msg::Input(bytes) => {
            lemma_joined_push(out.queue, bytes@);
            assert(handled(out, msg).0.pending() == out.pending() + bytes@);
        },
        _ => {
            assert(out.pending() + Seq::<u8>::empty() == out.pending());
        },
    }
}

/// What a whole drain comes to.
pub struct Drain {
    /// What is left to be written.
    pub out: Outgoing,
    /// The sizes that the pseudoterminal was resized to, in order.
    pub sizes: Seq<WindowSize>,
    /// Whether the event loop goes on.
    pub goes_on: bool,
}

/// A drain of a queue that holds `msgs`: they are handled one after the other until none is left or
/// one of them asks for a shutdown.
pub open spec fn drain_run(out: Outgoing, msgs: Seq<Msg>) -> Drain
    decreases msgs.len(),
{
    if msgs.len() == 0 {
        Drain { out, sizes: Seq::empty(), goes_on: true }
    } else {
        let (next, step) = handled(out, msgs[0]);
        match step {
            DrainStep::Shutdown => Drain { out: next, sizes: Seq::empty(), goes_on: false },
            DrainStep::Resize(size) => {
                let rest = drain_run(next, msgs.skip(1));
                Drain { sizes: seq![size] + rest.sizes, ..rest }
            },
            _ => drain_run(next, msgs.skip(1)),
        }
    }
}

/// The messages of `msgs` before the first that asks for a shutdown.
pub open spec fn before_shutdown(msgs: Seq<Msg>) -> Seq<Msg>
    decreases msgs.len(),
{
    if msgs.len() == 0 || msgs[0] is Shutdown {
        Seq::empty()
    } else {
        seq![msgs[0]] + before_shutdown(msgs.skip(1))
    }
}

/// The input among `msgs`, in order.
pub open spec fn input_of(msgs: Seq<Msg>) -> Seq<u8>
    decreases msgs.len(),
{
    if msgs.len() == 0 {
        Seq::empty()
    } else {
        (match msgs[0] {
            Msg::Input(bytes) => bytes@,
            _ => Seq::empty(),
        }) + input_of(msgs.skip(1))
    }
}

/// The window sizes among `msgs`, in order.
pub open spec fn sizes_of(msgs: Seq<Msg>) -> Seq<WindowSize>
    decreases msgs.len(),
{
    if msgs.len() == 0 {
        Seq::empty()
    } else {
        (match msgs[0] {
            Msg::Resize(size) => seq![size],
            _ => Seq::empty(),
        }) + sizes_of(msgs.skip(1))
    }
}

/// A whole drain: exactly the messages before the first shutdown take effect. Their input goes out
/// behind what was pending, in the order in which it was sent, their sizes are applied in that
/// order, and the event loop goes on exactly where no shutdown is among the messages.
pub proof fn law_drain_stops_at_shutdown(out: Outgoing, msgs: Seq<Msg>)
    ensures
        drain_run(out, msgs).out.pending() == out.pending() + input_of(before_shutdown(msgs)),
        drain_run(out, msgs).sizes == sizes_of(before_shutdown(msgs)),
        drain_run(out, msgs).goes_on <==> forall|i: int|
            0 <= i < msgs.len() ==> !((#[trigger] msgs[i]) is Shutdown),
        drain_run(out, msgs) == (Drain {
            goes_on: drain_run(out, msgs).goes_on,
            ..drain_run(out, before_shutdown(msgs))
        }),
    decreases msgs.len(),
{
    let effective = before_shutdown(msgs);
    if msgs.len() == 0 || msgs[0] is Shutdown {
        assert(out.pending() + input_of(effective) == out.pending());
    } else {
        let rest = msgs.skip(1);
        let next = handled(out, msgs[0]).0;
        law_drain_stops_at_shutdown(next, rest);
        law_input_is_appended(out, msgs[0]);
        assert(effective.skip(1) == before_shutdown(rest));
        assert(effective[0] == msgs[0]);
        assert(drain_run(out, msgs).out.pending() == out.pending() + input_of(effective));
        assert forall|i: int| 0 <= i < msgs.len() && drain_run(next, rest).goes_on implies !((
        #[trigger] msgs[i]) is Shutdown) by {
            if i > 0 {
                assert(msgs[i] == rest[i - 1]);
            }
        }
        assert forall|i: int| 0 <= i < rest.len() implies #[trigger] rest[i] == msgs[i + 1] by {}
    }
}

/// A write is asked for only where a buffer is at hand to be written, so that whatever comes of
/// it is an event that writing waits for.
pub proof fn law_write_has_a_buffer(out: Outgoing, event: WriteEvent)
    ensures
        write_step(out, event).1 is Write ==> write_step(out, event).0.current is Some,
{
}

/// What a buffer still has to offer is its bytes from the first that is not out yet to the last, and
/// nothing else.
pub proof fn law_remaining_bytes_end_the_buffer(progress: Progress)
    requires
        progress.written <= progress.source.len(),
    ensures
        progress.remaining().len() == progress.source.len() - progress.written,
        forall|i: int|
            0 <= i < progress.remaining().len() ==> (#[trigger] progress.remaining()[i])
                == progress.source[progress.written + i],
{
}

/// Something waits to be written exactly where a buffer is being written or at least one is queued:
/// so it does once input was queued, and as long as a buffer is at hand.
pub proof fn law_buffer_at_hand_or_queued_waits(out: Outgoing, bytes: Seq<u8>)
    ensures
        !out.waiting() <==> out.current is None && out.queue.len() == 0,
        out.with_input(bytes).waiting(),
{
}

/// Turning to the next buffer takes the first one off the queue and starts it from its first byte; it
/// is done only where no buffer is at hand.
pub proof fn law_buffers_are_taken_from_the_front(out: Outgoing, first: Seq<u8>, rest: Seq<Seq<u8>>)
    requires
        out.queue == seq![first] + rest,
    ensures
        out.next() == (Outgoing {
            current: Some(Progress { source: first, written: 0 }),
            queue: rest,
        }),
        out.current is None ==> out.ensured() == out.next(),
        out.current is Some ==> out.ensured() == out,
{
    assert(out.queue[0] == first);
    assert(out.queue.skip(1) == rest);
}

/// Where no buffer is queued, turning to the next one leaves none at hand.
pub proof fn law_no_buffer_follows_the_last(out: Outgoing)
    requires
        out.queue.len() == 0,
    ensures
        out.next().current is None,
        out.next().queue.len() == 0,
        out.ensured() == out,
{
    assert(out.next().queue == out.queue);
}

/// Writing goes on exactly where a buffer is left to write and the pseudoterminal still takes bytes:
/// it stops where nothing waits any more, where no byte was taken and where the write was interrupted
/// or would have to wait. Any other failure is reported.
pub proof fn law_writing_goes_on_while_bytes_are_taken(out: Outgoing, event: WriteEvent)
    requires
        event is Writable || out.current is Some,
    ensures
        ({
            let (after, action) = write_step(out, event);
            match event {
                WriteEvent::Writable => action == (if out.current is None && out.queue.len() == 0 {
                    WriteAction::Finish
                } else {
                    WriteAction::Write
                }),
                WriteEvent::Wrote(n) => action == (if n == 0 || (out.current->0.written + n
                    >= out.current->0.source.len() && out.queue.len() == 0) {
                    WriteAction::Finish
                } else {
                    WriteAction::Write
                }),
                WriteEvent::Failed(kind) => {
                    &&& after == out
                    &&& action == (if kind is Interrupted || kind is WouldBlock {
                        WriteAction::Finish
                    } else {
                        WriteAction::Fail
                    })
                },
            }
        }),
{
}

/// That the pseudoterminal became writable changes nothing where a buffer is at hand already, and
/// nothing where none is queued.
pub proof fn law_buffer_at_hand_is_kept(out: Outgoing)
    requires
        out.current is Some || out.queue.len() == 0,
    ensures
        write_step(out, WriteEvent::Writable).0 == out,
{
}

/// A buffer that was taken in part stays at hand, further on by what was taken, with the same bytes
/// and the same queue behind it; where nothing was taken nothing changes.
pub proof fn law_partial_write_moves_on_by_what_was_taken(
    source: Seq<u8>,
    written: nat,
    queue: Seq<Seq<u8>>,
    n: usize,
)
    requires
        n == 0 || written + n < source.len(),
    ensures
        write_step(
            Outgoing { current: Some(Progress { source, written }), queue },
            WriteEvent::Wrote(n),
        ).0 == (Outgoing {
            current: Some(Progress { source, written: written + n as nat }),
            queue,
        }),
{
}

/// Once the last byte of the buffer at hand was taken, and whenever none is at hand to begin with, the
/// first buffer of the queue comes next, from its first byte on.
pub proof fn law_next_buffer_follows_a_finished_one(
    source: Seq<u8>,
    written: nat,
    n: usize,
    first: Seq<u8>,
    rest: Seq<Seq<u8>>,
)
    requires
        n > 0,
        written + n >= source.len(),
    ensures
        ({
            let queue = seq![first] + rest;
            let begun = Outgoing {
                current: Some(Progress { source: first, written: 0 }),
                queue: rest,
            };
            let at_hand = Outgoing { current: Some(Progress { source, written }), queue };
            let idle = Outgoing { current: None, queue };
            let last = Outgoing {
                current: Some(Progress { source, written }),
                queue: Seq::<Seq<u8>>::empty(),
            };
            &&& write_step(at_hand, WriteEvent::Wrote(n)).0 == begun
            &&& write_step(idle, WriteEvent::Writable).0 == begun
            &&& write_step(at_hand, WriteEvent::Writable).0 == at_hand
            &&& write_step(last, WriteEvent::Wrote(n)).0 == (Outgoing {
                current: None,
                queue: Seq::<Seq<u8>>::empty(),
            })
        }),
{
    let queue = seq![first] + rest;
    assert(queue[0] == first);
    assert(queue.skip(1) == rest);
}

/// Input of any length becomes the last buffer of the queue, a new size is passed on as it is, and a
/// shutdown is passed on; nothing else is touched. Without a message nothing changes, and a closed
/// queue is told from an empty one.
pub proof fn law_message_does_what_it_says(
    out: Outgoing,
    message: Result<Option<Msg>, ChannelClosed>,
)
    ensures
        drained(out, message) == (match message {
            Ok(Some(Msg::Input(bytes))) => (
                Outgoing { current: out.current, queue: out.queue + seq![bytes@] },
                DrainStep::Queued,
            ),
            Ok(Some(Msg::Resize(size))) => (out, DrainStep::Resize(size)),
            Ok(Some(Msg::Shutdown)) => (out, DrainStep::Shutdown),
            Ok(None) => (out, DrainStep::Drained),
            Err(_) => (out, DrainStep::Closed),
        }),
        message matches Ok(Some(msg)) ==> handled(out, msg) == drained(out, message),
{
    match message {
        Ok(Some(Msg::Input(bytes))) => {
            assert(out.queue.push(bytes@) == out.queue + seq![bytes@]);
        },
        _ => {},
    }
}

} // verus!
