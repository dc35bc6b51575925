//! One pass of reading from the pseudoterminal.

use crate::collapse::{
    all_collapsed_after, all_end_in_cr, collapse_cr_cr_lf, collapsed_after, ends_in_cr,
};
use crate::failure::IoErrorKind;
use crate::recent::{
    bytes_of, forwarded, fresh, law_live_is_end_of_window, law_only_a_prefix_is_dropped,
    law_stripped_prefix_is_longest_repetition, law_whole_repetition_is_dropped,
    law_window_stays_end_of_forwarded, live, recurs, remembered, repeats, RecentOutput, Stamped,
    MIN_DEDUP_MATCH,
};
use vstd::prelude::*;
use vstd::slice::slice_subrange;

verus! {

/// Max bytes to read from the pseudoterminal before forced terminal synchronization.
pub const READ_BUFFER_SIZE: usize = 0x10_0000;

/// Max bytes to read from the pseudoterminal while the terminal is locked.
pub const MAX_LOCKED_READ: usize = 0xffff;

/// What a pass of reading waits for.
#[derive(Debug, Clone, Copy, PartialEq, Eq, Structural)]
pub enum ReadPhase {
    /// A read into the buffer.
    Reading,
    /// An attempt to lock the terminal.
    TryLocking,
    /// The terminal's lock.
    Locking,
    /// The recording of the bytes at hand.
    Recording,
    /// The copy of the bytes at hand.
    Copying,
    /// The parser, which gets the bytes at hand.
    Parsing,
    /// Nothing: the pass is over.
    Finished,
}

/// What happened during a pass of reading.
#[derive(Debug, Clone, Copy, PartialEq, Eq, Structural)]
pub enum ReadEvent {
    /// This many bytes were read into the buffer, behind those that wait there.
    Read(usize),
    /// Reading failed.
    ReadFailed(IoErrorKind),
    /// The terminal was locked at once, or was not.
    TryLocked(bool),
    /// The terminal was locked.
    Locked,
    /// The bytes at hand were recorded, where the output is recorded.
    Recorded,
    /// The bytes at hand were copied to whoever asked for a copy.
    Copied,
    /// The bytes at hand were parsed.
    Parsed,
}

/// What to do next in a pass of reading.
#[derive(Debug, Clone, Copy, PartialEq, Eq, Structural)]
pub enum ReadAction {
    /// Read into the buffer, behind the `ReadPass::unprocessed` bytes that wait there.
    Read,
    /// Lock the terminal if that is possible at once.
    TryLock,
    /// Lock the terminal, however long it takes.
    Lock,
    /// Write `ReadPass::bytes` to the recording, where the output is recorded.
    Record,
    /// Write `ReadPass::bytes` to whoever asked for a copy of the raw output.
    Copy,
    /// Parse `ReadPass::bytes`.
    Parse,
    /// The pass is over; redraw the terminal where `wakeup` says so.
    Finish { wakeup: bool },
    /// The pass is over; report the failure.
    Fail,
}

/// How far a pass of reading is.
pub struct Pass {
    /// The bytes at the front of the buffer that no consumer has seen yet.
    pub unprocessed: nat,
    /// The bytes that were dealt with in this pass.
    pub processed: nat,
    /// Whether the terminal is locked.
    pub locked: bool,
    /// What the pass waits for.
    pub phase: ReadPhase,
    /// The bytes at hand: those that a consumer is to get now.
    pub bytes: Seq<u8>,
}

/// Whether a pass that waits for `phase` has handed bytes to a consumer.
pub open spec fn consuming(phase: ReadPhase) -> bool {
    phase is Recording || phase is Copying || phase is Parsing
}

impl Pass {
    /// What holds of every pass over a buffer of `capacity` bytes.
    pub open spec fn wf(self, capacity: nat) -> bool {
        &&& self.unprocessed <= capacity
        &&& self.processed < MAX_LOCKED_READ + capacity
        &&& self.phase != ReadPhase::Finished ==> self.processed < MAX_LOCKED_READ
        &&& match self.phase {
            ReadPhase::Reading => true,
            ReadPhase::TryLocking => !self.locked && self.unprocessed > 0,
            ReadPhase::Locking => !self.locked && self.unprocessed >= READ_BUFFER_SIZE,
            ReadPhase::Recording | ReadPhase::Copying => {
                &&& self.locked
                &&& self.unprocessed > 0
                &&& self.bytes.len() > 0
            },
            ReadPhase::Parsing => self.locked && self.unprocessed > 0,
            ReadPhase::Finished => true,
        }
        &&& !consuming(self.phase) ==> self.bytes == Seq::<u8>::empty()
    }

    /// Whether `event` is what the pass waits for, and fits a buffer of `capacity` bytes.
    pub open spec fn expects(self, event: ReadEvent, capacity: nat) -> bool {
        match event {
            ReadEvent::Read(n) => self.phase is Reading && self.unprocessed + n <= capacity,
            ReadEvent::ReadFailed(_) => self.phase is Reading,
            ReadEvent::TryLocked(_) => self.phase is TryLocking,
            ReadEvent::Locked => self.phase is Locking,
            ReadEvent::Recorded => self.phase is Recording,
            ReadEvent::Copied => self.phase is Copying,
            ReadEvent::Parsed => self.phase is Parsing,
        }
    }

    /// The same pass, waiting for something else.
    pub open spec fn to(self, phase: ReadPhase) -> Pass {
        Pass { phase, ..self }
    }
}

/// What a pass goes by besides its own progress.
pub struct Surroundings {
    /// The buffer.
    pub buf: Seq<u8>,
    /// Whether `\r\r\n` runs are kept from the parser.
    pub collapse: bool,
    /// What time it is.
    pub now: u128,
    /// How many bytes the parser holds back for a synchronized update.
    pub sync_bytes: nat,
}

/// What outlives a pass.
pub struct Memory {
    /// What was recently forwarded.
    pub window: Seq<Stamped>,
    /// Whether the output ended in `\r` when `\r\r\n` runs were last kept from the parser.
    pub trailing_cr: bool,
}

/// The outcome of a step: the pass, what outlives it and what to do next.
pub struct Outcome {
    pub pass: Pass,
    pub memory: Memory,
    pub next: ReadAction,
}

/// Whether the bytes of `buf` from `before` to `after` repeat those right in front of them, with
/// enough of them to count.
pub open spec fn is_reread(buf: Seq<u8>, before: int, after: int) -> bool {
    let n = after - before;
    &&& n >= MIN_DEDUP_MATCH
    &&& before >= n
    &&& buf.subrange(before - n, before) == buf.subrange(before, after)
}

/// Whether the terminal has to be redrawn: something was dealt with, and not all of it is held
/// back for a synchronized update.
pub open spec fn redraw_due(processed: nat, sync_bytes: nat) -> bool {
    sync_bytes < processed && processed > 0
}

/// The pass is over.
pub open spec fn finish(pass: Pass, memory: Memory, sync_bytes: nat) -> Outcome {
    Outcome {
        pass: pass.to(ReadPhase::Finished),
        memory,
        next: ReadAction::Finish { wakeup: redraw_due(pass.processed, sync_bytes) },
    }
}

/// The waiting bytes are dealt with: go on reading, unless the terminal was locked for long
/// enough.
pub open spec fn settle(pass: Pass, memory: Memory, sync_bytes: nat) -> Outcome {
    let settled = Pass {
        unprocessed: 0,
        processed: pass.processed + pass.unprocessed,
        locked: pass.locked,
        phase: ReadPhase::Reading,
        bytes: Seq::empty(),
    };
    if settled.processed >= MAX_LOCKED_READ {
        finish(settled, memory, sync_bytes)
    } else {
        Outcome { pass: settled, memory, next: ReadAction::Read }
    }
}

/// The terminal is locked: forward what is new of the waiting bytes, if anything is.
pub open spec fn forward(pass: Pass, memory: Memory, at: Surroundings) -> Outcome {
    let current = at.buf.take(pass.unprocessed as int);
    let bytes = forwarded(memory.window, current, at.now);
    let after = Memory { window: remembered(memory.window, current, at.now), ..memory };
    if bytes.len() == 0 {
        settle(pass, after, at.sync_bytes)
    } else {
        Outcome {
            pass: Pass { phase: ReadPhase::Recording, bytes, ..pass },
            memory: after,
            next: ReadAction::Record,
        }
    }
}

/// The bytes at hand were recorded and copied: the parser gets them, without `\r\r\n` runs where
/// those are kept from it.
pub open spec fn parse(pass: Pass, memory: Memory, collapse: bool) -> Outcome {
    if collapse {
        Outcome {
            pass: Pass {
                phase: ReadPhase::Parsing,
                bytes: collapsed_after(memory.trailing_cr, pass.bytes),
                ..pass
            },
            memory: Memory { trailing_cr: ends_in_cr(memory.trailing_cr, pass.bytes), ..memory },
            next: ReadAction::Parse,
        }
    } else {
        Outcome { pass: pass.to(ReadPhase::Parsing), memory, next: ReadAction::Parse }
    }
}

/// Bytes wait and the read is done: on to the terminal.
pub open spec fn on_to_terminal(pass: Pass, memory: Memory, at: Surroundings) -> Outcome {
    if pass.locked {
        forward(pass, memory, at)
    } else {
        Outcome { pass: pass.to(ReadPhase::TryLocking), memory, next: ReadAction::TryLock }
    }
}

/// The outcome of `event`.
pub open spec fn read_step(
    pass: Pass,
    memory: Memory,
    at: Surroundings,
    event: ReadEvent,
) -> Outcome {
    match event {
        ReadEvent::Read(n) => {
            let filled = Pass { unprocessed: pass.unprocessed + n as nat, ..pass };
            if filled.unprocessed == 0 {
                finish(pass, memory, at.sync_bytes)
            } else if is_reread(at.buf, pass.unprocessed as int, filled.unprocessed as int) {
                Outcome { pass, memory, next: ReadAction::Read }
            } else {
                on_to_terminal(filled, memory, at)
            }
        },
        ReadEvent::ReadFailed(kind) => if !kind.is_transient() {
            Outcome { pass: pass.to(ReadPhase::Finished), memory, next: ReadAction::Fail }
        } else if pass.unprocessed == 0 {
            finish(pass, memory, at.sync_bytes)
        } else {
            on_to_terminal(pass, memory, at)
        },
        ReadEvent::TryLocked(true) => forward(Pass { locked: true, ..pass }, memory, at),
        ReadEvent::TryLocked(false) => if pass.unprocessed >= READ_BUFFER_SIZE {
            Outcome { pass: pass.to(ReadPhase::Locking), memory, next: ReadAction::Lock }
        } else {
            Outcome { pass: pass.to(ReadPhase::Reading), memory, next: ReadAction::Read }
        },
        ReadEvent::Locked => forward(Pass { locked: true, ..pass }, memory, at),
        ReadEvent::Recorded => Outcome {
            pass: pass.to(ReadPhase::Copying),
            memory,
            next: ReadAction::Copy,
        },
        ReadEvent::Copied => parse(pass, memory, at.collapse),
        ReadEvent::Parsed => settle(pass, memory, at.sync_bytes),
    }
}

/// One pass of reading: from the moment the pseudoterminal is readable until it has nothing more
/// to give or the terminal has been locked for long enough.
pub struct ReadPass {
    unprocessed: usize,
    processed: usize,
    locked: bool,
    phase: ReadPhase,
    bytes: Vec<u8>,
}

impl View for ReadPass {
    type V = Pass;

    closed spec fn view(&self) -> Pass {
        Pass {
            unprocessed: self.unprocessed as nat,
            processed: self.processed as nat,
            locked: self.locked,
            phase: self.phase,
            bytes: self.bytes@,
        }
    }
}

impl ReadPass {
    /// A pass that starts with a read.
    pub fn new() -> (pass: ReadPass)
        ensures
            pass@ == (Pass {
                unprocessed: 0,
                processed: 0,
                locked: false,
                phase: ReadPhase::Reading,
                bytes: Seq::<u8>::empty(),
            }),
            forall|capacity: nat| pass@.wf(capacity),
    {
        ReadPass {
            unprocessed: 0,
            processed: 0,
            locked: false,
            phase: ReadPhase::Reading,
            bytes: Vec::new(),
        }
    }

    /// How many bytes at the front of the buffer wait to be dealt with.
    pub fn unprocessed(&self) -> (n: usize)
        ensures
            n == self@.unprocessed,
    {
        self.unprocessed
    }

    /// The bytes at hand: those that a consumer is to get now.
    pub fn bytes(&self) -> (bytes: &[u8])
        ensures
            bytes@ == self@.bytes,
    {
        self.bytes.as_slice()
    }

    /// Takes in what happened at `now` and says what to do next.
    ///
    /// A read that merely repeats the bytes right in front of it in the buffer is undone, whether
    /// or not the terminal is locked. Once the terminal is locked, what is new of the waiting
    /// bytes is recorded, copied and parsed, in this order.
    pub fn step(
        &mut self,
        recent: &mut RecentOutput,
        collapse: bool,
        pending_trailing_cr: &mut bool,
        buf: &[u8],
        event: ReadEvent,
        now: u128,
        sync_bytes: usize,
    ) -> (action: ReadAction)
        requires
            buf@.len() + MAX_LOCKED_READ <= usize::MAX,
            old(self)@.wf(buf@.len()),
            old(self)@.expects(event, buf@.len()),
        ensures
            (Outcome {
                pass: final(self)@,
                memory: Memory {
                    window: final(recent)@,
                    trailing_cr: *final(pending_trailing_cr),
                },
                next: action,
            }) == read_step(
                old(self)@,
                Memory { window: old(recent)@, trailing_cr: *old(pending_trailing_cr) },
                Surroundings { buf: buf@, collapse, now, sync_bytes: sync_bytes as nat },
                event,
            ),
            final(self)@.wf(buf@.len()),
            brings_about(action, final(self)@.phase),
    {
        match event {
            ReadEvent::Read(n) => {
                let before: usize = self.unprocessed;
                let after: usize = before + n;
                if after == 0 {
                    return self.finish(sync_bytes);
                }
                if reread(buf, before, after) {
                    return ReadAction::Read;
                }
                self.unprocessed = after;
            },
            ReadEvent::ReadFailed(kind) => {
                if !kind.transient() {
                    self.phase = ReadPhase::Finished;
                    return ReadAction::Fail;
                }
                if self.unprocessed == 0 {
                    return self.finish(sync_bytes);
                }
            },
            ReadEvent::TryLocked(false) => {
                return if self.unprocessed >= READ_BUFFER_SIZE {
                    self.phase = ReadPhase::Locking;
                    ReadAction::Lock
                } else {
                    self.phase = ReadPhase::Reading;
                    ReadAction::Read
                };
            },
            ReadEvent::TryLocked(true) | ReadEvent::Locked => {
                self.locked = true;
            },
            ReadEvent::Recorded => {
                self.phase = ReadPhase::Copying;
                return ReadAction::Copy;
            },
            ReadEvent::Copied => {
                if collapse {
                    self.bytes = collapse_cr_cr_lf(self.bytes.as_slice(), pending_trailing_cr);
                }
                self.phase = ReadPhase::Parsing;
                return ReadAction::Parse;
            },
            ReadEvent::Parsed => {
                return self.settle(sync_bytes);
            },
        }
        if !self.locked {
            self.phase = ReadPhase::TryLocking;
            return ReadAction::TryLock;
        }
        let current: &[u8] = slice_subrange(buf, 0, self.unprocessed);
        assert(current@ == buf@.take(self.unprocessed as int));
        let bytes: Vec<u8> = recent.take_fresh(current, now);
        if bytes.len() == 0 {
            return self.settle(sync_bytes);
        }
        self.bytes = bytes;
        self.phase = ReadPhase::Recording;
        ReadAction::Record
    }

    /// Ends the pass.
    fn finish(&mut self, sync_bytes: usize) -> (action: ReadAction)
        ensures
            forall|memory: Memory|
                #[trigger] finish(old(self)@, memory, sync_bytes as nat) == (Outcome {
                    pass: final(self)@,
                    memory,
                    next: action,
                }),
    {
        self.phase = ReadPhase::Finished;
        ReadAction::Finish { wakeup: sync_bytes < self.processed && self.processed > 0 }
    }

    /// Takes note that the waiting bytes are dealt with.
    fn settle(&mut self, sync_bytes: usize) -> (action: ReadAction)
        requires
            old(self)@.processed + old(self)@.unprocessed <= usize::MAX,
        ensures
            forall|memory: Memory|
                #[trigger] settle(old(self)@, memory, sync_bytes as nat) == (Outcome {
                    pass: final(self)@,
                    memory,
                    next: action,
                }),
    {
        self.processed = self.processed + self.unprocessed;
        self.unprocessed = 0;
        self.phase = ReadPhase::Reading;
        self.bytes = Vec::new();
        if self.processed >= MAX_LOCKED_READ {
            self.finish(sync_bytes)
        } else {
            ReadAction::Read
        }
    }
}

/// Whether the bytes of `buf` from `before` to `after` repeat those right in front of them.
fn reread(buf: &[u8], before: usize, after: usize) -> (yes: bool)
    requires
        before <= after <= buf@.len(),
    ensures
        yes == is_reread(buf@, before as int, after as int),
{
    let n: usize = after - before;
    if n < MIN_DEDUP_MATCH || before < n {
        return false;
    }
    let start: usize = before - n;
    let mut i: usize = 0;
    while i < n
        invariant
            start + n == before,
            before + n == after,
            after <= buf.len(),
            i <= n,
            buf@.subrange(start as int, start + i) == buf@.subrange(before as int, before + i),
        decreases n - i,
    {
        if buf[start + i] != buf[before + i] {
            assert(buf@.subrange(start as int, before as int)[i as int] != buf@.subrange(
                before as int,
                after as int,
            )[i as int]);
            return false;
        }
        assert(buf@.subrange(start as int, start + i + 1) == buf@.subrange(
            before as int,
            before + i + 1,
        )) by {
            assert(buf@.subrange(start as int, start + i + 1) == buf@.subrange(
                start as int,
                start + i,
            ).push(buf@[start + i]));
            assert(buf@.subrange(before as int, before + i + 1) == buf@.subrange(
                before as int,
                before + i,
            ).push(buf@[before + i]));
        }
        i = i + 1;
    }
    assert(buf@.subrange(start as int, before as int) == buf@.subrange(
        before as int,
        after as int,
    ));
    true
}

/// What holds of every pass still holds after a step.
pub proof fn law_pass_stays_well_formed(
    pass: Pass,
    memory: Memory,
    at: Surroundings,
    event: ReadEvent,
)
    requires
        pass.wf(at.buf.len()),
        pass.expects(event, at.buf.len()),
    ensures
        read_step(pass, memory, at, event).pass.wf(at.buf.len()),
{
}

/// A read of at least two bytes that repeats the bytes right in front of it has no effect at all,
/// whether or not the terminal is locked.
pub proof fn law_reread_has_no_effect(
    pass: Pass,
    memory: Memory,
    at: Surroundings,
    n: usize,
)
    requires
        pass.wf(at.buf.len()),
        pass.expects(ReadEvent::Read(n), at.buf.len()),
        is_reread(at.buf, pass.unprocessed as int, pass.unprocessed + n),
    ensures
        read_step(pass, memory, at, ReadEvent::Read(n)) == (Outcome {
            pass,
            memory,
            next: ReadAction::Read,
        }),
{
}

/// A single byte is never taken for a repetition of the byte in front of it.
pub proof fn law_single_byte_read_is_kept(
    pass: Pass,
    memory: Memory,
    at: Surroundings,
)
    requires
        pass.wf(at.buf.len()),
        pass.expects(ReadEvent::Read(1), at.buf.len()),
    ensures
        read_step(pass, memory, at, ReadEvent::Read(1)) == on_to_terminal(
            Pass { unprocessed: pass.unprocessed + 1, ..pass },
            memory,
            at,
        ),
{
}

/// Whatever is forwarded is a non-empty end of the bytes that waited, what was in front of it
/// repeats the end of what is remembered, and the terminal is locked by then.
pub proof fn law_forwarded_bytes_waited(
    pass: Pass,
    memory: Memory,
    at: Surroundings,
    event: ReadEvent,
)
    requires
        pass.wf(at.buf.len()),
        pass.expects(event, at.buf.len()),
    ensures
        read_step(pass, memory, at, event).next is Record ==> {
            let after = read_step(pass, memory, at, event).pass;
            let waiting = at.buf.take(after.unprocessed as int);
            &&& after.locked
            &&& 0 < after.bytes.len() <= waiting.len()
            &&& after.bytes == waiting.skip(waiting.len() - after.bytes.len())
            &&& after.bytes == waiting || repeats(
                bytes_of(live(memory.window, at.now)),
                waiting,
                waiting.len() - after.bytes.len(),
            )
        },
{
    let after = read_step(pass, memory, at, event);
    if after.next is Record {
        let waiting = at.buf.take(after.pass.unprocessed as int);
        law_only_a_prefix_is_dropped(memory.window, waiting, at.now);
        law_stripped_prefix_is_longest_repetition(bytes_of(live(memory.window, at.now)), waiting);
        assert(waiting.skip(0) == waiting);
    }
}

/// The consumers take turns: forwarded bytes are recorded first, then copied as they are, and
/// parsed last, by then without `\r\r\n` runs where those are kept from the parser. No consumer is
/// passed over, none comes twice, and only then are the bytes dealt with.
pub proof fn law_consumers_take_turns(
    pass: Pass,
    memory: Memory,
    at: Surroundings,
    event: ReadEvent,
)
    requires
        pass.wf(at.buf.len()),
        pass.expects(event, at.buf.len()),
    ensures
        ({
            let after = read_step(pass, memory, at, event);
            &&& after.next is Copy <==> pass.phase is Recording
            &&& after.next is Parse <==> pass.phase is Copying
            &&& pass.phase is Recording ==> after.pass.bytes == pass.bytes && after.memory == memory
            &&& pass.phase is Copying ==> after.memory.window == memory.window && after.pass.bytes
                == (if at.collapse {
                collapsed_after(memory.trailing_cr, pass.bytes)
            } else {
                pass.bytes
            })
            &&& pass.phase is Parsing <==> event is Parsed
            &&& event is Parsed ==> after == settle(pass, memory, at.sync_bytes)
            &&& after.next is Record ==> !consuming(pass.phase)
        }),
{
}

/// Bytes of which all was forwarded before, within the window, reach no consumer: with the terminal
/// locked they are dealt with at once and the window forgets nothing but what is too old.
pub proof fn law_repetition_reaches_no_consumer(pass: Pass, memory: Memory, at: Surroundings)
    requires
        pass.wf(at.buf.len()),
        recurs(bytes_of(live(memory.window, at.now)), at.buf.take(pass.unprocessed as int)),
    ensures
        forward(pass, memory, at) == settle(
            pass,
            Memory { window: live(memory.window, at.now), ..memory },
            at.sync_bytes,
        ),
{
    law_whole_repetition_is_dropped(memory.window, at.buf.take(pass.unprocessed as int), at.now);
}

/// The terminal's lock is waited for only once the buffer is full, and never twice in a pass.
pub proof fn law_lock_is_waited_for_only_when_full(
    pass: Pass,
    memory: Memory,
    at: Surroundings,
    event: ReadEvent,
)
    requires
        pass.wf(at.buf.len()),
        pass.expects(event, at.buf.len()),
    ensures
        read_step(pass, memory, at, event).next is Lock ==> pass.unprocessed >= READ_BUFFER_SIZE,
        pass.locked ==> {
            let after = read_step(pass, memory, at, event);
            after.pass.locked && !(after.next is Lock) && !(after.next is TryLock)
        },
{
}

/// A pass that has dealt with as much as it may under the lock is over, and one that dealt with
/// nothing asks for no redraw.
pub proof fn law_pass_ends_in_time(
    pass: Pass,
    memory: Memory,
    at: Surroundings,
    event: ReadEvent,
)
    requires
        pass.wf(at.buf.len()),
        pass.expects(event, at.buf.len()),
    ensures
        ({
            let after = read_step(pass, memory, at, event);
            &&& after.pass.processed >= MAX_LOCKED_READ ==> after.next is Finish
            &&& after.next matches ReadAction::Finish { wakeup } ==> wakeup == redraw_due(
                after.pass.processed,
                at.sync_bytes,
            )
            &&& after.next == ReadAction::Finish { wakeup: true } ==> after.pass.processed > 0
            &&& after.next is Fail <==> event == ReadEvent::ReadFailed(IoErrorKind::Other)
        }),
{
}

/// A step of a pass: the event, and what the pass goes by.
pub type Happening = (ReadEvent, Surroundings);

/// Where a pass is after `steps`.
pub open spec fn read_run(pass: Pass, memory: Memory, steps: Seq<Happening>) -> Outcome
    decreases steps.len(),
{
    if steps.len() == 0 {
        Outcome { pass, memory, next: ReadAction::Read }
    } else {
        let before = read_run(pass, memory, steps.drop_last());
        read_step(before.pass, before.memory, steps.last().1, steps.last().0)
    }
}

/// Whether `steps` can happen one after the other, all with a buffer of `capacity` bytes whose
/// waiting part nobody touches in between.
pub open spec fn possible_run(
    pass: Pass,
    memory: Memory,
    steps: Seq<Happening>,
    capacity: nat,
) -> bool
    decreases steps.len(),
{
    steps.len() == 0 || {
        &&& possible_run(pass, memory, steps.drop_last(), capacity)
        &&& steps.last().1.buf.len() == capacity
        &&& read_run(pass, memory, steps.drop_last()).pass.expects(steps.last().0, capacity)
        &&& steps.len() > 1 ==> {
            let waiting = read_run(pass, memory, steps.drop_last()).pass.unprocessed as int;
            steps.last().1.buf.take(waiting) == steps.drop_last().last().1.buf.take(waiting)
        }
    }
}

/// How many bytes the reads among `steps` brought, those that merely repeated the bytes in front
/// of them left out.
pub open spec fn kept_bytes(pass: Pass, memory: Memory, steps: Seq<Happening>) -> nat
    decreases steps.len(),
{
    if steps.len() == 0 {
        0
    } else {
        let before = read_run(pass, memory, steps.drop_last()).pass;
        kept_bytes(pass, memory, steps.drop_last()) + match steps.last().0 {
            ReadEvent::Read(n) => if is_reread(
                steps.last().1.buf,
                before.unprocessed as int,
                before.unprocessed + n,
            ) {
                0nat
            } else {
                n as nat
            },
            _ => 0nat,
        }
    }
}

/// Over any course of a pass, every byte that was read and kept is either dealt with or still
/// waits.
pub proof fn law_every_byte_is_accounted_for(
    pass: Pass,
    memory: Memory,
    steps: Seq<Happening>,
    capacity: nat,
)
    requires
        pass.wf(capacity),
        possible_run(pass, memory, steps, capacity),
    ensures
        read_run(pass, memory, steps).pass.wf(capacity),
        ({
            let end = read_run(pass, memory, steps).pass;
            end.processed + end.unprocessed == pass.processed + pass.unprocessed + kept_bytes(
                pass,
                memory,
                steps,
            )
        }),
    decreases steps.len(),
{
    if steps.len() > 0 {
        law_every_byte_is_accounted_for(pass, memory, steps.drop_last(), capacity);
    }
}

/// Everything that was forwarded over `steps`, in order.
pub open spec fn forwarded_run(pass: Pass, memory: Memory, steps: Seq<Happening>) -> Seq<u8>
    decreases steps.len(),
{
    if steps.len() == 0 {
        Seq::empty()
    } else {
        forwarded_run(pass, memory, steps.drop_last()) + match read_run(pass, memory, steps).next {
            ReadAction::Record => read_run(pass, memory, steps).pass.bytes,
            _ => Seq::empty(),
        }
    }
}

/// Over any course of a pass, the window is the end of what was ever forwarded: what it held
/// before, followed by what the pass forwarded.
pub proof fn law_window_follows_the_pass(
    pass: Pass,
    memory: Memory,
    steps: Seq<Happening>,
    capacity: nat,
)
    requires
        pass.wf(capacity),
        possible_run(pass, memory, steps, capacity),
    ensures
        bytes_of(read_run(pass, memory, steps).memory.window).is_suffix_of(
            bytes_of(memory.window) + forwarded_run(pass, memory, steps),
        ),
    decreases steps.len(),
{
    let start = bytes_of(memory.window);
    if steps.len() > 0 {
        let earlier = steps.drop_last();
        let (event, at) = steps.last();
        law_window_follows_the_pass(pass, memory, earlier, capacity);
        let before = read_run(pass, memory, earlier);
        let after = read_run(pass, memory, steps);
        let sent = start + forwarded_run(pass, memory, earlier);
        let filled = match event {
            ReadEvent::Read(n) => before.pass.unprocessed + n as nat,
            _ => before.pass.unprocessed,
        };
        let waiting = at.buf.take(filled as int);
        law_window_stays_end_of_forwarded(before.memory.window, sent, waiting, at.now);
        match after.next {
            ReadAction::Record => {
                assert(sent + after.pass.bytes == start + forwarded_run(pass, memory, steps));
            },
            _ => {
                assert(sent + Seq::<u8>::empty() == sent);
                assert(start + forwarded_run(pass, memory, steps) == sent);
            },
        }
    } else {
        assert(start + Seq::<u8>::empty() == start);
        assert(start == start.subrange(0, start.len() as int));
    }
}

/// The bytes that the reads among `steps` brought, in order, those that merely repeated the bytes in
/// front of them left out.
pub open spec fn kept_run(pass: Pass, memory: Memory, steps: Seq<Happening>) -> Seq<u8>
    decreases steps.len(),
{
    if steps.len() == 0 {
        Seq::empty()
    } else {
        let before = read_run(pass, memory, steps.drop_last()).pass;
        kept_run(pass, memory, steps.drop_last()) + match steps.last().0 {
            ReadEvent::Read(n) => if is_reread(
                steps.last().1.buf,
                before.unprocessed as int,
                before.unprocessed + n,
            ) {
                Seq::empty()
            } else {
                steps.last().1.buf.subrange(before.unprocessed as int, before.unprocessed + n)
            },
            _ => Seq::empty(),
        }
    }
}

/// A decision on a chunk: `chunk` was held against `recent`, the bytes that were remembered then.
pub struct Decision {
    pub recent: Seq<u8>,
    pub chunk: Seq<u8>,
}

/// How many bytes wait once the read that `event` reports is in.
pub open spec fn filled(pass: Pass, event: ReadEvent) -> nat {
    match event {
        ReadEvent::Read(n) => pass.unprocessed + n as nat,
        _ => pass.unprocessed,
    }
}

/// Whether the waiting bytes are decided on with `event`: there are some, the terminal is locked
/// and the read, if it was one, is kept.
pub open spec fn decides(pass: Pass, at: Surroundings, event: ReadEvent) -> bool {
    match event {
        ReadEvent::Read(n) => {
            &&& pass.locked
            &&& filled(pass, event) > 0
            &&& !is_reread(at.buf, pass.unprocessed as int, pass.unprocessed + n)
        },
        ReadEvent::ReadFailed(kind) => pass.locked && kind.is_transient() && pass.unprocessed > 0,
        ReadEvent::TryLocked(locked) => locked,
        ReadEvent::Locked => true,
        ReadEvent::Recorded | ReadEvent::Copied | ReadEvent::Parsed => false,
    }
}

/// The decisions that were made over `steps`, in order.
pub open spec fn decisions(pass: Pass, memory: Memory, steps: Seq<Happening>) -> Seq<Decision>
    decreases steps.len(),
{
    if steps.len() == 0 {
        Seq::empty()
    } else {
        let earlier = decisions(pass, memory, steps.drop_last());
        let before = read_run(pass, memory, steps.drop_last());
        let (event, at) = steps.last();
        if decides(before.pass, at, event) {
            earlier.push(
                Decision {
                    recent: bytes_of(live(before.memory.window, at.now)),
                    chunk: at.buf.take(filled(before.pass, event) as int),
                },
            )
        } else {
            earlier
        }
    }
}

/// The chunks that were decided on, one after the other.
pub open spec fn chunks(made: Seq<Decision>) -> Seq<u8>
    decreases made.len(),
{
    if made.len() == 0 {
        Seq::empty()
    } else {
        chunks(made.drop_last()) + made.last().chunk
    }
}

/// What is new of the chunks that were decided on, one after the other.
pub open spec fn news(made: Seq<Decision>) -> Seq<u8>
    decreases made.len(),
{
    if made.len() == 0 {
        Seq::empty()
    } else {
        news(made.drop_last()) + fresh(made.last().recent, made.last().chunk)
    }
}

/// The bytes that wait after `steps` and were not decided on yet.
pub open spec fn undecided(pass: Pass, memory: Memory, steps: Seq<Happening>) -> Seq<u8> {
    let end = read_run(pass, memory, steps).pass;
    if steps.len() == 0 || consuming(end.phase) {
        Seq::empty()
    } else {
        steps.last().1.buf.take(end.unprocessed as int)
    }
}

/// Over any course of a pass that starts with no bytes waiting, the chunks that were decided on,
/// followed by the bytes that still wait, are the bytes that were read and kept, each once and in
/// order. What was forwarded is what is new of these chunks, in order: nothing of a chunk that stands
/// in what was remembered, and of any other all but the longest prefix that repeats its end. What was
/// remembered is always the end of what the window held at first followed by what was forwarded
/// until then.
pub proof fn law_pass_forwards_what_is_new(
    pass: Pass,
    memory: Memory,
    steps: Seq<Happening>,
    capacity: nat,
)
    requires
        pass.wf(capacity),
        pass.unprocessed == 0,
        possible_run(pass, memory, steps, capacity),
    ensures
        chunks(decisions(pass, memory, steps)) + undecided(pass, memory, steps) == kept_run(
            pass,
            memory,
            steps,
        ),
        forwarded_run(pass, memory, steps) == news(decisions(pass, memory, steps)),
        forall|i: int|
            0 <= i < decisions(pass, memory, steps).len() ==> (#[trigger] decisions(
                pass,
                memory,
                steps,
            )[i]).recent.is_suffix_of(
                bytes_of(memory.window) + news(decisions(pass, memory, steps).take(i)),
            ),
    decreases steps.len(),
{
    let made = decisions(pass, memory, steps);
    if steps.len() > 0 {
        let before_steps = steps.drop_last();
        let earlier = decisions(pass, memory, before_steps);
        let before = read_run(pass, memory, before_steps);
        let (event, at) = steps.last();
        law_pass_forwards_what_is_new(pass, memory, before_steps, capacity);
        law_every_byte_is_accounted_for(pass, memory, before_steps, capacity);
        let waiting = at.buf.take(before.pass.unprocessed as int);
        assert(!consuming(before.pass.phase) ==> undecided(pass, memory, before_steps)
            == waiting) by {
            if before_steps.len() == 0 {
                assert(waiting == Seq::<u8>::empty());
            }
        }
        lemma_step_content(pass, memory, steps, capacity);
        if decides(before.pass, at, event) {
            assert(made.drop_last() == earlier);
            lemma_decision_goes_by_the_past(pass, memory, steps, capacity);
        }
        assert forall|i: int| 0 <= i < made.len() implies (#[trigger] made[i]).recent.is_suffix_of(
            bytes_of(memory.window) + news(made.take(i)),
        ) by {
            if i < earlier.len() {
                assert(made[i] == earlier[i]);
                assert(made.take(i) == earlier.take(i));
            } else {
                assert(made.take(i) == earlier);
            }
        }
    }
}

proof fn lemma_decision_goes_by_the_past(
    pass: Pass,
    memory: Memory,
    steps: Seq<Happening>,
    capacity: nat,
)
    requires
        pass.wf(capacity),
        steps.len() > 0,
        possible_run(pass, memory, steps, capacity),
        forwarded_run(pass, memory, steps.drop_last()) == news(
            decisions(pass, memory, steps.drop_last()),
        ),
    ensures
        ({
            let before = read_run(pass, memory, steps.drop_last());
            bytes_of(live(before.memory.window, steps.last().1.now)).is_suffix_of(
                bytes_of(memory.window) + news(decisions(pass, memory, steps.drop_last())),
            )
        }),
{
    let before = read_run(pass, memory, steps.drop_last());
    law_window_follows_the_pass(pass, memory, steps.drop_last(), capacity);
    law_live_is_end_of_window(before.memory.window, steps.last().1.now);
    let past = bytes_of(memory.window) + news(decisions(pass, memory, steps.drop_last()));
    let held = bytes_of(before.memory.window);
    let recent = bytes_of(live(before.memory.window, steps.last().1.now));
    assert(held == past.subrange(past.len() - held.len(), past.len() as int));
    assert(recent == held.subrange(held.len() - recent.len(), held.len() as int));
    assert(recent == past.subrange(past.len() - recent.len(), past.len() as int));
}

proof fn lemma_step_content(
    pass: Pass,
    memory: Memory,
    steps: Seq<Happening>,
    capacity: nat,
)
    requires
        steps.len() > 0,
        possible_run(pass, memory, steps, capacity),
        read_run(pass, memory, steps.drop_last()).pass.wf(capacity),
        ({
            let before = read_run(pass, memory, steps.drop_last()).pass;
            undecided(pass, memory, steps.drop_last()) == if consuming(before.phase) {
                Seq::<u8>::empty()
            } else {
                steps.last().1.buf.take(before.unprocessed as int)
            }
        }),
        chunks(decisions(pass, memory, steps.drop_last())) + undecided(
            pass,
            memory,
            steps.drop_last(),
        ) == kept_run(pass, memory, steps.drop_last()),
        forwarded_run(pass, memory, steps.drop_last()) == news(
            decisions(pass, memory, steps.drop_last()),
        ),
    ensures
        chunks(decisions(pass, memory, steps)) + undecided(pass, memory, steps) == kept_run(
            pass,
            memory,
            steps,
        ),
        forwarded_run(pass, memory, steps) == news(decisions(pass, memory, steps)),
{
    let earlier = decisions(pass, memory, steps.drop_last());
    let made = decisions(pass, memory, steps);
    let before = read_run(pass, memory, steps.drop_last());
    let (event, at) = steps.last();
    let full = filled(before.pass, event) as int;
    let unprocessed = before.pass.unprocessed as int;
    let waiting = at.buf.take(unprocessed);
    let gained = match event {
        ReadEvent::Read(n) => if is_reread(at.buf, unprocessed, unprocessed + n) {
            Seq::<u8>::empty()
        } else {
            at.buf.subrange(unprocessed, unprocessed + n)
        },
        _ => Seq::<u8>::empty(),
    };
    assert(kept_run(pass, memory, steps) == kept_run(pass, memory, steps.drop_last()) + gained);
    assert(at.buf.take(0) == Seq::<u8>::empty());
    assert(at.buf.take(full) == waiting + at.buf.subrange(unprocessed, full));
    if decides(before.pass, at, event) {
        assert(made.drop_last() == earlier);
        assert(gained == at.buf.subrange(unprocessed, full));
        assert(undecided(pass, memory, steps) == Seq::<u8>::empty());
        assert(chunks(made) + Seq::<u8>::empty() == chunks(earlier) + waiting + gained);
        let new = fresh(bytes_of(live(before.memory.window, at.now)), at.buf.take(full));
        assert(new == forwarded(before.memory.window, at.buf.take(full), at.now));
        if new.len() == 0 {
            assert(new == Seq::<u8>::empty());
        }
        assert(forwarded_run(pass, memory, steps) == news(made));
    } else {
        assert(forwarded_run(pass, memory, steps) == forwarded_run(
            pass,
            memory,
            steps.drop_last(),
        ));
        match event {
            ReadEvent::Read(n) => {
                assert(undecided(pass, memory, steps) == waiting + gained);
            },
            ReadEvent::Recorded | ReadEvent::Copied | ReadEvent::Parsed => {
                assert(undecided(pass, memory, steps) == Seq::<u8>::empty());
            },
            _ => {
                assert(undecided(pass, memory, steps) == waiting);
            },
        }
        assert(chunks(made) + undecided(pass, memory, steps) == kept_run(pass, memory, steps));
    }
}

/// Whether `next` is what brings about the events that `phase` waits for.
pub open spec fn brings_about(next: ReadAction, phase: ReadPhase) -> bool {
    match phase {
        ReadPhase::Reading => next is Read,
        ReadPhase::TryLocking => next is TryLock,
        ReadPhase::Locking => next is Lock,
        ReadPhase::Recording => next is Record,
        ReadPhase::Copying => next is Copy,
        ReadPhase::Parsing => next is Parse,
        ReadPhase::Finished => next is Finish || next is Fail,
    }
}

/// What a pass asks for and what it waits for agree: whoever does what was asked for last and
/// reports what came of it reports an event that is waited for.
pub proof fn law_action_fits_phase(
    pass: Pass,
    memory: Memory,
    at: Surroundings,
    event: ReadEvent,
)
    requires
        pass.wf(at.buf.len()),
        pass.expects(event, at.buf.len()),
    ensures
        brings_about(
            read_step(pass, memory, at, event).next,
            read_step(pass, memory, at, event).pass.phase,
        ),
{
}

/// Everything that the parser got over `steps`, in order.
pub open spec fn parsed_run(pass: Pass, memory: Memory, steps: Seq<Happening>) -> Seq<u8>
    decreases steps.len(),
{
    if steps.len() == 0 {
        Seq::empty()
    } else {
        parsed_run(pass, memory, steps.drop_last()) + match read_run(pass, memory, steps).next {
            ReadAction::Parse => read_run(pass, memory, steps).pass.bytes,
            _ => Seq::empty(),
        }
    }
}

/// The bytes that were forwarded and that the parser has yet to get.
pub open spec fn on_their_way(pass: Pass) -> Seq<u8> {
    if pass.phase is Recording || pass.phase is Copying {
        pass.bytes
    } else {
        Seq::empty()
    }
}

/// Over any course of a pass in which no runs are kept from it, the parser gets exactly what is
/// forwarded, each byte once and in order, but for the bytes that are still on their way.
pub proof fn law_parser_gets_what_is_forwarded(
    pass: Pass,
    memory: Memory,
    steps: Seq<Happening>,
    capacity: nat,
)
    requires
        pass.wf(capacity),
        !consuming(pass.phase),
        possible_run(pass, memory, steps, capacity),
        forall|i: int| 0 <= i < steps.len() ==> !(#[trigger] steps[i]).1.collapse,
    ensures
        parsed_run(pass, memory, steps) + on_their_way(read_run(pass, memory, steps).pass)
            == forwarded_run(pass, memory, steps),
    decreases steps.len(),
{
    if steps.len() > 0 {
        let earlier = steps.drop_last();
        assert forall|i: int| 0 <= i < earlier.len() implies !(#[trigger] earlier[i]).1.collapse by {
            assert(earlier[i] == steps[i]);
        }
        law_parser_gets_what_is_forwarded(pass, memory, earlier, capacity);
        law_every_byte_is_accounted_for(pass, memory, earlier, capacity);
        let before = read_run(pass, memory, earlier).pass;
        let after = read_run(pass, memory, steps);
        let (event, at) = steps.last();
        assert(!at.collapse) by {
            assert(!steps[steps.len() - 1].1.collapse);
        }
        let left = parsed_run(pass, memory, steps) + on_their_way(after.pass);
        match event {
            ReadEvent::Recorded => {
                assert(left == forwarded_run(pass, memory, steps));
            },
            ReadEvent::Copied => {
                assert(left == forwarded_run(pass, memory, steps));
            },
            _ => {
                assert(on_their_way(before) == Seq::<u8>::empty());
                assert(left == forwarded_run(pass, memory, steps));
            },
        }
    } else {
        assert(parsed_run(pass, memory, steps) + on_their_way(pass) == Seq::<u8>::empty());
    }
}

/// The chunks that were copied over `steps`, in order.
pub open spec fn copied_run(pass: Pass, memory: Memory, steps: Seq<Happening>) -> Seq<Seq<u8>>
    decreases steps.len(),
{
    if steps.len() == 0 {
        Seq::empty()
    } else {
        let earlier = copied_run(pass, memory, steps.drop_last());
        match steps.last().0 {
            ReadEvent::Copied => earlier.push(read_run(pass, memory, steps.drop_last()).pass.bytes),
            _ => earlier,
        }
    }
}

/// `parts`, one after the other.
pub open spec fn joined(parts: Seq<Seq<u8>>) -> Seq<u8>
    decreases parts.len(),
{
    if parts.len() == 0 {
        Seq::empty()
    } else {
        joined(parts.drop_last()) + parts.last()
    }
}

/// Over any course of a pass, whether or not runs are kept from the parser, the copy is of exactly
/// what is forwarded, each byte once and in order, but for the bytes that are still on their way.
pub proof fn law_copy_is_of_what_is_forwarded(
    pass: Pass,
    memory: Memory,
    steps: Seq<Happening>,
    capacity: nat,
)
    requires
        pass.wf(capacity),
        !consuming(pass.phase),
        possible_run(pass, memory, steps, capacity),
    ensures
        joined(copied_run(pass, memory, steps)) + on_their_way(read_run(pass, memory, steps).pass)
            == forwarded_run(pass, memory, steps),
    decreases steps.len(),
{
    if steps.len() > 0 {
        let earlier = steps.drop_last();
        law_copy_is_of_what_is_forwarded(pass, memory, earlier, capacity);
        law_every_byte_is_accounted_for(pass, memory, earlier, capacity);
        let before = read_run(pass, memory, earlier).pass;
        let after = read_run(pass, memory, steps).pass;
        let copied = copied_run(pass, memory, steps);
        match steps.last().0 {
            ReadEvent::Copied => {
                assert(copied.drop_last() == copied_run(pass, memory, earlier));
            },
            ReadEvent::Recorded => {},
            _ => {
                assert(on_their_way(before) == Seq::<u8>::empty());
            },
        }
        assert(joined(copied) + on_their_way(after) == forwarded_run(pass, memory, steps));
    } else {
        let copied = copied_run(pass, memory, steps);
        assert(joined(copied) + on_their_way(pass) == Seq::<u8>::empty());
    }
}

/// Over any course of a pass in which `\r\r\n` runs are kept from it, the parser gets what is left of
/// the chunks that were copied: without the runs within a chunk, and without the second `\r` of a run
/// that is split behind its first one.
pub proof fn law_parser_is_spared_runs(
    pass: Pass,
    memory: Memory,
    steps: Seq<Happening>,
    capacity: nat,
)
    requires
        pass.wf(capacity),
        possible_run(pass, memory, steps, capacity),
        forall|i: int| 0 <= i < steps.len() ==> (#[trigger] steps[i]).1.collapse,
    ensures
        parsed_run(pass, memory, steps) == all_collapsed_after(
            memory.trailing_cr,
            copied_run(pass, memory, steps),
        ),
        read_run(pass, memory, steps).memory.trailing_cr == all_end_in_cr(
            memory.trailing_cr,
            copied_run(pass, memory, steps),
        ),
    decreases steps.len(),
{
    if steps.len() > 0 {
        let earlier = steps.drop_last();
        assert forall|i: int| 0 <= i < earlier.len() implies (#[trigger] earlier[i]).1.collapse by {
            assert(earlier[i] == steps[i]);
        }
        law_parser_is_spared_runs(pass, memory, earlier, capacity);
        let copied = copied_run(pass, memory, steps);
        let (event, at) = steps.last();
        assert(at.collapse) by {
            assert(steps[steps.len() - 1].1.collapse);
        }
        match event {
            ReadEvent::Copied => {
                assert(copied.drop_last() == copied_run(pass, memory, earlier));
            },
            _ => {
                assert(parsed_run(pass, memory, steps) == parsed_run(pass, memory, earlier));
            },
        }
    }
}

/// A pass that ends without failure asks for a redraw exactly where it dealt with more bytes than the
/// parser holds back for a synchronized update.
pub proof fn law_redraw_where_more_was_dealt_with_than_held_back(
    pass: Pass,
    memory: Memory,
    at: Surroundings,
    event: ReadEvent,
)
    ensures
        ({
            let after = read_step(pass, memory, at, event);
            after.next matches ReadAction::Finish { wakeup } ==> (wakeup <==> at.sync_bytes
                < after.pass.processed)
        }),
{
}

/// Without the terminal, a read of at least one byte adds nothing to the waiting bytes only where each
/// of its bytes, at least two of them, equals the one that stands as far in front of it as the read is
/// long.
pub proof fn law_undone_read_repeats_byte_for_byte(
    pass: Pass,
    memory: Memory,
    at: Surroundings,
    n: usize,
)
    requires
        pass.unprocessed + n <= at.buf.len(),
        n > 0,
        !pass.locked,
        read_step(pass, memory, at, ReadEvent::Read(n)).pass.unprocessed == pass.unprocessed,
    ensures
        2 <= n <= pass.unprocessed,
        forall|k: int|
            pass.unprocessed <= k < pass.unprocessed + n ==> (#[trigger] at.buf[k]) == at.buf[k - n],
{
    let before = pass.unprocessed as int;
    assert(is_reread(at.buf, before, before + n));
    assert forall|k: int| before <= k < before + n implies (#[trigger] at.buf[k]) == at.buf[k
        - n] by {
        assert(at.buf.subrange(before - n, before)[k - before] == at.buf.subrange(
            before,
            before + n,
        )[k - before]);
    }
}

/// A read of at least two bytes, each of which equals the one that stands as far in front of it as the
/// read is long, is undone: the pass goes on as if nothing had been read.
pub proof fn law_byte_for_byte_repetition_is_undone(
    pass: Pass,
    memory: Memory,
    at: Surroundings,
    n: usize,
)
    requires
        pass.unprocessed + n <= at.buf.len(),
        2 <= n <= pass.unprocessed,
        forall|k: int|
            pass.unprocessed <= k < pass.unprocessed + n ==> (#[trigger] at.buf[k]) == at.buf[k - n],
    ensures
        read_step(pass, memory, at, ReadEvent::Read(n)) == (Outcome {
            pass,
            memory,
            next: ReadAction::Read,
        }),
{
    let before = pass.unprocessed as int;
    let preceding = at.buf.subrange(before - n, before);
    let this_read = at.buf.subrange(before, before + n);
    assert forall|i: int| 0 <= i < n implies #[trigger] preceding[i] == this_read[i] by {
        let k = before + i;
        assert(at.buf[k] == at.buf[k - n]);
    }
    assert(preceding == this_read);
}

/// Without the terminal, a read that leaves bytes waiting and is not undone is kept whole, and an
/// attempt to lock the terminal comes next. A read is kept where it is too short to count, where not
/// as much stands in front of it, and where a single byte, the one at `differs`, is another than the
/// one that stands as far in front of it as the read is long.
pub proof fn law_other_read_is_kept(
    pass: Pass,
    memory: Memory,
    at: Surroundings,
    n: usize,
    differs: int,
)
    requires
        0 < pass.unprocessed + n <= at.buf.len(),
        !pass.locked,
        n < 2 || n > pass.unprocessed || (pass.unprocessed <= differs < pass.unprocessed + n
            && at.buf[differs] != at.buf[differs - n]),
    ensures
        read_step(pass, memory, at, ReadEvent::Read(n)) == (Outcome {
            pass: Pass {
                unprocessed: pass.unprocessed + n as nat,
                phase: ReadPhase::TryLocking,
                ..pass
            },
            memory,
            next: ReadAction::TryLock,
        }),
{
    lemma_difference_shows(pass, at, n, differs);
}

proof fn lemma_difference_shows(pass: Pass, at: Surroundings, n: usize, differs: int)
    requires
        pass.unprocessed + n <= at.buf.len(),
        n < 2 || n > pass.unprocessed || (pass.unprocessed <= differs < pass.unprocessed + n
            && at.buf[differs] != at.buf[differs - n]),
    ensures
        !is_reread(at.buf, pass.unprocessed as int, pass.unprocessed + n),
{
    let before = pass.unprocessed as int;
    if 2 <= n <= before {
        assert(at.buf.subrange(before - n, before)[differs - before] != at.buf.subrange(
            before,
            before + n,
        )[differs - before]);
    }
}

/// Where nothing waits, a read that brings nothing ends the pass, and so does one that was interrupted
/// or would have to wait.
pub proof fn law_pass_ends_where_nothing_is_left(
    pass: Pass,
    memory: Memory,
    at: Surroundings,
    event: ReadEvent,
)
    requires
        pass.unprocessed == 0,
        event == ReadEvent::Read(0) || event == ReadEvent::ReadFailed(IoErrorKind::Interrupted)
            || event == ReadEvent::ReadFailed(IoErrorKind::WouldBlock),
    ensures
        read_step(pass, memory, at, event) == (Outcome {
            pass: Pass { phase: ReadPhase::Finished, ..pass },
            memory,
            next: ReadAction::Finish { wakeup: at.sync_bytes < pass.processed },
        }),
{
}

/// Without the terminal, waiting bytes survive a read that was interrupted or would have to wait: the
/// terminal is tried. Any other failure ends the pass at once, in every state.
pub proof fn law_failed_read_takes_its_course(
    pass: Pass,
    memory: Memory,
    at: Surroundings,
    kind: IoErrorKind,
)
    ensures
        kind is Other ==> read_step(pass, memory, at, ReadEvent::ReadFailed(kind)) == (Outcome {
            pass: Pass { phase: ReadPhase::Finished, ..pass },
            memory,
            next: ReadAction::Fail,
        }),
        !(kind is Other) && pass.unprocessed > 0 && !pass.locked ==> read_step(
            pass,
            memory,
            at,
            ReadEvent::ReadFailed(kind),
        ) == (Outcome {
            pass: Pass { phase: ReadPhase::TryLocking, ..pass },
            memory,
            next: ReadAction::TryLock,
        }),
{
}

/// Where the terminal is taken, the pass goes on reading with all its bytes still waiting, until a
/// mebibyte waits: then it insists on the lock.
pub proof fn law_taken_terminal_is_waited_for_at_a_mebibyte(
    pass: Pass,
    memory: Memory,
    at: Surroundings,
)
    ensures
        read_step(pass, memory, at, ReadEvent::TryLocked(false)) == (if pass.unprocessed
            >= 1024 * 1024 {
            Outcome {
                pass: Pass { phase: ReadPhase::Locking, ..pass },
                memory,
                next: ReadAction::Lock,
            }
        } else {
            Outcome {
                pass: Pass { phase: ReadPhase::Reading, ..pass },
                memory,
                next: ReadAction::Read,
            }
        }),
{
}

/// Once the terminal is locked, all `full` waiting bytes are held against the window at once. What is
/// new of them is recorded first; where nothing is, they are dealt with. The window takes in what is
/// forwarded, and what is carried along for split runs stays as it is. This comes about with the lock,
/// and, where the terminal is locked already, with a read that is kept and with one that was
/// interrupted or would have to wait while bytes wait.
pub proof fn law_waiting_bytes_are_held_against_the_window(
    pass: Pass,
    memory: Memory,
    at: Surroundings,
    event: ReadEvent,
    full: nat,
    differs: int,
)
    requires
        0 < full <= at.buf.len(),
        match event {
            ReadEvent::TryLocked(locked) => locked && full == pass.unprocessed,
            ReadEvent::Locked => full == pass.unprocessed,
            ReadEvent::ReadFailed(kind) => {
                &&& kind is Interrupted || kind is WouldBlock
                &&& pass.locked
                &&& full == pass.unprocessed
            },
            ReadEvent::Read(n) => {
                &&& pass.locked
                &&& full == pass.unprocessed + n
                &&& n < 2 || n > pass.unprocessed || (pass.unprocessed <= differs < full
                    && at.buf[differs] != at.buf[differs - n])
            },
            _ => false,
        },
    ensures
        ({
            let waiting = at.buf.subrange(0, full as int);
            let new = forwarded(memory.window, waiting, at.now);
            let after = read_step(pass, memory, at, event);
            &&& after.memory.window == remembered(memory.window, waiting, at.now)
            &&& after.memory.trailing_cr == memory.trailing_cr
            &&& after.pass.locked
            &&& new.len() > 0 ==> {
                &&& after.next is Record
                &&& after.pass.phase is Recording
                &&& after.pass.bytes == new
                &&& after.pass.unprocessed == full
                &&& after.pass.processed == pass.processed
            }
            &&& new.len() == 0 ==> {
                let processed = pass.processed + full;
                &&& after.pass.unprocessed == 0
                &&& after.pass.processed == processed
                &&& after.pass.bytes.len() == 0
                &&& processed < 65535 ==> after.pass.phase is Reading && after.next is Read
                &&& processed >= 65535 ==> after.pass.phase is Finished && after.next == (
                ReadAction::Finish { wakeup: at.sync_bytes < processed })
            }
        }),
{
    assert(at.buf.take(full as int) == at.buf.subrange(0, full as int));
    match event {
        ReadEvent::Read(n) => {
            lemma_difference_shows(pass, at, n, differs);
        },
        _ => {},
    }
}

/// Bytes at hand are recorded as they are, then copied as they are, then parsed: as they are, or
/// without runs where those are kept from the parser. No step in between touches anything else.
pub proof fn law_bytes_at_hand_go_to_each_consumer(pass: Pass, memory: Memory, at: Surroundings)
    ensures
        read_step(pass, memory, at, ReadEvent::Recorded) == (Outcome {
            pass: Pass { phase: ReadPhase::Copying, ..pass },
            memory,
            next: ReadAction::Copy,
        }),
        read_step(pass, memory, at, ReadEvent::Copied) == (Outcome {
            pass: Pass {
                phase: ReadPhase::Parsing,
                bytes: if at.collapse {
                    collapsed_after(memory.trailing_cr, pass.bytes)
                } else {
                    pass.bytes
                },
                ..pass
            },
            memory: Memory {
                window: memory.window,
                trailing_cr: if at.collapse {
                    ends_in_cr(memory.trailing_cr, pass.bytes)
                } else {
                    memory.trailing_cr
                },
            },
            next: ReadAction::Parse,
        }),
{
}

/// Once the bytes at hand are parsed, all the waiting bytes are dealt with, those that were stripped
/// among them. The pass goes on reading, unless it has dealt with 65535 bytes or more under the lock.
pub proof fn law_parsed_bytes_are_dealt_with(pass: Pass, memory: Memory, at: Surroundings)
    ensures
        ({
            let after = read_step(pass, memory, at, ReadEvent::Parsed);
            let processed = pass.processed + pass.unprocessed;
            &&& after.memory == memory
            &&& after.pass.locked == pass.locked
            &&& after.pass.unprocessed == 0
            &&& after.pass.processed == processed
            &&& after.pass.bytes.len() == 0
            &&& processed < 65535 ==> after.pass.phase is Reading && after.next is Read
            &&& processed >= 65535 ==> after.pass.phase is Finished && after.next == (
            ReadAction::Finish { wakeup: at.sync_bytes < processed })
        }),
{
}

} // verus!
