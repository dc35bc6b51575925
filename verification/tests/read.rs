use pty_event_loop::event_loop::EventLoop;
use pty_event_loop::failure::IoErrorKind;
use pty_event_loop::read::{ReadAction, ReadEvent, ReadPass, MAX_LOCKED_READ, READ_BUFFER_SIZE};
use pty_event_loop::state::State;

const MS: u128 = 1_000_000;

/// Puts `bytes` behind what waits in `buf`, as a read does.
fn fill(buf: &mut [u8], pass: &ReadPass, bytes: &[u8]) -> ReadEvent {
    let start = pass.unprocessed();
    buf[start..start + bytes.len()].copy_from_slice(bytes);
    ReadEvent::Read(bytes.len())
}

/// Lets the consumers take their turns after `action`. Returns what was recorded, what was copied,
/// what was parsed, and what to do next.
fn consume(
    event_loop: &mut EventLoop,
    pass: &mut ReadPass,
    buf: &[u8],
    mut action: ReadAction,
    now: u128,
) -> (Vec<u8>, Vec<u8>, Vec<u8>, ReadAction) {
    assert_eq!(action, ReadAction::Record);
    let recorded = pass.bytes().to_vec();
    action = event_loop.pty_read_at(pass, buf, ReadEvent::Recorded, now, 0);
    assert_eq!(action, ReadAction::Copy);
    let copied = pass.bytes().to_vec();
    action = event_loop.pty_read_at(pass, buf, ReadEvent::Copied, now, 0);
    assert_eq!(action, ReadAction::Parse);
    let parsed = pass.bytes().to_vec();
    action = event_loop.pty_read_at(pass, buf, ReadEvent::Parsed, now, 0);
    assert!(pass.bytes().is_empty());
    (recorded, copied, parsed, action)
}

/// Reads `bytes` at `now`, with the terminal free. Returns what was copied and what was parsed.
fn read_through(
    event_loop: &mut EventLoop,
    pass: &mut ReadPass,
    buf: &mut [u8],
    bytes: &[u8],
    now: u128,
) -> (Vec<u8>, Vec<u8>) {
    let event = fill(buf, pass, bytes);
    let mut action = event_loop.pty_read_at(pass, buf, event, now, 0);
    if action == ReadAction::TryLock {
        action = event_loop.pty_read_at(pass, buf, ReadEvent::TryLocked(true), now, 0);
    }
    if action != ReadAction::Record {
        assert_eq!(action, ReadAction::Read);
        return (Vec::new(), Vec::new());
    }
    let (recorded, copied, parsed, action) = consume(event_loop, pass, buf, action, now);
    assert_eq!(recorded, copied);
    assert_eq!(action, ReadAction::Read);
    assert_eq!(pass.unprocessed(), 0);
    (copied, parsed)
}

#[test]
fn an_empty_read_ends_the_pass_without_a_redraw() {
    let mut event_loop = EventLoop::new(false, false);
    let buf = [0u8; 16];
    let mut pass = ReadPass::new();
    let action = event_loop.pty_read_at(&mut pass, &buf, ReadEvent::Read(0), 0, 0);
    assert!(matches!(action, ReadAction::Finish { wakeup: false }));
}

#[test]
fn a_read_is_forwarded_once_the_terminal_is_locked() {
    let mut event_loop = EventLoop::new(false, false);
    let mut buf = [0u8; 16];
    let mut pass = ReadPass::new();
    let event = fill(&mut buf, &pass, b"hi\r\r\n");
    let action = event_loop.pty_read_at(&mut pass, &buf, event, 0, 0);
    assert_eq!(action, ReadAction::TryLock);
    assert!(pass.bytes().is_empty());
    let action = event_loop.pty_read_at(&mut pass, &buf, ReadEvent::TryLocked(true), 0, 0);
    let (recorded, copied, parsed, action) =
        consume(&mut event_loop, &mut pass, &buf, action, 0);
    assert_eq!(recorded, b"hi\r\r\n");
    assert_eq!(copied, b"hi\r\r\n");
    assert_eq!(parsed, b"hi\r\r\n");
    assert_eq!(action, ReadAction::Read);
    assert_eq!(pass.unprocessed(), 0);
    // The terminal stays locked: the next read is forwarded at once.
    let event = fill(&mut buf, &pass, b"x");
    let action = event_loop.pty_read_at(&mut pass, &buf, event, 0, 0);
    let (_, _, parsed, action) = consume(&mut event_loop, &mut pass, &buf, action, 0);
    assert_eq!(parsed, b"x");
    assert_eq!(action, ReadAction::Read);
    let failed = ReadEvent::ReadFailed(IoErrorKind::WouldBlock);
    let action = event_loop.pty_read_at(&mut pass, &buf, failed, 0, 5);
    assert_eq!(action, ReadAction::Finish { wakeup: true });
}

#[test]
fn no_redraw_where_every_byte_is_held_back() {
    let mut event_loop = EventLoop::new(false, false);
    let mut buf = [0u8; 16];
    let mut pass = ReadPass::new();
    read_through(&mut event_loop, &mut pass, &mut buf, b"abc", 0);
    let action = event_loop.pty_read_at(&mut pass, &buf, ReadEvent::Read(0), 0, 3);
    assert_eq!(action, ReadAction::Finish { wakeup: false });
}

#[test]
fn runs_are_kept_from_the_parser_alone() {
    let mut event_loop = EventLoop::new(false, false).collapse_cr_cr_lf(true);
    let mut buf = [0u8; 16];
    let mut pass = ReadPass::new();
    let (copied, parsed) =
        read_through(&mut event_loop, &mut pass, &mut buf, b"a\r\n\r\r\nb", 0);
    assert_eq!(copied, b"a\r\n\r\r\nb");
    assert_eq!(parsed, b"a\r\nb");
}

#[test]
fn a_run_that_is_split_over_two_reads_is_kept_from_the_parser() {
    let mut event_loop = EventLoop::new(false, false).collapse_cr_cr_lf(true);
    let mut buf = [0u8; 16];
    let mut pass = ReadPass::new();
    let (first, mut parsed) = read_through(&mut event_loop, &mut pass, &mut buf, b"x\r", 0);
    let (second, more) = read_through(&mut event_loop, &mut pass, &mut buf, b"\r\ny", 0);
    assert_eq!([first, second].concat(), b"x\r\r\ny");
    parsed.extend(more);
    assert_eq!(parsed, b"x\r\ny");

    // The trailing `\r` outlives the pass.
    read_through(&mut event_loop, &mut pass, &mut buf, b"z\r", 0);
    let mut pass = ReadPass::new();
    let (_, parsed) = read_through(&mut event_loop, &mut pass, &mut buf, b"\r\nw", 0);
    assert_eq!(parsed, b"\nw");
}

#[test]
fn without_collapsing_split_runs_pass() {
    let mut event_loop = EventLoop::new(false, false);
    let mut buf = [0u8; 16];
    let mut pass = ReadPass::new();
    let (_, mut parsed) = read_through(&mut event_loop, &mut pass, &mut buf, b"x\r", 0);
    let (_, more) = read_through(&mut event_loop, &mut pass, &mut buf, b"\r\ny", 0);
    parsed.extend(more);
    assert_eq!(parsed, b"x\r\r\ny");
}

#[test]
fn a_read_that_repeats_the_one_before_it_is_undone() {
    let mut event_loop = EventLoop::new(false, false);
    let mut buf = [0u8; 16];
    let mut pass = ReadPass::new();
    let event = fill(&mut buf, &pass, b"x\r\n");
    event_loop.pty_read_at(&mut pass, &buf, event, 0, 0);
    let action = event_loop.pty_read_at(&mut pass, &buf, ReadEvent::TryLocked(false), 0, 0);
    assert_eq!(action, ReadAction::Read);
    let event = fill(&mut buf, &pass, b"\r\n");
    let action = event_loop.pty_read_at(&mut pass, &buf, event, 0, 0);
    assert_eq!(action, ReadAction::Read);
    assert_eq!(pass.unprocessed(), 3);
    // A single byte is no repetition.
    let event = fill(&mut buf, &pass, b"\n");
    let action = event_loop.pty_read_at(&mut pass, &buf, event, 0, 0);
    assert_eq!(action, ReadAction::TryLock);
    assert_eq!(pass.unprocessed(), 4);
    let action = event_loop.pty_read_at(&mut pass, &buf, ReadEvent::TryLocked(true), 0, 0);
    assert_eq!(action, ReadAction::Record);
    assert_eq!(pass.bytes(), b"x\r\n\n");
}

#[test]
fn a_repetition_reaches_no_consumer() {
    let mut event_loop = EventLoop::new(false, false);
    let mut buf = [0u8; 16];
    let mut pass = ReadPass::new();
    read_through(&mut event_loop, &mut pass, &mut buf, b"ls\r\n", 0);
    let event = fill(&mut buf, &pass, b"\r\n");
    let action = event_loop.pty_read_at(&mut pass, &buf, event, 5 * MS, 0);
    assert_eq!(action, ReadAction::Read);
    assert_eq!(pass.unprocessed(), 0);
    let (copied, _) = read_through(&mut event_loop, &mut pass, &mut buf, b"\r\nok", 6 * MS);
    assert_eq!(copied, b"ok");
    // Dropped bytes count as dealt with, so the terminal is redrawn.
    let action = event_loop.pty_read_at(&mut pass, &buf, ReadEvent::Read(0), 6 * MS, 9);
    assert_eq!(action, ReadAction::Finish { wakeup: true });

    // The window outlives the pass.
    let mut pass = ReadPass::new();
    let (copied, _) = read_through(&mut event_loop, &mut pass, &mut buf, b"ok", 7 * MS);
    assert!(copied.is_empty());
}

#[test]
fn a_repetition_after_an_unrelated_read_reaches_no_consumer() {
    let mut event_loop = EventLoop::new(false, false);
    let mut buf = [0u8; 16];
    let mut pass = ReadPass::new();
    let mut out = Vec::new();
    for bytes in [&b"\r\n"[..], b"\x1b[?6c", b"\r\n"] {
        out.extend(read_through(&mut event_loop, &mut pass, &mut buf, bytes, 0).0);
    }
    assert_eq!(out, b"\r\n\x1b[?6c");
}

#[test]
fn failures_end_the_pass_or_hand_on_what_waits() {
    let mut event_loop = EventLoop::new(false, false);
    let mut buf = [0u8; 16];

    let mut pass = ReadPass::new();
    let failed = ReadEvent::ReadFailed(IoErrorKind::Interrupted);
    let action = event_loop.pty_read_at(&mut pass, &buf, failed, 0, 0);
    assert!(matches!(action, ReadAction::Finish { wakeup: false }));

    let mut pass = ReadPass::new();
    let failed = ReadEvent::ReadFailed(IoErrorKind::Other);
    let action = event_loop.pty_read_at(&mut pass, &buf, failed, 0, 0);
    assert!(matches!(action, ReadAction::Fail));

    let mut pass = ReadPass::new();
    let event = fill(&mut buf, &pass, b"ab");
    event_loop.pty_read_at(&mut pass, &buf, event, 0, 0);
    event_loop.pty_read_at(&mut pass, &buf, ReadEvent::TryLocked(false), 0, 0);
    let failed = ReadEvent::ReadFailed(IoErrorKind::WouldBlock);
    let action = event_loop.pty_read_at(&mut pass, &buf, failed, 0, 0);
    assert!(matches!(action, ReadAction::TryLock));
    // Neither does a read of nothing end the pass while bytes wait.
    event_loop.pty_read_at(&mut pass, &buf, ReadEvent::TryLocked(false), 0, 0);
    let action = event_loop.pty_read_at(&mut pass, &buf, ReadEvent::Read(0), 0, 0);
    assert!(matches!(action, ReadAction::TryLock));
}

#[test]
fn the_lock_is_waited_for_only_when_the_buffer_is_full() {
    let mut event_loop = EventLoop::new(false, false);
    let buf: Vec<u8> = (0..READ_BUFFER_SIZE).map(|i| (i % 251) as u8).collect();
    let mut pass = ReadPass::new();
    let event = ReadEvent::Read(READ_BUFFER_SIZE - 1);
    event_loop.pty_read_at(&mut pass, &buf, event, 0, 0);
    let action = event_loop.pty_read_at(&mut pass, &buf, ReadEvent::TryLocked(false), 0, 0);
    assert_eq!(action, ReadAction::Read);
    event_loop.pty_read_at(&mut pass, &buf, ReadEvent::Read(1), 0, 0);
    let action = event_loop.pty_read_at(&mut pass, &buf, ReadEvent::TryLocked(false), 0, 0);
    assert_eq!(action, ReadAction::Lock);
    let action = event_loop.pty_read_at(&mut pass, &buf, ReadEvent::Locked, 0, 0);
    // More than enough under one lock: the pass is over.
    let (_, copied, parsed, action) = consume(&mut event_loop, &mut pass, &buf, action, 0);
    assert_eq!(copied, buf);
    assert_eq!(parsed, buf);
    assert_eq!(action, ReadAction::Finish { wakeup: true });
}

#[test]
fn a_pass_ends_after_as_much_as_may_be_read_under_the_lock() {
    assert_eq!(MAX_LOCKED_READ, 65535);
    let mut event_loop = EventLoop::new(false, false);
    let buf: Vec<u8> = (0..MAX_LOCKED_READ).map(|i| (i % 251) as u8).collect();
    let mut pass = ReadPass::new();
    let event = ReadEvent::Read(MAX_LOCKED_READ - 1);
    event_loop.pty_read_at(&mut pass, &buf, event, 0, 0);
    let action = event_loop.pty_read_at(&mut pass, &buf, ReadEvent::TryLocked(true), 0, 0);
    let (_, _, _, action) = consume(&mut event_loop, &mut pass, &buf, action, 0);
    assert_eq!(action, ReadAction::Read);
    let action = event_loop.pty_read_at(&mut pass, &buf, ReadEvent::Read(1), 0, 0);
    let (_, _, _, action) = consume(&mut event_loop, &mut pass, &buf, action, 0);
    assert_eq!(action, ReadAction::Finish { wakeup: true });
}

#[test]
fn the_event_loop_reads_its_own_clock() {
    let mut event_loop = EventLoop::new(false, false);
    let state = State::default();
    let mut buf = [0u8; 16];
    let mut pass = ReadPass::new();
    for _ in 0..2 {
        let event = fill(&mut buf, &pass, b"ls\r\n");
        let mut action = event_loop.pty_read(&state, &mut pass, &buf, event);
        if action == ReadAction::TryLock {
            action = event_loop.pty_read(&state, &mut pass, &buf, ReadEvent::TryLocked(true));
        }
        assert_eq!(action, ReadAction::Record);
        assert_eq!(pass.bytes(), b"ls\r\n");
        event_loop.pty_read(&state, &mut pass, &buf, ReadEvent::Recorded);
        event_loop.pty_read(&state, &mut pass, &buf, ReadEvent::Copied);
        let action = event_loop.pty_read(&state, &mut pass, &buf, ReadEvent::Parsed);
        assert_eq!(action, ReadAction::Read);

        // By the next read the window has passed.
        let start = std::time::Instant::now();
        while start.elapsed().as_millis() < 60 {}
    }
    let action = event_loop.pty_read(&state, &mut pass, &buf, ReadEvent::Read(0));
    assert_eq!(action, ReadAction::Finish { wakeup: true });
}

#[test]
fn a_pass_forwards_the_kept_bytes_in_order() {
    let mut event_loop = EventLoop::new(false, false);
    let mut buf = [0u8; 32];
    let mut pass = ReadPass::new();
    let mut out = Vec::new();
    // The second read is undone, the fourth dropped whole, the fifth stripped of its prefix.
    let reads: [&[u8]; 5] = [b"one\r\n", b"\r\n", b"two", b"two", b"wothree"];
    for (i, bytes) in reads.iter().enumerate() {
        let now = i as u128;
        let event = fill(&mut buf, &pass, bytes);
        let mut action = event_loop.pty_read_at(&mut pass, &buf, event, now, 0);
        if action == ReadAction::TryLock {
            let locked = ReadEvent::TryLocked(i > 0);
            action = event_loop.pty_read_at(&mut pass, &buf, locked, now, 0);
        }
        if action == ReadAction::Record {
            out.extend(consume(&mut event_loop, &mut pass, &buf, action, now).2);
        }
    }
    assert_eq!(out, b"one\r\ntwothree");
}
