use pty_event_loop::recent::{RecentOutput, DUPLICATE_READ_WINDOW_NANOS};

const MS: u128 = 1_000_000;

#[test]
fn a_new_window_forwards_everything() {
    let mut recent = RecentOutput::new();
    assert_eq!(recent.take_fresh(b"\r\n", 0), b"\r\n");
    assert_eq!(recent.take_fresh(b"", 0), b"");
}

#[test]
fn a_second_read_within_the_window_is_dropped() {
    let mut recent = RecentOutput::new();
    assert_eq!(recent.take_fresh(b"$ ls\r\n", 0), b"$ ls\r\n");
    assert_eq!(recent.take_fresh(b"\r\n", 3 * MS), b"");
    assert_eq!(recent.take_fresh(b"$ ls\r\n", 4 * MS), b"");
}

#[test]
fn the_window_is_fifty_milliseconds() {
    assert_eq!(DUPLICATE_READ_WINDOW_NANOS, 50 * MS);

    let mut recent = RecentOutput::new();
    assert_eq!(recent.take_fresh(b"\r\n", 7), b"\r\n");
    assert_eq!(recent.take_fresh(b"\r\n", 7 + 50 * MS - 1), b"");

    let mut recent = RecentOutput::new();
    assert_eq!(recent.take_fresh(b"\r\n", 7), b"\r\n");
    assert_eq!(recent.take_fresh(b"\r\n", 7 + 50 * MS), b"\r\n");
}

#[test]
fn a_dropped_chunk_does_not_renew_the_window() {
    let mut recent = RecentOutput::new();
    assert_eq!(recent.take_fresh(b"\r\n", 0), b"\r\n");
    assert_eq!(recent.take_fresh(b"\r\n", 40 * MS), b"");
    assert_eq!(recent.take_fresh(b"\r\n", 60 * MS), b"\r\n");
}

#[test]
fn a_fused_repetition_is_stripped() {
    let mut recent = RecentOutput::new();
    assert_eq!(recent.take_fresh(b"\r\n", 0), b"\r\n");
    assert_eq!(recent.take_fresh(b"\r\n\x1b[?2004l", MS), b"\x1b[?2004l");
    // What was forwarded counts as forwarded, in front of it the first copy.
    assert_eq!(recent.take_fresh(b"\r\n\x1b[?2004lx", 2 * MS), b"x");
}

#[test]
fn the_longest_repetition_is_stripped() {
    let mut recent = RecentOutput::new();
    assert_eq!(recent.take_fresh(b"ababab", 0), b"ababab");
    assert_eq!(recent.take_fresh(b"ababX", MS), b"X");

    let mut recent = RecentOutput::new();
    assert_eq!(recent.take_fresh(b"xyaba", 0), b"xyaba");
    assert_eq!(recent.take_fresh(b"abac", MS), b"c");
    assert_eq!(recent.take_fresh(b"cd", MS), b"cd");
}

#[test]
fn a_single_byte_is_never_dropped() {
    let mut recent = RecentOutput::new();
    assert_eq!(recent.take_fresh(b" ", 0), b" ");
    assert_eq!(recent.take_fresh(b" ", 0), b" ");
    // Neither is a prefix of one byte.
    assert_eq!(recent.take_fresh(b" x", 0), b" x");
    assert_eq!(recent.take_fresh(b"xy", 0), b"xy");
}

#[test]
fn a_repetition_may_span_reads() {
    let mut recent = RecentOutput::new();
    assert_eq!(recent.take_fresh(b"abc", 0), b"abc");
    assert_eq!(recent.take_fresh(b"de", MS), b"de");
    assert_eq!(recent.take_fresh(b"bcde", 2 * MS), b"");
    assert_eq!(recent.take_fresh(b"abcde", 2 * MS), b"");
}

#[test]
fn a_repetition_after_unrelated_bytes_is_dropped() {
    let mut recent = RecentOutput::new();
    assert_eq!(recent.take_fresh(b"\r\n", 0), b"\r\n");
    assert_eq!(recent.take_fresh(b"\x1b[?6c", MS), b"\x1b[?6c");
    assert_eq!(recent.take_fresh(b"\r\n", 2 * MS), b"");
    // It is gone once the first copy is too old.
    assert_eq!(recent.take_fresh(b"\r\n", 50 * MS), b"\r\n");
}

#[test]
fn a_prefix_is_stripped_only_where_it_repeats_the_end() {
    let mut recent = RecentOutput::new();
    assert_eq!(recent.take_fresh(b"\r\n", 0), b"\r\n");
    assert_eq!(recent.take_fresh(b"\x1b[?6c", MS), b"\x1b[?6c");
    assert_eq!(recent.take_fresh(b"\r\nx", 2 * MS), b"\r\nx");
    assert_eq!(recent.take_fresh(b"\nxy", 3 * MS), b"y");
}

#[test]
fn a_repetition_is_recognised_as_far_as_it_is_young() {
    let mut recent = RecentOutput::new();
    assert_eq!(recent.take_fresh(b"ab", 0), b"ab");
    assert_eq!(recent.take_fresh(b"cd", 40 * MS), b"cd");
    assert_eq!(recent.take_fresh(b"abcd", 60 * MS), b"abcd");
    assert_eq!(recent.take_fresh(b"cd", 61 * MS), b"");
}

#[test]
fn a_clock_that_runs_backwards_expires_nothing() {
    let mut recent = RecentOutput::new();
    assert_eq!(recent.take_fresh(b"ab", 100 * MS), b"ab");
    assert_eq!(recent.take_fresh(b"ab", 0), b"");
}
