use pty_event_loop::collapse::collapse_cr_cr_lf;

#[test]
fn drops_an_exact_cr_cr_lf_run() {
    let mut pending = false;
    // A leading `\r\n`, then its duplicate `\r\r\n`, then the rest of the stream.
    let out = collapse_cr_cr_lf(b"\r\n\r\r\n\x1b[?2004l", &mut pending);
    assert_eq!(out, b"\r\n\x1b[?2004l");
}

#[test]
fn leaves_a_plain_cr_lf_untouched() {
    let mut pending = false;
    let out = collapse_cr_cr_lf(b"hello\r\nworld", &mut pending);
    assert_eq!(out, b"hello\r\nworld");
}

#[test]
fn leaves_a_genuine_blank_line_cr_lf_cr_lf_untouched() {
    // A real blank line is `\r\n\r\n`, never `\r\r\n`: it must survive.
    let mut pending = false;
    let out = collapse_cr_cr_lf(b"a\r\n\r\nb", &mut pending);
    assert_eq!(out, b"a\r\n\r\nb");
}

#[test]
fn leaves_a_bare_cr_and_bare_lf_untouched() {
    let mut pending = false;
    assert_eq!(collapse_cr_cr_lf(b"\r", &mut pending), b"\r");
    assert_eq!(collapse_cr_cr_lf(b"\n", &mut pending), b"\n");
    assert_eq!(collapse_cr_cr_lf(b"a\rb", &mut pending), b"a\rb");
}

#[test]
fn collapses_several_cr_cr_lf_runs_in_one_chunk() {
    let mut pending = false;
    let out = collapse_cr_cr_lf(b"\r\n\r\r\nx\r\n\r\r\ny", &mut pending);
    assert_eq!(out, b"\r\nx\r\ny");
}

#[test]
fn a_run_that_is_split_over_two_chunks_is_collapsed() {
    let mut pending = false;
    assert_eq!(collapse_cr_cr_lf(b"x\r", &mut pending), b"x\r");
    assert!(pending);
    assert_eq!(collapse_cr_cr_lf(b"", &mut pending), b"");
    assert!(pending);
    assert_eq!(collapse_cr_cr_lf(b"\r\ny\r\r\nz", &mut pending), b"\nyz");
    assert!(!pending);
    // Without a `\r` in front of it the same chunk keeps its own.
    assert_eq!(collapse_cr_cr_lf(b"\r\ny", &mut pending), b"\r\ny");
}

#[test]
fn a_trailing_return_alone_changes_nothing() {
    let mut pending = true;
    assert_eq!(collapse_cr_cr_lf(b"\n", &mut pending), b"\n");
    assert!(!pending);
    pending = true;
    assert_eq!(collapse_cr_cr_lf(b"\r", &mut pending), b"\r");
    assert!(pending);
    assert_eq!(collapse_cr_cr_lf(b"\rx", &mut pending), b"\rx");
    assert!(!pending);
}

#[test]
fn only_the_last_two_returns_belong_to_a_run() {
    let mut pending = false;
    assert_eq!(collapse_cr_cr_lf(b"\r\r\r\n", &mut pending), b"\r");
    assert_eq!(collapse_cr_cr_lf(b"\r\r\r\r\n\n", &mut pending), b"\r\r\n");
    assert_eq!(collapse_cr_cr_lf(b"\r\r", &mut pending), b"\r\r");
    assert_eq!(collapse_cr_cr_lf(b"", &mut pending), b"");
}

#[test]
fn chunks_without_a_run_on_the_seam_collapse_independently() {
    let mut pending = false;
    let left = collapse_cr_cr_lf(b"a\r\r\n", &mut pending);
    let right = collapse_cr_cr_lf(b"\r\nb\r\r\n", &mut pending);
    let whole = collapse_cr_cr_lf(b"a\r\r\n\r\nb\r\r\n", &mut pending);
    assert_eq!(whole, b"a\r\nb");
    assert_eq!([left, right].concat(), whole);
    assert_eq!(whole.len() + 3 * 2, b"a\r\r\n\r\nb\r\r\n".len());
}
