//! Removal of the `\r\r\n` runs that two stacked pseudoterminals produce.

use vstd::prelude::*;
use vstd::slice::slice_subrange;

verus! {

/// Carriage return.
pub const CR: u8 = 13;

/// Line feed.
pub const LF: u8 = 10;

/// Whether an exact `\r\r\n` run starts at position `i` of `s`.
pub open spec fn run_at(s: Seq<u8>, i: int) -> bool {
    0 <= i && i + 2 < s.len() && s[i] == CR && s[i + 1] == CR && s[i + 2] == LF
}

/// Whether position `i` of `s` lies inside a `\r\r\n` run.
pub open spec fn in_run(s: Seq<u8>, i: int) -> bool {
    run_at(s, i) || run_at(s, i - 1) || run_at(s, i - 2)
}

/// The bytes among the first `n` of `s` that lie outside every `\r\r\n` run, in order.
pub open spec fn outside_runs(s: Seq<u8>, n: nat) -> Seq<u8>
    decreases n,
{
    if n == 0 {
        Seq::empty()
    } else if in_run(s, n - 1) {
        outside_runs(s, (n - 1) as nat)
    } else {
        outside_runs(s, (n - 1) as nat).push(s[n - 1])
    }
}

/// `s` without its `\r\r\n` runs.
pub open spec fn collapsed(s: Seq<u8>) -> Seq<u8> {
    outside_runs(s, s.len())
}

/// Whether `s` goes on with the rest of a `\r\r\n` whose first `\r` ended the chunk before, which is
/// what `trailing_cr` says.
pub open spec fn ends_split_run(trailing_cr: bool, s: Seq<u8>) -> bool {
    trailing_cr && s.len() >= 2 && s[0] == CR && s[1] == LF
}

/// What is left of a chunk that follows one that ended as `trailing_cr` says: the second `\r` of a
/// `\r\r\n` that is split between the two is gone, and so is every run within the chunk.
pub open spec fn collapsed_after(trailing_cr: bool, s: Seq<u8>) -> Seq<u8> {
    collapsed(
        if ends_split_run(trailing_cr, s) {
            s.skip(1)
        } else {
            s
        },
    )
}

/// Whether what was read so far ends in `\r`, once `s` is read too.
pub open spec fn ends_in_cr(trailing_cr: bool, s: Seq<u8>) -> bool {
    if s.len() == 0 {
        trailing_cr
    } else {
        s.last() == CR
    }
}

/// Whether what was read so far ends in `\r`, once `chunks` are read too.
pub open spec fn all_end_in_cr(trailing_cr: bool, chunks: Seq<Seq<u8>>) -> bool
    decreases chunks.len(),
{
    if chunks.len() == 0 {
        trailing_cr
    } else {
        ends_in_cr(all_end_in_cr(trailing_cr, chunks.drop_last()), chunks.last())
    }
}

/// What is left of `chunks`, one after the other.
pub open spec fn all_collapsed_after(trailing_cr: bool, chunks: Seq<Seq<u8>>) -> Seq<u8>
    decreases chunks.len(),
{
    if chunks.len() == 0 {
        Seq::empty()
    } else {
        all_collapsed_after(trailing_cr, chunks.drop_last()) + collapsed_after(
            all_end_in_cr(trailing_cr, chunks.drop_last()),
            chunks.last(),
        )
    }
}

/// The number of `\r\r\n` runs that start among the first `n` positions of `s`.
pub open spec fn run_count(s: Seq<u8>, n: nat) -> nat
    decreases n,
{
    if n == 0 {
        0
    } else {
        run_count(s, (n - 1) as nat) + if run_at(s, n - 1) {
            1nat
        } else {
            0nat
        }
    }
}

/// Drops every exact `\r\r\n` run from `chunk`.
///
/// A shell's one newline arrives over two stacked pseudoterminals as `\r\n` followed by a
/// duplicate `\r\r\n`; dropping the duplicate leaves the single `\r\n`. A lone `\r\n`, a bare
/// `\r` and a bare `\n` all pass through, so ordinary output, genuine blank lines among it, is
/// never altered.
///
/// `pending_trailing_cr` carries a `\r` at the end of one chunk into the next, so that a `\r\r\n`
/// which is split behind its first `\r` is collapsed too. That `\r` is out by then, so the second
/// one is dropped and a single `\r\n` is left.
pub fn collapse_cr_cr_lf(chunk: &[u8], pending_trailing_cr: &mut bool) -> (out: Vec<u8>)
    ensures
        out@ == collapsed_after(*old(pending_trailing_cr), chunk@),
        *final(pending_trailing_cr) == ends_in_cr(*old(pending_trailing_cr), chunk@),
{
    let split: bool = *pending_trailing_cr && chunk.len() >= 2 && chunk[0] == CR && chunk[1] == LF;
    if chunk.len() > 0 {
        *pending_trailing_cr = chunk[chunk.len() - 1] == CR;
    }
    if split {
        let rest: &[u8] = slice_subrange(chunk, 1, chunk.len());
        assert(rest@ == chunk@.skip(1));
        drop_runs(rest)
    } else {
        drop_runs(chunk)
    }
}

/// `chunk` without its `\r\r\n` runs.
fn drop_runs(chunk: &[u8]) -> (out: Vec<u8>)
    ensures
        out@ == collapsed(chunk@),
{
    let mut out: Vec<u8> = Vec::with_capacity(chunk.len());
    let mut i: usize = 0;
    while i < chunk.len()
        invariant
            i <= chunk@.len(),
            out@ == outside_runs(chunk@, i as nat),
            !run_at(chunk@, i - 1),
            !run_at(chunk@, i - 2),
        decreases chunk@.len() - i,
    {
        if chunk[i] == CR && chunk.len() - i > 2 && chunk[i + 1] == CR && chunk[i + 2] == LF {
            assert(run_at(chunk@, i as int));
            assert(in_run(chunk@, i + 1) && in_run(chunk@, i + 2));
            assert(outside_runs(chunk@, (i + 3) as nat) == outside_runs(chunk@, i as nat)) by {
                reveal_with_fuel(outside_runs, 4);
            }
            i = i + 3;
        } else {
            out.push(chunk[i]);
            i = i + 1;
        }
    }
    out
}

proof fn lemma_runs_do_not_overlap(s: Seq<u8>, i: int)
    requires
        run_at(s, i),
    ensures
        !run_at(s, i - 1),
        !run_at(s, i - 2),
        !run_at(s, i + 1),
        !run_at(s, i + 2),
{
}

/// Output without an exact `\r\r\n`, within the chunk or begun in the one before, passes through
/// untouched.
pub proof fn law_ordinary_output_is_untouched(trailing_cr: bool, s: Seq<u8>)
    requires
        forall|i: int| !run_at(s, i),
        !ends_split_run(trailing_cr, s),
    ensures
        collapsed_after(trailing_cr, s) == s,
{
    lemma_prefix_without_runs(s, s.len());
    assert(s.take(s.len() as int) == s);
}

proof fn lemma_prefix_without_runs(s: Seq<u8>, n: nat)
    requires
        n <= s.len(),
        forall|i: int| !run_at(s, i),
    ensures
        outside_runs(s, n) == s.take(n as int),
    decreases n,
{
    if n > 0 {
        lemma_prefix_without_runs(s, (n - 1) as nat);
        assert(s.take(n as int) == s.take(n - 1).push(s[n - 1]));
    }
}

/// Exactly three bytes go for each `\r\r\n` run.
pub proof fn law_each_run_costs_three_bytes(s: Seq<u8>)
    ensures
        collapsed(s).len() + 3 * run_count(s, s.len()) == s.len(),
{
    lemma_length_so_far(s, s.len());
}

proof fn lemma_length_so_far(s: Seq<u8>, n: nat)
    requires
        n <= s.len(),
    ensures
        outside_runs(s, n).len() + 3 * run_count(s, n) == n + (if run_at(s, n - 1) {
            2int
        } else if run_at(s, n - 2) {
            1int
        } else {
            0int
        }),
    decreases n,
{
    if n > 0 {
        lemma_length_so_far(s, (n - 1) as nat);
        if run_at(s, n - 1) {
            lemma_runs_do_not_overlap(s, n - 1);
        }
        if run_at(s, n - 2) {
            lemma_runs_do_not_overlap(s, n - 2);
        }
        if run_at(s, n - 3) {
            lemma_runs_do_not_overlap(s, n - 3);
        }
    }
}

/// Where no run straddles the seam, two chunks collapsed one by one give what their
/// concatenation gives.
pub proof fn law_chunks_collapse_independently(a: Seq<u8>, b: Seq<u8>)
    requires
        !run_at(a + b, a.len() - 1),
        !run_at(a + b, a.len() - 2),
    ensures
        collapsed(a + b) == collapsed(a) + collapsed(b),
{
    lemma_seam(a, b, b.len());
    assert((a + b).len() == a.len() + b.len());
}

/// Every `\r\r\n` is dropped whole, whatever stands around it.
pub proof fn law_run_is_dropped(a: Seq<u8>, b: Seq<u8>)
    ensures
        collapsed(a + seq![CR, CR, LF] + b) == collapsed(a) + collapsed(b),
{
    let run = seq![CR, CR, LF];
    let head = a + run;
    let n = a.len() as int;
    assert(head[n] == CR && head[n + 1] == CR && head[n + 2] == LF);
    let whole = head + b;
    assert(whole[n + 1] == CR && whole[n + 2] == LF);
    law_chunks_collapse_independently(a, run);
    law_chunks_collapse_independently(head, b);
    assert(run_at(run, 0));
    assert(collapsed(run) == Seq::<u8>::empty()) by {
        assert(in_run(run, 0) && in_run(run, 1) && in_run(run, 2));
        reveal_with_fuel(outside_runs, 4);
    }
    assert(collapsed(a) + Seq::<u8>::empty() == collapsed(a));
}

proof fn lemma_seam(a: Seq<u8>, b: Seq<u8>, n: nat)
    requires
        n <= b.len(),
        !run_at(a + b, a.len() - 1),
        !run_at(a + b, a.len() - 2),
    ensures
        outside_runs(a + b, a.len() + n) == outside_runs(a, a.len()) + outside_runs(b, n),
    decreases n,
{
    let s = a + b;
    assert forall|i: int| 0 <= i < b.len() implies run_at(s, a.len() + i) == run_at(b, i) by {
        assert(i + 2 < b.len() ==> s[a.len() + i] == b[i] && s[a.len() + i + 1] == b[i + 1] && s[
            a.len() + i + 2] == b[i + 2]);
    }
    if n == 0 {
        lemma_left_of_seam(a, b, a.len());
        assert(outside_runs(a, a.len()) + outside_runs(b, 0) == outside_runs(a, a.len()));
    } else {
        lemma_seam(a, b, (n - 1) as nat);
        assert(s[a.len() + n - 1] == b[n - 1]);
        assert(run_at(s, a.len() + n - 1) == run_at(b, n - 1));
        assert(in_run(s, a.len() + n - 1) == in_run(b, n - 1)) by {
            if n >= 2 {
                assert(run_at(s, a.len() + (n - 2)) == run_at(b, n - 2));
            }
            if n >= 3 {
                assert(run_at(s, a.len() + (n - 3)) == run_at(b, n - 3));
            }
        }
        assert(outside_runs(s, a.len() + n) == outside_runs(a, a.len()) + outside_runs(b, n));
    }
}

proof fn lemma_left_of_seam(a: Seq<u8>, b: Seq<u8>, n: nat)
    requires
        n <= a.len(),
        !run_at(a + b, a.len() - 1),
        !run_at(a + b, a.len() - 2),
    ensures
        outside_runs(a + b, n) == outside_runs(a, n),
    decreases n,
{
    if n > 0 {
        let s = a + b;
        lemma_left_of_seam(a, b, (n - 1) as nat);
        assert forall|i: int| i < a.len() implies run_at(s, i) == run_at(a, i) by {
            if 0 <= i && i + 2 < a.len() {
                assert(s[i] == a[i] && s[i + 1] == a[i + 1] && s[i + 2] == a[i + 2]);
            }
        }
        assert(s[n - 1] == a[n - 1]);
        assert(in_run(s, n - 1) == in_run(a, n - 1));
    }
}

/// A `\r\r\n` that is split behind its first `\r` over two chunks comes out as a single `\r\n`,
/// whatever stands around it.
pub proof fn law_split_run_is_collapsed(trailing_cr: bool, a: Seq<u8>, b: Seq<u8>)
    ensures
        ({
            let first = a.push(CR);
            let second = seq![CR, LF] + b;
            collapsed_after(trailing_cr, first) + collapsed_after(
                ends_in_cr(trailing_cr, first),
                second,
            ) == collapsed_after(trailing_cr, a) + seq![CR, LF] + collapsed(b)
        }),
{
    let first = a.push(CR);
    let second = seq![CR, LF] + b;
    let begun = if ends_split_run(trailing_cr, a) {
        a.skip(1)
    } else {
        a
    };
    assert(ends_split_run(trailing_cr, first) == ends_split_run(trailing_cr, a)) by {
        if a.len() >= 2 {
            assert(first[0] == a[0] && first[1] == a[1]);
        }
    }
    if ends_split_run(trailing_cr, a) {
        assert(first.skip(1) == begun.push(CR));
    }
    lemma_single(CR);
    lemma_single(LF);
    assert(begun.push(CR) == begun + seq![CR]);
    law_chunks_collapse_independently(begun, seq![CR]);
    assert(ends_split_run(true, second));
    assert(second.skip(1) == seq![LF] + b);
    assert((seq![LF] + b)[0] == LF);
    law_chunks_collapse_independently(seq![LF], b);
    assert(collapsed(begun) + seq![CR] + (seq![LF] + collapsed(b)) == collapsed(begun) + seq![CR, LF]
        + collapsed(b));
}

proof fn lemma_single(byte: u8)
    ensures
        collapsed(seq![byte]) == seq![byte],
{
    lemma_prefix_without_runs(seq![byte], 1);
    assert(seq![byte].take(1) == seq![byte]);
}

/// A chunk in which `\r`, `\r` and `\n` nowhere stand in a row, and which does not begin with the
/// `\r\n` that follows a `\r` at the end of the chunk before, passes through byte for byte.
pub proof fn law_chunk_without_cr_cr_lf_is_untouched(trailing_cr: bool, s: Seq<u8>)
    requires
        forall|i: int|
            0 <= i && i + 2 < s.len() ==> !((#[trigger] s[i]) == 13 && s[i + 1] == 13 && s[i + 2]
                == 10),
        !(trailing_cr && s.len() >= 2 && s[0] == 13 && s[1] == 10),
    ensures
        collapsed_after(trailing_cr, s) == s,
{
    assert forall|i: int| !run_at(s, i) by {}
    law_ordinary_output_is_untouched(trailing_cr, s);
}

/// A `\r\r\n` goes whole, wherever it stands, and divides its chunk: what stands in front of it and
/// what stands behind it come out as they would alone.
pub proof fn law_cr_cr_lf_goes_wherever_it_stands(trailing_cr: bool, a: Seq<u8>, b: Seq<u8>)
    ensures
        collapsed_after(trailing_cr, a + seq![13u8, 13u8, 10u8] + b) == collapsed_after(
            trailing_cr,
            a,
        ) + collapsed_after(false, b),
{
    let run = seq![13u8, 13u8, 10u8];
    let s = a + run + b;
    let begun = if ends_split_run(trailing_cr, a) {
        a.skip(1)
    } else {
        a
    };
    assert(run == seq![CR, CR, LF]);
    assert(ends_split_run(trailing_cr, s) == ends_split_run(trailing_cr, a)) by {
        if a.len() == 0 {
            assert(s[1] == 13);
        } else if a.len() == 1 {
            assert(s[1] == 13);
        } else {
            assert(s[0] == a[0] && s[1] == a[1]);
        }
    }
    if ends_split_run(trailing_cr, a) {
        assert(s.skip(1) == begun + run + b);
    }
    law_run_is_dropped(begun, b);
}

/// A `\r` at the end of the chunk before matters only to a `\r\n` at the very beginning of a chunk,
/// which then loses its `\r`.
pub proof fn law_trailing_cr_costs_one_cr(s: Seq<u8>)
    ensures
        collapsed_after(true, s) == (if s.len() >= 2 && s[0] == 13 && s[1] == 10 {
            seq![10u8] + collapsed_after(false, s.skip(2))
        } else {
            collapsed_after(false, s)
        }),
{
    if s.len() >= 2 && s[0] == 13 && s[1] == 10 {
        let rest = s.skip(2);
        assert(s.skip(1) == seq![LF] + rest);
        assert((seq![LF] + rest)[0] == LF);
        lemma_single(LF);
        law_chunks_collapse_independently(seq![LF], rest);
    }
}

/// What is carried into the next chunk is whether the last byte so far is a `\r`, however the
/// output is cut into chunks.
pub proof fn law_trailing_cr_is_the_last_byte(
    trailing_cr: bool,
    a: Seq<u8>,
    last: u8,
    b: Seq<u8>,
)
    ensures
        ends_in_cr(trailing_cr, a.push(last)) <==> last == 13,
        ends_in_cr(trailing_cr, Seq::<u8>::empty()) == trailing_cr,
        ends_in_cr(trailing_cr, a + b) == ends_in_cr(ends_in_cr(trailing_cr, a), b),
{
    assert(a.push(last).last() == last);
    if b.len() > 0 {
        assert((a + b).last() == b.last());
    } else {
        assert(a + b == a);
    }
}

} // verus!
