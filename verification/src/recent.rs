//! Recognition of bytes that were read twice.

use std::collections::VecDeque;
use vstd::prelude::*;
use vstd::slice::slice_subrange;

verus! {

/// How long a forwarded byte is remembered: 50 milliseconds.
pub const DUPLICATE_READ_WINDOW_NANOS: u128 = 50_000_000;

/// The fewest bytes that count as a repetition. A single repeated byte is ordinary output: a run
/// of spaces or zeros in a table.
pub const MIN_DEDUP_MATCH: usize = 2;

/// A forwarded byte and when it was read, in nanoseconds on the event loop's clock.
pub type Stamped = (u8, u128);

/// Whether a byte read at `at` is too old at `now` to be remembered.
pub open spec fn expired(at: u128, now: u128) -> bool {
    now - at >= DUPLICATE_READ_WINDOW_NANOS
}

/// What is left of `entries` once the expired ones at its front are gone.
pub open spec fn live(entries: Seq<Stamped>, now: u128) -> Seq<Stamped>
    decreases entries.len(),
{
    if entries.len() > 0 && expired(entries[0].1, now) {
        live(entries.skip(1), now)
    } else {
        entries
    }
}

/// The bytes of `entries`, without their times.
pub open spec fn bytes_of(entries: Seq<Stamped>) -> Seq<u8> {
    Seq::new(entries.len(), |i: int| entries[i].0)
}

/// `bytes`, all read at `now`.
pub open spec fn stamped(bytes: Seq<u8>, now: u128) -> Seq<Stamped> {
    Seq::new(bytes.len(), |i: int| (bytes[i], now))
}

/// Whether the first `n` bytes of `current` repeat the last `n` of `recent`, with `n` large enough
/// to count.
pub open spec fn repeats(recent: Seq<u8>, current: Seq<u8>, n: int) -> bool {
    &&& MIN_DEDUP_MATCH <= n <= current.len()
    &&& n <= recent.len()
    &&& recent.skip(recent.len() - n) == current.take(n)
}

/// Whether `n` is the greatest length at which `current` repeats the end of `recent`.
pub open spec fn longest_repeat(recent: Seq<u8>, current: Seq<u8>, n: int) -> bool {
    repeats(recent, current, n) && forall|m: int| repeats(recent, current, m) ==> m <= n
}

/// How many leading bytes of `current` repeat the end of `recent`: as many as possible, or none.
pub open spec fn repeated_len(recent: Seq<u8>, current: Seq<u8>) -> int {
    if exists|n: int| longest_repeat(recent, current, n) {
        choose|n: int| longest_repeat(recent, current, n)
    } else {
        0
    }
}

/// Whether `current` stands in `recent` at position `i`.
pub open spec fn stands_at(recent: Seq<u8>, current: Seq<u8>, i: int) -> bool {
    &&& 0 <= i
    &&& i + current.len() <= recent.len()
    &&& recent.subrange(i, i + current.len()) == current
}

/// Whether `current` is long enough to count and stands anywhere in `recent`.
pub open spec fn recurs(recent: Seq<u8>, current: Seq<u8>) -> bool {
    current.len() >= MIN_DEDUP_MATCH && exists|i: int| stands_at(recent, current, i)
}

/// What is new of `current`: nothing where all of it recurs in `recent`, else what is left once its
/// repetition of the end of `recent` is stripped.
pub open spec fn fresh(recent: Seq<u8>, current: Seq<u8>) -> Seq<u8> {
    if recurs(recent, current) {
        Seq::empty()
    } else {
        current.skip(repeated_len(recent, current))
    }
}

/// The part of `current` that is forwarded when it is read at `now`.
pub open spec fn forwarded(entries: Seq<Stamped>, current: Seq<u8>, now: u128) -> Seq<u8> {
    fresh(bytes_of(live(entries, now)), current)
}

/// What is remembered once `current` was read at `now`.
pub open spec fn remembered(entries: Seq<Stamped>, current: Seq<u8>, now: u128) -> Seq<Stamped> {
    live(entries, now) + stamped(forwarded(entries, current, now), now)
}

/// A rolling window of the bytes that were most recently forwarded downstream, each with the time
/// at which it was read.
///
/// A pseudoterminal may hand out the same bytes twice within a few milliseconds, alone or fused
/// onto bytes that are new. A second copy that comes alone is recognised wherever in this window the
/// first one stands, since unrelated bytes may have been forwarded in between; one that is fused onto
/// new bytes is recognised as a repetition of the window's end.
pub struct RecentOutput {
    entries: VecDeque<Stamped>,
}

impl View for RecentOutput {
    type V = Seq<Stamped>;

    closed spec fn view(&self) -> Seq<Stamped> {
        self.entries@
    }
}

impl RecentOutput {
    /// A window that remembers nothing.
    pub fn new() -> (recent: Self)
        ensures
            recent@ == Seq::<Stamped>::empty(),
    {
        RecentOutput { entries: VecDeque::new() }
    }

    /// Forgets what was read too long before `now`.
    fn expire(&mut self, now: u128)
        ensures
            final(self)@ == live(old(self)@, now),
    {
        while self.entries.len() > 0 && now.saturating_sub(self.entries[0].1)
            >= DUPLICATE_READ_WINDOW_NANOS
            invariant
                live(self.entries@, now) == live(old(self).entries@, now),
            decreases self.entries@.len(),
        {
            assert(expired(self.entries@[0].1, now));
            let ghost before = self.entries@;
            let _ = self.entries.pop_front();
            assert(self.entries@ == before.skip(1));
        }
    }

    /// The remembered bytes, oldest first.
    fn bytes(&self) -> (bytes: Vec<u8>)
        ensures
            bytes@ == bytes_of(self@),
    {
        let mut bytes: Vec<u8> = Vec::with_capacity(self.entries.len());
        let mut i: usize = 0;
        while i < self.entries.len()
            invariant
                i <= self.entries@.len(),
                bytes@ == bytes_of(self.entries@).take(i as int),
            decreases self.entries@.len() - i,
        {
            bytes.push(self.entries[i].0);
            i = i + 1;
        }
        assert(bytes_of(self.entries@).take(i as int) == bytes_of(self.entries@));
        bytes
    }

    /// Takes in `current`, read at `now`, and returns the part of it to forward: nothing where all of
    /// it was forwarded within the window before, else all but the longest prefix that repeats the
    /// end of what was.
    pub fn take_fresh(&mut self, current: &[u8], now: u128) -> (out: Vec<u8>)
        ensures
            out@ == forwarded(old(self)@, current@, now),
            final(self)@ == remembered(old(self)@, current@, now),
    {
        self.expire(now);
        let ghost entries = self@;
        let recent: Vec<u8> = self.bytes();
        let start: usize = if stands_in(recent.as_slice(), current) {
            current.len()
        } else {
            count_repeated(recent.as_slice(), current)
        };
        let mut out: Vec<u8> = Vec::with_capacity(current.len() - start);
        let mut i: usize = start;
        while i < current.len()
            invariant
                start <= i <= current@.len(),
                out@ == current@.subrange(start as int, i as int),
                self.entries@ == entries + stamped(out@, now),
            decreases current@.len() - i,
        {
            let byte: u8 = current[i];
            out.push(byte);
            self.entries.push_back((byte, now));
            i = i + 1;
            assert(self.entries@ == entries + stamped(out@, now));
        }
        assert(out@ == current@.skip(start as int));
        out
    }
}

/// Whether the first `n` bytes of `current` are the last `n` of `recent`.
fn ends_with_prefix(recent: &[u8], current: &[u8], n: usize) -> (yes: bool)
    requires
        n <= recent@.len(),
        n <= current@.len(),
    ensures
        yes == (recent@.skip(recent@.len() - n) == current@.take(n as int)),
{
    let offset: usize = recent.len() - n;
    let mut i: usize = 0;
    while i < n
        invariant
            offset + n == recent.len(),
            n <= current@.len(),
            i <= n,
            forall|j: int| 0 <= j < i ==> recent@[offset + j] == current@[j],
        decreases n - i,
    {
        if recent[offset + i] != current[i] {
            assert(recent@.skip(offset as int)[i as int] != current@.take(n as int)[i as int]);
            return false;
        }
        i = i + 1;
    }
    assert(recent@.skip(offset as int) == current@.take(n as int));
    true
}

/// Whether `current` is long enough to count and stands anywhere in `recent`.
fn stands_in(recent: &[u8], current: &[u8]) -> (yes: bool)
    ensures
        yes == recurs(recent@, current@),
{
    let n: usize = current.len();
    if n < MIN_DEDUP_MATCH || recent.len() < n {
        return false;
    }
    let last: usize = recent.len() - n;
    let mut i: usize = 0;
    loop
        invariant
            n == current@.len(),
            n >= MIN_DEDUP_MATCH,
            last + n == recent.len(),
            i <= last,
            forall|j: int| 0 <= j < i ==> !stands_at(recent@, current@, j),
        decreases last - i,
    {
        let part: &[u8] = slice_subrange(recent, i, i + n);
        if ends_with_prefix(part, current, n) {
            assert(part@.skip(0) == part@ && current@.take(n as int) == current@);
            assert(stands_at(recent@, current@, i as int));
            return true;
        }
        assert(!stands_at(recent@, current@, i as int)) by {
            assert(part@.skip(0) == part@ && current@.take(n as int) == current@);
        }
        if i == last {
            return false;
        }
        i = i + 1;
    }
}

/// The number of leading bytes of `current` that repeat the end of `recent`, longest match first.
fn count_repeated(recent: &[u8], current: &[u8]) -> (n: usize)
    ensures
        n == repeated_len(recent@, current@),
        n <= current@.len(),
{
    let mut n: usize = if current.len() < recent.len() {
        current.len()
    } else {
        recent.len()
    };
    while n >= MIN_DEDUP_MATCH
        invariant
            n <= current@.len(),
            n <= recent@.len(),
            forall|m: int| repeats(recent@, current@, m) ==> m <= n,
        decreases n,
    {
        if ends_with_prefix(recent, current, n) {
            assert(longest_repeat(recent@, current@, n as int));
            return n;
        }
        n = n - 1;
    }
    assert(forall|m: int| !repeats(recent@, current@, m));
    0
}

proof fn lemma_longest_exists(recent: Seq<u8>, current: Seq<u8>, n: int, bound: int)
    requires
        repeats(recent, current, n),
        bound >= n,
        forall|m: int| repeats(recent, current, m) ==> m <= bound,
    ensures
        exists|k: int| longest_repeat(recent, current, k),
    decreases bound,
{
    if repeats(recent, current, bound) {
        assert(longest_repeat(recent, current, bound));
    } else {
        lemma_longest_exists(recent, current, n, bound - 1);
    }
}

/// The stripped prefix is a repetition, no longer prefix is one, and without any repetition
/// nothing is stripped.
pub proof fn law_stripped_prefix_is_longest_repetition(recent: Seq<u8>, current: Seq<u8>)
    ensures
        repeated_len(recent, current) == 0 || repeats(
            recent,
            current,
            repeated_len(recent, current),
        ),
        forall|m: int| repeats(recent, current, m) ==> m <= repeated_len(recent, current),
        0 <= repeated_len(recent, current) <= current.len(),
        repeated_len(recent, current) != 1,
{
    if exists|m: int| repeats(recent, current, m) {
        let m = choose|m: int| repeats(recent, current, m);
        lemma_longest_exists(recent, current, m, current.len() as int);
    }
}

/// Only a prefix of a chunk is ever dropped, and never a single byte: what is forwarded is the
/// chunk's end.
pub proof fn law_only_a_prefix_is_dropped(entries: Seq<Stamped>, current: Seq<u8>, now: u128)
    ensures
        forwarded(entries, current, now).len() <= current.len(),
        forwarded(entries, current, now) == current.skip(
            current.len() - forwarded(entries, current, now).len(),
        ),
        current.len() - forwarded(entries, current, now).len() != 1,
{
    law_stripped_prefix_is_longest_repetition(bytes_of(live(entries, now)), current);
}

/// A chunk of one byte is always forwarded.
pub proof fn law_single_byte_is_never_dropped(entries: Seq<Stamped>, byte: u8, now: u128)
    ensures
        forwarded(entries, seq![byte], now) == seq![byte],
{
    law_stripped_prefix_is_longest_repetition(bytes_of(live(entries, now)), seq![byte]);
    assert(seq![byte].skip(0) == seq![byte]);
}

/// A chunk of at least two bytes that stands anywhere in what is remembered is dropped whole, and
/// leaves nothing behind.
pub proof fn law_whole_repetition_is_dropped(entries: Seq<Stamped>, current: Seq<u8>, now: u128)
    requires
        recurs(bytes_of(live(entries, now)), current),
    ensures
        forwarded(entries, current, now) == Seq::<u8>::empty(),
        remembered(entries, current, now) == live(entries, now),
{
    assert(remembered(entries, current, now) == live(entries, now));
}

/// Nothing else is dropped whole: a chunk of which nothing is forwarded stands in what is
/// remembered.
pub proof fn law_only_repetitions_are_dropped(entries: Seq<Stamped>, current: Seq<u8>, now: u128)
    requires
        current.len() > 0,
        forwarded(entries, current, now) == Seq::<u8>::empty(),
    ensures
        recurs(bytes_of(live(entries, now)), current),
{
    let recent = bytes_of(live(entries, now));
    if !recurs(recent, current) {
        law_stripped_prefix_is_longest_repetition(recent, current);
        let n = repeated_len(recent, current);
        assert(current.skip(n).len() == 0);
        assert(n == current.len());
        assert(current.take(n) == current);
        lemma_end_stands(recent, current);
    }
}

/// What stands at the end of `recent` stands in it.
proof fn lemma_end_stands(recent: Seq<u8>, current: Seq<u8>)
    requires
        current.len() <= recent.len(),
        recent.skip(recent.len() - current.len()) == current,
    ensures
        stands_at(recent, current, recent.len() - current.len()),
{
    let i = recent.len() - current.len();
    assert(recent.subrange(i, i + current.len()) == recent.skip(i));
}

/// Where a repetition is fused onto new bytes, the repetition goes and what is forwarded ends as
/// the new bytes do.
pub proof fn law_fused_repetition_is_stripped(
    entries: Seq<Stamped>,
    repetition: Seq<u8>,
    new: Seq<u8>,
    now: u128,
)
    requires
        repetition.len() >= MIN_DEDUP_MATCH,
        repetition.is_suffix_of(bytes_of(live(entries, now))),
    ensures
        forwarded(entries, repetition + new, now).is_suffix_of(new),
{
    let recent = bytes_of(live(entries, now));
    let current = repetition + new;
    assert(recent.skip(recent.len() - repetition.len()) == current.take(repetition.len() as int));
    assert(repeats(recent, current, repetition.len() as int));
    law_stripped_prefix_is_longest_repetition(recent, current);
    let out = forwarded(entries, current, now);
    assert(out == new.subrange(new.len() - out.len(), new.len() as int));
}

/// The times in `entries` do not decrease.
pub open spec fn in_order(entries: Seq<Stamped>) -> bool {
    forall|i: int, j: int| 0 <= i <= j < entries.len() ==> entries[i].1 <= entries[j].1
}

/// No time in `entries` is later than `now`.
pub open spec fn none_later(entries: Seq<Stamped>, now: u128) -> bool {
    forall|i: int| 0 <= i < entries.len() ==> (#[trigger] entries[i]).1 <= now
}

proof fn lemma_live_is_suffix(entries: Seq<Stamped>, now: u128)
    ensures
        live(entries, now).len() <= entries.len(),
        live(entries, now) == entries.skip(entries.len() - live(entries, now).len()),
        forall|i: int|
            0 <= i < entries.len() - live(entries, now).len() ==> expired(
                (#[trigger] entries[i]).1,
                now,
            ),
        live(entries, now).len() > 0 ==> !expired(live(entries, now)[0].1, now),
    decreases entries.len(),
{
    if entries.len() > 0 && expired(entries[0].1, now) {
        let rest = entries.skip(1);
        lemma_live_is_suffix(rest, now);
        let kept = live(rest, now);
        assert(kept == entries.skip(entries.len() - kept.len()));
        assert forall|i: int| 0 <= i < entries.len() - kept.len() implies expired(
            (#[trigger] entries[i]).1,
            now,
        ) by {
            if i > 0 {
                assert(entries[i] == rest[i - 1]);
            }
        }
    } else {
        assert(entries == entries.skip(0));
    }
}

/// What is still remembered at `now` is the end of what was remembered before.
pub proof fn law_live_is_end_of_window(entries: Seq<Stamped>, now: u128)
    ensures
        bytes_of(live(entries, now)).is_suffix_of(bytes_of(entries)),
{
    lemma_live_is_suffix(entries, now);
    let all = bytes_of(entries);
    let kept = bytes_of(live(entries, now));
    assert(kept == all.subrange(all.len() - kept.len(), all.len() as int));
}

/// On a clock that does not run backwards, what is remembered at `now` are exactly the forwarded
/// bytes that are younger than the window.
pub proof fn law_window_holds_what_is_young(entries: Seq<Stamped>, now: u128)
    requires
        in_order(entries),
    ensures
        live(entries, now) == entries.filter(|e: Stamped| !expired(e.1, now)),
{
    lemma_live_is_suffix(entries, now);
    lemma_filter_of_ordered(entries, now);
}

proof fn lemma_filter_of_ordered(entries: Seq<Stamped>, now: u128)
    requires
        in_order(entries),
    ensures
        entries.filter(|e: Stamped| !expired(e.1, now)) == live(entries, now),
    decreases entries.len(),
{
    let young = |e: Stamped| !expired(e.1, now);
    reveal(Seq::filter);
    if entries.len() > 0 {
        let rest = entries.drop_last();
        let last = entries.last();
        lemma_filter_of_ordered(rest, now);
        lemma_live_is_suffix(entries, now);
        lemma_live_is_suffix(rest, now);
        let kept = live(entries, now);
        let kept_rest = live(rest, now);
        if expired(last.1, now) {
            assert forall|i: int| 0 <= i < entries.len() implies expired(
                (#[trigger] entries[i]).1,
                now,
            ) by {
                assert(entries[i].1 <= entries[entries.len() - 1].1);
            }
            if kept_rest.len() > 0 {
                assert(kept_rest[0] == entries[rest.len() - kept_rest.len()]);
            }
            if kept.len() > 0 {
                assert(kept[0] == entries[entries.len() - kept.len()]);
            }
            assert(kept == kept_rest);
        } else {
            let first_rest = rest.len() - kept_rest.len();
            let first = entries.len() - kept.len();
            assert(kept.len() > 0) by {
                if kept.len() == 0 {
                    assert(expired(entries[entries.len() - 1].1, now));
                }
            }
            assert(kept[0] == entries[first]);
            assert(!expired(entries[first_rest].1, now)) by {
                if kept_rest.len() > 0 {
                    assert(kept_rest[0] == entries[first_rest]);
                }
            }
            if first < first_rest {
                assert(rest[first] == entries[first]);
            }
            assert(kept.len() == kept_rest.len() + 1);
            assert(kept == kept_rest.push(last));
        }
    }
}

/// On a clock that does not run backwards the window stays in order.
pub proof fn law_window_stays_in_order(entries: Seq<Stamped>, current: Seq<u8>, now: u128)
    requires
        in_order(entries),
        none_later(entries, now),
    ensures
        in_order(remembered(entries, current, now)),
        none_later(remembered(entries, current, now), now),
{
    lemma_live_is_suffix(entries, now);
    let kept = live(entries, now);
    let after = remembered(entries, current, now);
    assert forall|i: int| 0 <= i < kept.len() implies kept[i] == entries[entries.len() - kept.len()
        + i] by {}
    assert forall|i: int| 0 <= i < after.len() implies (#[trigger] after[i]).1 <= now by {
        if i < kept.len() {
            assert(after[i] == entries[entries.len() - kept.len() + i]);
        }
    }
    assert forall|i: int, j: int| 0 <= i <= j < after.len() implies after[i].1 <= after[j].1 by {
        if j < kept.len() {
            assert(after[i] == entries[entries.len() - kept.len() + i]);
            assert(after[j] == entries[entries.len() - kept.len() + j]);
        }
    }
}

/// Once the whole window has aged out, a chunk is forwarded whole, whatever it repeats.
pub proof fn law_old_output_is_forgotten(entries: Seq<Stamped>, current: Seq<u8>, now: u128)
    requires
        forall|i: int| 0 <= i < entries.len() ==> expired((#[trigger] entries[i]).1, now),
    ensures
        forwarded(entries, current, now) == current,
        remembered(entries, current, now) == stamped(current, now),
{
    lemma_live_is_suffix(entries, now);
    let kept = live(entries, now);
    if kept.len() > 0 {
        assert(kept[0] == entries[entries.len() - kept.len()]);
    }
    law_stripped_prefix_is_longest_repetition(bytes_of(kept), current);
    assert(current.skip(0) == current);
    assert(remembered(entries, current, now) == stamped(current, now));
}

proof fn lemma_live_keeps_young_end(entries: Seq<Stamped>, n: int, now: u128)
    requires
        0 <= n <= entries.len(),
        forall|i: int|
            entries.len() - n <= i < entries.len() ==> !expired((#[trigger] entries[i]).1, now),
    ensures
        n <= live(entries, now).len(),
        bytes_of(live(entries, now)).skip(live(entries, now).len() - n) == bytes_of(entries).skip(
            entries.len() - n,
        ),
{
    lemma_live_is_suffix(entries, now);
    let kept = live(entries, now);
    if kept.len() < n {
        let i = entries.len() - kept.len() - 1;
        assert(expired(entries[i].1, now));
    }
    assert(bytes_of(kept).skip(kept.len() - n) == bytes_of(entries).skip(entries.len() - n));
}

/// A chunk of at least two bytes that was forwarded whole and is read again within the window,
/// with nothing forwarded in between, is dropped.
pub proof fn law_second_read_is_dropped(
    entries: Seq<Stamped>,
    chunk: Seq<u8>,
    first: u128,
    second: u128,
)
    requires
        chunk.len() >= MIN_DEDUP_MATCH,
        forwarded(entries, chunk, first) == chunk,
        !expired(first, second),
    ensures
        forwarded(remembered(entries, chunk, first), chunk, second) == Seq::<u8>::empty(),
{
    let window = remembered(entries, chunk, first);
    let n = chunk.len() as int;
    lemma_live_keeps_young_end(window, n, second);
    let recent = bytes_of(live(window, second));
    assert(bytes_of(window).skip(window.len() - n) == chunk);
    lemma_end_stands(recent, chunk);
    law_whole_repetition_is_dropped(window, chunk, second);
}

/// A repetition may be of any part of what was forwarded, and unrelated bytes may come in between:
/// at least two bytes that stand anywhere in two chunks that were forwarded whole one after the
/// other are dropped when they are read again within the window.
pub proof fn law_later_repetition_is_dropped(
    entries: Seq<Stamped>,
    one: Seq<u8>,
    first: u128,
    two: Seq<u8>,
    second: u128,
    again: Seq<u8>,
    third: u128,
)
    requires
        recurs(one + two, again),
        forwarded(entries, one, first) == one,
        forwarded(remembered(entries, one, first), two, second) == two,
        !expired(first, second),
        !expired(first, third),
        !expired(second, third),
    ensures
        forwarded(
            remembered(remembered(entries, one, first), two, second),
            again,
            third,
        ) == Seq::<u8>::empty(),
{
    let window1 = remembered(entries, one, first);
    let kept1 = live(window1, second);
    let window2 = remembered(window1, two, second);
    let both = one + two;
    let n = both.len() as int;
    lemma_live_is_suffix(window1, second);
    lemma_live_keeps_young_end(window1, one.len() as int, second);
    assert forall|i: int| window2.len() - n <= i < window2.len() implies !expired(
        (#[trigger] window2[i]).1,
        third,
    ) by {
        if i < kept1.len() {
            assert(window2[i] == window1[window1.len() - kept1.len() + i]);
        }
    }
    lemma_live_keeps_young_end(window2, n, third);
    let recent = bytes_of(live(window2, third));
    assert(bytes_of(window2).skip(window2.len() - n) == both) by {
        assert(bytes_of(window1).skip(window1.len() - one.len()) == one);
        let tail = bytes_of(kept1).skip(kept1.len() - one.len());
        assert forall|i: int| 0 <= i < n implies bytes_of(window2)[window2.len() - n + i]
            == both[i] by {
            if i < one.len() {
                assert(tail[i] == one[i]);
            }
        }
    }
    let at = choose|i: int| stands_at(both, again, i);
    let place = recent.len() - n + at;
    assert(recent.skip(recent.len() - n) == both);
    assert(recent.subrange(place, place + again.len()) == again) by {
        assert forall|i: int| 0 <= i < again.len() implies recent[place + i] == again[i] by {
            assert(recent.skip(recent.len() - n)[at + i] == both[at + i]);
            assert(both.subrange(at, at + again.len())[i] == again[i]);
        }
    }
    assert(stands_at(recent, again, place));
    law_whole_repetition_is_dropped(window2, again, third);
}

/// A chunk and the time at which it was read.
pub type Arrival = (Seq<u8>, u128);

/// What is remembered once `arrivals` came in, in order.
pub open spec fn remembered_all(entries: Seq<Stamped>, arrivals: Seq<Arrival>) -> Seq<Stamped>
    decreases arrivals.len(),
{
    if arrivals.len() == 0 {
        entries
    } else {
        let before = remembered_all(entries, arrivals.drop_last());
        remembered(before, arrivals.last().0, arrivals.last().1)
    }
}

/// Everything that is forwarded of `arrivals`, in order.
pub open spec fn forwarded_all(entries: Seq<Stamped>, arrivals: Seq<Arrival>) -> Seq<u8>
    decreases arrivals.len(),
{
    if arrivals.len() == 0 {
        Seq::empty()
    } else {
        let before = remembered_all(entries, arrivals.drop_last());
        forwarded_all(entries, arrivals.drop_last()) + forwarded(
            before,
            arrivals.last().0,
            arrivals.last().1,
        )
    }
}

/// A window that is the end of what was ever forwarded stays so when a chunk comes in.
pub proof fn law_window_stays_end_of_forwarded(
    entries: Seq<Stamped>,
    sent: Seq<u8>,
    current: Seq<u8>,
    now: u128,
)
    requires
        bytes_of(entries).is_suffix_of(sent),
    ensures
        bytes_of(remembered(entries, current, now)).is_suffix_of(
            sent + forwarded(entries, current, now),
        ),
{
    lemma_live_is_suffix(entries, now);
    let kept = live(entries, now);
    let out = forwarded(entries, current, now);
    let after = bytes_of(remembered(entries, current, now));
    let all = sent + out;
    assert(bytes_of(entries) == sent.subrange(sent.len() - entries.len(), sent.len() as int));
    assert forall|i: int| 0 <= i < after.len() implies after[i] == all[all.len() - after.len()
        + i] by {
        if i < kept.len() {
            assert(kept[i] == entries[entries.len() - kept.len() + i]);
            assert(bytes_of(entries)[entries.len() - kept.len() + i] == sent[sent.len()
                - kept.len() + i]);
        }
    }
    assert(after == all.subrange(all.len() - after.len(), all.len() as int));
}

/// Whatever came in: the window is the end of what was ever forwarded.
pub proof fn law_window_is_end_of_forwarded(arrivals: Seq<Arrival>)
    ensures
        bytes_of(remembered_all(Seq::empty(), arrivals)).is_suffix_of(
            forwarded_all(Seq::empty(), arrivals),
        ),
    decreases arrivals.len(),
{
    if arrivals.len() > 0 {
        let rest = arrivals.drop_last();
        law_window_is_end_of_forwarded(rest);
        law_window_stays_end_of_forwarded(
            remembered_all(Seq::empty(), rest),
            forwarded_all(Seq::empty(), rest),
            arrivals.last().0,
            arrivals.last().1,
        );
    } else {
        assert(bytes_of(Seq::empty()) == Seq::<u8>::empty());
        assert(Seq::<u8>::empty() == Seq::<u8>::empty().subrange(0, 0));
    }
}

proof fn lemma_live_from(entries: Seq<Stamped>, now: u128, gone: int)
    requires
        0 <= gone <= entries.len(),
        forall|i: int| 0 <= i < gone ==> now - (#[trigger] entries[i]).1 >= 50_000_000,
        gone < entries.len() ==> now - entries[gone].1 < 50_000_000,
    ensures
        live(entries, now) == entries.skip(gone),
    decreases gone,
{
    if gone == 0 {
        assert(entries.skip(0) == entries);
    } else {
        let rest = entries.skip(1);
        assert(expired(entries[0].1, now));
        assert forall|i: int| 0 <= i < gone - 1 implies now - (#[trigger] rest[i]).1
            >= 50_000_000 by {
            assert(rest[i] == entries[i + 1]);
        }
        lemma_live_from(rest, now, gone - 1);
        assert(rest.skip(gone - 1) == entries.skip(gone));
    }
}

/// A chunk of which nothing is forwarded has at least two bytes and is, byte for byte, a contiguous
/// part of what was forwarded less than 50 milliseconds ago, where the first `gone` entries are
/// those that are older. The result says where it stands.
pub proof fn law_dropped_chunk_was_forwarded(
    entries: Seq<Stamped>,
    current: Seq<u8>,
    now: u128,
    gone: int,
) -> (place: int)
    requires
        0 <= gone <= entries.len(),
        forall|i: int| 0 <= i < gone ==> now - (#[trigger] entries[i]).1 >= 50_000_000,
        gone < entries.len() ==> now - entries[gone].1 < 50_000_000,
        current.len() > 0,
        forwarded(entries, current, now).len() == 0,
    ensures
        current.len() >= 2,
        gone <= place,
        place + current.len() <= entries.len(),
        forall|j: int| 0 <= j < current.len() ==> (#[trigger] current[j]) == entries[place + j].0,
{
    lemma_live_from(entries, now, gone);
    let recent = bytes_of(live(entries, now));
    assert(forwarded(entries, current, now) == Seq::<u8>::empty());
    law_only_repetitions_are_dropped(entries, current, now);
    let at = choose|i: int| stands_at(recent, current, i);
    assert forall|j: int| 0 <= j < current.len() implies (#[trigger] current[j]) == entries[gone
        + at + j].0 by {
        assert(recent.subrange(at, at + current.len())[j] == current[j]);
    }
    gone + at
}

/// The same, of the bytes that are remembered.
pub proof fn law_dropped_chunk_stands_in_window(
    entries: Seq<Stamped>,
    current: Seq<u8>,
    now: u128,
) -> (place: int)
    requires
        current.len() > 0,
        forwarded(entries, current, now) == Seq::<u8>::empty(),
    ensures
        0 <= place,
        place + current.len() <= bytes_of(live(entries, now)).len(),
        bytes_of(live(entries, now)).subrange(place, place + current.len()) == current,
{
    law_only_repetitions_are_dropped(entries, current, now);
    let recent = bytes_of(live(entries, now));
    choose|i: int| stands_at(recent, current, i)
}

/// At least two bytes that are, byte for byte, a contiguous part of what was forwarded less than 50
/// milliseconds ago are not forwarded again.
pub proof fn law_forwarded_chunk_is_not_repeated(
    entries: Seq<Stamped>,
    current: Seq<u8>,
    now: u128,
    gone: int,
    place: int,
)
    requires
        0 <= gone <= entries.len(),
        forall|i: int| 0 <= i < gone ==> now - (#[trigger] entries[i]).1 >= 50_000_000,
        gone < entries.len() ==> now - entries[gone].1 < 50_000_000,
        current.len() >= 2,
        gone <= place,
        place + current.len() <= entries.len(),
        forall|j: int| 0 <= j < current.len() ==> (#[trigger] current[j]) == entries[place + j].0,
    ensures
        forwarded(entries, current, now) == Seq::<u8>::empty(),
{
    lemma_live_from(entries, now, gone);
    let recent = bytes_of(live(entries, now));
    let at = place - gone;
    assert(recent.subrange(at, at + current.len()) == current);
    assert(stands_at(recent, current, at));
}

/// Where something of a chunk is forwarded, it is the chunk's end. What was stripped in front of it
/// is nothing, or at least two bytes that are, byte for byte, the last ones that were forwarded less
/// than 50 milliseconds ago.
pub proof fn law_stripped_bytes_were_forwarded_last(
    entries: Seq<Stamped>,
    current: Seq<u8>,
    now: u128,
    gone: int,
)
    requires
        0 <= gone <= entries.len(),
        forall|i: int| 0 <= i < gone ==> now - (#[trigger] entries[i]).1 >= 50_000_000,
        gone < entries.len() ==> now - entries[gone].1 < 50_000_000,
        forwarded(entries, current, now).len() > 0,
    ensures
        ({
            let out = forwarded(entries, current, now);
            let n = current.len() - out.len();
            &&& n >= 0
            &&& out == current.subrange(n, current.len() as int)
            &&& n == 0 || {
                &&& 2 <= n <= entries.len() - gone
                &&& forall|j: int|
                    0 <= j < n ==> (#[trigger] current[j]) == entries[entries.len() - n + j].0
            }
        }),
{
    lemma_live_from(entries, now, gone);
    let recent = bytes_of(live(entries, now));
    law_stripped_prefix_is_longest_repetition(recent, current);
    let out = forwarded(entries, current, now);
    let n = repeated_len(recent, current);
    assert(out == current.skip(n));
    assert(current.skip(n) == current.subrange(n, current.len() as int));
    assert(n == current.len() - out.len());
    if n != 0 {
        assert forall|j: int| 0 <= j < n implies (#[trigger] current[j]) == entries[entries.len() - n
            + j].0 by {
            assert(recent.skip(recent.len() - n)[j] == current.take(n)[j]);
        }
    }
}

/// No repetition of the end is left in front: where the first `m` bytes of a chunk, at least two, are
/// the last ones that were forwarded less than 50 milliseconds ago, none of them is forwarded.
pub proof fn law_repeated_prefix_is_stripped(
    entries: Seq<Stamped>,
    current: Seq<u8>,
    now: u128,
    gone: int,
    m: int,
)
    requires
        0 <= gone <= entries.len(),
        forall|i: int| 0 <= i < gone ==> now - (#[trigger] entries[i]).1 >= 50_000_000,
        gone < entries.len() ==> now - entries[gone].1 < 50_000_000,
        2 <= m <= current.len(),
        m <= entries.len() - gone,
        forall|j: int|
            0 <= j < m ==> (#[trigger] current[j]) == entries[entries.len() - m + j].0,
    ensures
        forwarded(entries, current, now).len() <= current.len() - m,
{
    lemma_live_from(entries, now, gone);
    let recent = bytes_of(live(entries, now));
    assert(recent.skip(recent.len() - m) == current.take(m));
    assert(repeats(recent, current, m));
    law_stripped_prefix_is_longest_repetition(recent, current);
}

/// The window keeps every byte that is less than 50 milliseconds old with its time, in order, and
/// takes in behind them what is forwarded, with the time at which it was read. Nothing else is in it.
pub proof fn law_window_is_what_was_forwarded_lately(
    entries: Seq<Stamped>,
    current: Seq<u8>,
    now: u128,
    gone: int,
)
    requires
        0 <= gone <= entries.len(),
        forall|i: int| 0 <= i < gone ==> now - (#[trigger] entries[i]).1 >= 50_000_000,
        gone < entries.len() ==> now - entries[gone].1 < 50_000_000,
    ensures
        ({
            let out = forwarded(entries, current, now);
            let after = remembered(entries, current, now);
            let kept = entries.len() - gone;
            &&& after.len() == kept + out.len()
            &&& after.take(kept) == entries.skip(gone)
            &&& forall|i: int| 0 <= i < out.len() ==> after[kept + i] == (#[trigger] out[i], now)
        }),
{
    lemma_live_from(entries, now, gone);
    let kept = entries.len() - gone;
    assert(remembered(entries, current, now).take(kept) == entries.skip(gone));
}

} // verus!
