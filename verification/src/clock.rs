//! Time, as the event loop keeps it.

use vstd::prelude::*;

verus! {

#[verifier::external_type_specification]
#[verifier::external_body]
pub struct ExInstant(std::time::Instant);

/// Calls `std::time::Instant::now`. What time it is depends on the machine, so nothing is claimed
/// of the result.
#[verifier::external_body]
fn instant_now() -> (now: std::time::Instant) {
    std::time::Instant::now()
}

/// The nanoseconds from `origin` to `at`, 0 where `at` came before it.
pub uninterp spec fn nanos_between(at: std::time::Instant, origin: std::time::Instant) -> u128;

/// Calls `std::time::Instant::saturating_duration_since` and gives the result in nanoseconds. It
/// depends on the two instants alone; an instant has no value that can be written down, so the
/// result is named and nothing more is claimed of it.
#[verifier::external_body]
fn nanos_after(at: std::time::Instant, origin: &std::time::Instant) -> (nanos: u128)
    ensures
        nanos == nanos_between(at, *origin),
{
    at.saturating_duration_since(*origin).as_nanos()
}

/// A clock that counts the nanoseconds since it was started.
pub struct Clock {
    origin: std::time::Instant,
}

impl Clock {
    /// The instant at which the clock was started.
    pub closed spec fn started(&self) -> std::time::Instant {
        self.origin
    }

    /// What the clock shows at the instant `at`: the nanoseconds from its start to `at`, 0 where
    /// `at` came before it.
    pub closed spec fn shows(&self, at: std::time::Instant) -> u128 {
        nanos_between(at, self.origin)
    }

    /// Starts a clock. When that is depends on the machine, so nothing is claimed of the result.
    pub(crate) fn start() -> (clock: Clock) {
        Clock { origin: instant_now() }
    }

    /// What the clock shows now. Which instant that is depends on the machine.
    pub(crate) fn now(&self) -> (nanos: u128)
        ensures
            exists|instant: std::time::Instant| nanos == #[trigger] self.shows(instant),
    {
        let instant: std::time::Instant = instant_now();
        let nanos: u128 = nanos_after(instant, &self.origin);
        assert(nanos == self.shows(instant));
        nanos
    }

    /// What the clock shows at the instant `at`.
    pub(crate) fn at(&self, at: std::time::Instant) -> (nanos: u128)
        ensures
            nanos == self.shows(at),
    {
        nanos_after(at, &self.origin)
    }
}

/// The time from `now` until `deadline`, 0 where it has passed.
pub open spec fn time_left(deadline: Option<u128>, now: u128) -> Option<u128> {
    match deadline {
        Some(at) => Some(if at > now { (at - now) as u128 } else { 0 }),
        None => None,
    }
}

/// How long to wait at `now` so as to wake up at `deadline`: not at all where it has passed, and
/// without a limit where there is none.
pub fn wait_until(deadline: Option<u128>, now: u128) -> (wait: Option<u128>)
    ensures
        wait == time_left(deadline, now),
{
    match deadline {
        Some(at) => Some(at.saturating_sub(now)),
        None => None,
    }
}

/// Waiting out the time left until a deadline ends at the deadline, or at once where it has passed.
pub proof fn law_wait_ends_at_deadline(deadline: u128, now: u128)
    ensures
        ({
            let end = now + time_left(Some(deadline), now)->0;
            &&& end >= deadline
            &&& end == deadline || (end == now && now > deadline)
        }),
{
}

/// A wait has a limit exactly where there is a deadline. It is never too short to reach the deadline,
/// never goes beyond it, and is nothing once the deadline has passed.
pub proof fn law_wait_has_a_limit_where_there_is_a_deadline(deadline: u128, now: u128)
    ensures
        time_left(None, now) is None,
        time_left(Some(deadline), now) is Some,
        now <= deadline ==> now + time_left(Some(deadline), now)->0 == deadline,
        now >= deadline ==> time_left(Some(deadline), now) == Some(0u128),
{
}

/// What a clock shows is the nanoseconds since it was started.
pub proof fn law_clock_counts_from_its_start(clock: Clock, at: std::time::Instant)
    ensures
        clock.shows(at) == nanos_between(at, clock.started()),
{
}

} // verus!
