//! Clock readings as plain numbers.

use std::time::{Duration, Instant, SystemTime, SystemTimeError};
use vstd::prelude::*;

verus! {

/// A reading of the monotonic clock.
#[verifier::external_type_specification]
#[verifier::external_body]
pub struct ExInstant(std::time::Instant);

/// A reading of the system clock.
#[verifier::external_type_specification]
#[verifier::external_body]
pub struct ExSystemTime(std::time::SystemTime);

/// The error of a system-clock reading that lies before another one.
#[verifier::external_type_specification]
#[verifier::external_body]
pub struct ExSystemTimeError(std::time::SystemTimeError);

/// The nanoseconds that a duration holds.
pub uninterp spec fn nanos_of(d: Duration) -> u128;

/// The nanoseconds from one reading of the monotonic clock to a later one, 0 when it is not later.
pub uninterp spec fn nanos_between(later: Instant, earlier: Instant) -> u128;

/// The nanoseconds from the Unix epoch to a reading of the system clock, nothing when the reading
/// lies before the epoch.
pub uninterp spec fn nanos_since_epoch(t: SystemTime) -> Option<u128>;

/// Trusted: `Duration::as_nanos` is the number of nanoseconds that the duration holds.
pub assume_specification[ Duration::as_nanos ](d: &Duration) -> (n: u128)
    ensures
        n == nanos_of(*d),
;

/// Trusted: `Duration::as_secs` is the number of whole seconds that the duration holds.
pub assume_specification[ Duration::as_secs ](d: &Duration) -> (n: u64)
    ensures
        n == nanos_of(*d) / 1_000_000_000,
;

/// Trusted: `Instant::now` reads the monotonic clock. Which reading comes out depends on the time.
pub assume_specification[ Instant::now ]() -> (t: Instant)
;

/// Trusted: `Instant::duration_since` is the time between two readings, zero when the second is
/// the later one.
pub assume_specification[ Instant::duration_since ](t: &Instant, earlier: Instant) -> (d: Duration)
    ensures
        nanos_of(d) == nanos_between(*t, earlier),
;

/// Trusted: `SystemTime::now` reads the system clock. Which reading comes out depends on the time.
pub assume_specification[ SystemTime::now ]() -> (t: SystemTime)
;

/// Trusted: `SystemTime::duration_since` with the Unix epoch is the time from the epoch to the
/// reading, and an error when the reading lies before the epoch.
#[verifier::external_body]
fn since_epoch(t: &SystemTime) -> (r: Result<Duration, SystemTimeError>)
    ensures
        r is Ok <==> nanos_since_epoch(*t) is Some,
        r matches Ok(d) ==> nanos_since_epoch(*t) == Some(nanos_of(d)),
{
    t.duration_since(std::time::UNIX_EPOCH)
}

/// The whole seconds from the Unix epoch, 0 for a clock that is set before it.
pub open spec fn unix_secs(nanos: Option<u128>) -> int {
    match nanos {
        Some(n) => n as int / 1_000_000_000,
        None => 0,
    }
}

/// A reading of the system clock as Unix time in seconds.
pub fn secs_of(t: &SystemTime) -> (r: u64)
    ensures
        r == unix_secs(nanos_since_epoch(*t)),
{
    match since_epoch(t) {
        Ok(d) => d.as_secs(),
        Err(_) => 0,
    }
}

/// Current Unix time in seconds.
pub fn now_secs() -> (r: u64)
    ensures
        exists|t: SystemTime| is_system_reading(t) && r == unix_secs(#[trigger] nanos_since_epoch(t)),
{
    let t = SystemTime::now();
    secs_of(&t)
}

/// `t` came out of a reading of the monotonic clock.
pub open spec fn is_reading(t: Instant) -> bool {
    call_ensures(Instant::now, (), t)
}

/// `t` came out of a reading of the system clock.
pub open spec fn is_system_reading(t: SystemTime) -> bool {
    call_ensures(SystemTime::now, (), t)
}

/// Nanoseconds of the monotonic clock since `origin`.
pub fn now_nanos(origin: &Instant) -> (r: u128)
    ensures
        exists|t: Instant| is_reading(t) && r == #[trigger] nanos_between(t, *origin),
{
    let t = Instant::now();
    t.duration_since(*origin).as_nanos()
}

/// The later one of two times.
pub open spec fn later_of(a: u128, b: u128) -> u128 {
    if a < b {
        b
    } else {
        a
    }
}

/// `now` is the time of a reading that was taken of the monotonic clock, counted from `origin`, or
/// `least` when that is later.
pub open spec fn read_after(now: u128, origin: Instant, least: u128) -> bool {
    exists|t: Instant|
        is_reading(t) && now == later_of(#[trigger] nanos_between(t, origin), least)
}

/// The monotonic clock, as one owner reads it.
pub struct Clock {
    /// The reading from which the others are counted.
    origin: Instant,
    /// The latest reading.
    latest: Instant,
}

impl Clock {
    /// The reading from which the others are counted.
    pub closed spec fn origin(&self) -> Instant {
        self.origin
    }

    /// The latest reading in nanoseconds.
    pub closed spec fn reading(&self) -> u128 {
        nanos_between(self.latest, self.origin)
    }

    /// Start counting time.
    pub fn start() -> (r: Self)
        ensures
            is_reading(r.origin()),
            r.reading() == nanos_between(r.origin(), r.origin()),
    {
        let t = Instant::now();
        Clock { origin: t, latest: t }
    }

    /// Read the clock. A reading that is earlier than the latest one gives way to it.
    fn latest_now(&self) -> (t: Instant)
        ensures
            read_after(nanos_between(t, self.origin()), self.origin(), self.reading()),
    {
        let t = Instant::now();
        assert(is_reading(t));
        if t.duration_since(self.origin).as_nanos() < self.latest.duration_since(
            self.origin,
        ).as_nanos() {
            self.latest
        } else {
            t
        }
    }

    /// The time now, which is not earlier than any reading taken before.
    pub fn now(&self) -> (r: u128)
        ensures
            read_after(r, self.origin(), self.reading()),
            exists|t: Instant| r == #[trigger] nanos_between(t, self.origin()),
    {
        let t = self.latest_now();
        t.duration_since(self.origin).as_nanos()
    }

    /// Take a reading, which is not earlier than any reading taken before.
    pub fn read(&mut self) -> (r: u128)
        ensures
            final(self).origin() == old(self).origin(),
            r == final(self).reading(),
            read_after(r, old(self).origin(), old(self).reading()),
            exists|t: Instant| r == #[trigger] nanos_between(t, old(self).origin()),
    {
        let t = self.latest_now();
        self.latest = t;
        t.duration_since(self.origin).as_nanos()
    }
}

/// A time that was read is what `Instant::now` returned, unless that is earlier than a time that was
/// read before, and it is never earlier than one.
pub proof fn law_time_does_not_go_back(now: u128, origin: Instant, least: u128)
    requires
        read_after(now, origin, least),
    ensures
        now >= least,
        exists|t: Instant|
            {
                &&& call_ensures(Instant::now, (), t)
                &&& now >= #[trigger] nanos_between(t, origin)
                &&& now > nanos_between(t, origin) ==> now == least
            },
{
}

/// A reading of the system clock is what `SystemTime::now` returned.
pub proof fn law_system_readings_are_returned(t: SystemTime)
    ensures
        is_system_reading(t) <==> call_ensures(SystemTime::now, (), t),
{
}

/// Unix time counts the seconds that have passed in full, and a clock that is set before the epoch
/// reads 0.
pub proof fn law_unix_time_counts_whole_seconds(nanos: u128)
    ensures
        unix_secs(Some(nanos)) * 1_000_000_000 <= nanos < (unix_secs(Some(nanos)) + 1)
            * 1_000_000_000,
        unix_secs(None) == 0,
{
}

} // verus!
