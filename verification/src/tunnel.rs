//! How long to wait before the relay is dialled again.

use vstd::prelude::*;

verus! {

/// Declares `std::time::SystemTime`, a reading of the clock.
#[verifier::external_type_specification]
#[verifier::external_body]
pub struct ExSystemTime(std::time::SystemTime);

/// Declares `std::time::SystemTimeError`, for a reading before the epoch.
#[verifier::external_type_specification]
#[verifier::external_body]
pub struct ExSystemTimeError(std::time::SystemTimeError);

/// The nanoseconds in a duration.
pub uninterp spec fn nanos_in(d: std::time::Duration) -> nat;

/// The nanoseconds from the Unix epoch to a reading of the clock, below zero for
/// one before the epoch.
pub uninterp spec fn nanos_since_epoch(reading: std::time::SystemTime) -> int;

/// `SystemTime::now` reads the clock. Nothing is claimed of what it shows.
pub assume_specification[ std::time::SystemTime::now ]() -> std::time::SystemTime
;

/// `Duration::subsec_nanos` is the part of a duration below a second, in
/// nanoseconds.
pub assume_specification[ std::time::Duration::subsec_nanos ](d: &std::time::Duration) -> (r: u32)
    ensures
        r == nanos_in(*d) % 1_000_000_000,
;

/// `SystemTime::duration_since`, from the Unix epoch: how long after the epoch a
/// reading of the clock was taken, or an error for one before the epoch.
#[verifier::external_body]
fn since_epoch(reading: std::time::SystemTime) -> (r: Result<
    std::time::Duration,
    std::time::SystemTimeError,
>)
    ensures
        match r {
            Ok(d) => nanos_in(d) == nanos_since_epoch(reading),
            Err(_) => nanos_since_epoch(reading) < 0,
        },
{
    reading.duration_since(std::time::UNIX_EPOCH)
}

/// A time to wait: whole seconds, and milliseconds below a second.
#[derive(Clone, Copy, Debug, PartialEq, Eq, Structural)]
pub struct Wait {
    pub secs: u64,
    pub millis: u32,
}

impl Wait {
    /// The whole time in milliseconds.
    pub open spec fn total_ms(self) -> int {
        self.secs * 1000 + self.millis
    }

    pub fn as_secs(&self) -> (r: u64)
        ensures
            r == self.secs,
    {
        self.secs
    }

    pub fn subsec_millis(&self) -> (r: u32)
        ensures
            r == self.millis,
    {
        self.millis
    }
}

/// The longest wait, without its jitter, in seconds.
pub const CEILING_SECS: u64 = 30;

/// The seconds to wait after `attempt` failures in a row: doubled for each, up
/// to the ceiling.
pub open spec fn wait_secs(attempt: u32) -> nat {
    let doublings: nat = if attempt < 5 {
        attempt as nat
    } else {
        5
    };
    let doubled = vstd::arithmetic::power2::pow2(doublings);
    if doubled < CEILING_SECS {
        doubled
    } else {
        CEILING_SECS as nat
    }
}

/// The wait after `attempt` failures in a row, with `jitter_ms` on top.
pub fn backoff_with(attempt: u32, jitter_ms: u32) -> (r: Wait)
    ensures
        r.total_ms() == wait_secs(attempt) * 1000 + jitter_ms,
        r.millis < 1000,
{
    let doublings: u32 = if attempt < 5 {
        attempt
    } else {
        5
    };
    let doubled: u64 = crate::double::power(doublings);
    let seconds: u64 = if doubled < CEILING_SECS {
        doubled
    } else {
        CEILING_SECS
    };
    Wait { secs: seconds + (jitter_ms / 1000) as u64, millis: jitter_ms % 1000 }
}

/// The jitter that a reading of the clock's nanoseconds gives.
pub fn jitter_of(nanos: u32) -> (r: u32)
    ensures
        r == nanos % 1000,
{
    nanos % 1000
}

/// The jitter in a clock that shows `nanos` since the epoch; none, for one that
/// shows a time before it.
pub open spec fn jitter_in(nanos: int) -> u32 {
    if nanos < 0 {
        0
    } else {
        (nanos % 1000) as u32
    }
}

/// The jitter that a reading of the clock gives.
pub fn jitter_at(reading: std::time::SystemTime) -> (r: u32)
    ensures
        r == jitter_in(nanos_since_epoch(reading)),
{
    let nanos: u32 = match since_epoch(reading) {
        Ok(d) => d.subsec_nanos(),
        Err(_) => 0,
    };
    jitter_of(nanos)
}

/// Enough spread to break up a simultaneous reconnect, from the clock rather
/// than a dependency.
pub fn rand_ms() -> (r: u32)
    ensures
        r < 1000,
        exists|reading: std::time::SystemTime|
            r == jitter_in(#[trigger] nanos_since_epoch(reading)),
{
    let reading = std::time::SystemTime::now();
    let r: u32 = jitter_at(reading);
    assert(r == jitter_in(nanos_since_epoch(reading)));
    r
}

/// Grows to a ceiling, with jitter, so a whole fleet reconnects spread out.
pub fn backoff(attempt: u32) -> (r: Wait)
    ensures
        r.secs == wait_secs(attempt),
        r.millis < 1000,
        exists|reading: std::time::SystemTime|
            r.millis == jitter_in(#[trigger] nanos_since_epoch(reading)),
{
    backoff_with(attempt, rand_ms())
}

/// The wait never shrinks from one attempt to a later one, and it lies between a
/// second and the ceiling.
pub proof fn law_backoff_grows_to_a_ceiling(earlier: u32, later: u32)
    requires
        earlier <= later,
    ensures
        1 <= wait_secs(earlier) <= wait_secs(later) <= CEILING_SECS,
        later >= 5 ==> wait_secs(later) == CEILING_SECS,
        later < 5 ==> wait_secs(later) == vstd::arithmetic::power2::pow2(later as nat),
{
    vstd::arithmetic::power2::lemma2_to64();
    let a: nat = if earlier < 5 {
        earlier as nat
    } else {
        5
    };
    let b: nat = if later < 5 {
        later as nat
    } else {
        5
    };
    crate::double::lemma_power_grows(a, b);
    if later < 5 {
        crate::double::lemma_power_grows(b, 4);
    }
}

} // verus!
