//! Time: durations and the two clocks of the machine.

use crate::text;
use vstd::prelude::*;

verus! {

/// A reading of the monotonic clock.
#[verifier::external_type_specification]
#[verifier::external_body]
pub struct ExInstant(std::time::Instant);

/// A reading of the wall clock.
#[verifier::external_type_specification]
#[verifier::external_body]
pub struct ExSystemTime(std::time::SystemTime);

/// Why one reading of the wall clock lies before another.
#[verifier::external_type_specification]
#[verifier::external_body]
pub struct ExSystemTimeError(std::time::SystemTimeError);

/// The length of a duration in nanoseconds.
pub uninterp spec fn duration_nanos(d: std::time::Duration) -> nat;

/// The longest duration: `u64::MAX` seconds and 999,999,999 nanoseconds.
pub open spec fn max_nanos() -> nat {
    18446744073709551615 * 1_000_000_000 + 999_999_999
}

/// `Duration::new` makes a duration of so many seconds and nanoseconds. It
/// panics where a carry from the nanoseconds overflows the seconds.
pub assume_specification[ std::time::Duration::new ](secs: u64, nanos: u32) -> (r:
    std::time::Duration)
    requires
        nanos < 1_000_000_000,
    ensures
        duration_nanos(r) == secs * 1_000_000_000 + nanos,
;

/// `Duration::from_secs` makes a duration of so many seconds.
pub assume_specification[ std::time::Duration::from_secs ](secs: u64) -> (r: std::time::Duration)
    ensures
        duration_nanos(r) == secs * 1_000_000_000,
;

/// `Duration::as_nanos` gives the whole length in nanoseconds.
pub assume_specification[ std::time::Duration::as_nanos ](d: &std::time::Duration) -> (r: u128)
    ensures
        r == duration_nanos(*d),
        r <= max_nanos(),
;

/// `Duration::as_millis` gives the length in whole milliseconds.
pub assume_specification[ std::time::Duration::as_millis ](d: &std::time::Duration) -> (r: u128)
    ensures
        r == duration_nanos(*d) / 1_000_000,
        r <= max_nanos() / 1_000_000,
;

/// `Instant::now` reads the monotonic clock; nothing is known of the reading.
pub assume_specification[ std::time::Instant::now ]() -> std::time::Instant
;

/// `t` was read from the monotonic clock: it came out of a call of
/// `Instant::now`.
pub open spec fn is_reading(t: std::time::Instant) -> bool {
    call_ensures(std::time::Instant::now, (), t)
}

/// The nanoseconds from one reading of the monotonic clock to another.
pub uninterp spec fn elapsed_nanos(
    later: std::time::Instant,
    earlier: std::time::Instant,
) -> nat;

/// `Instant::duration_since` gives the time from one reading to another, which
/// depends on the two readings alone.
pub assume_specification[ std::time::Instant::duration_since ](
    i: &std::time::Instant,
    earlier: std::time::Instant,
) -> (r: std::time::Duration)
    ensures
        duration_nanos(r) == elapsed_nanos(*i, earlier),
;

/// `SystemTime::now` reads the wall clock; nothing is known of the reading.
pub assume_specification[ std::time::SystemTime::now ]() -> std::time::SystemTime
;

/// `t` was read from the wall clock: it came out of a call of
/// `SystemTime::now`.
pub open spec fn is_wall_reading(t: std::time::SystemTime) -> bool {
    call_ensures(std::time::SystemTime::now, (), t)
}

/// The nanoseconds from the start of the Unix epoch to a reading of the wall
/// clock; none where the reading lies before it.
pub uninterp spec fn epoch_nanos(t: std::time::SystemTime) -> Option<nat>;

/// `SystemTime::duration_since` the start of the Unix epoch gives the time from
/// there to a reading, or an error where the reading lies before it. Both depend
/// on the reading alone.
#[verifier::external_body]
fn since_epoch(t: &std::time::SystemTime) -> (r: Result<
    std::time::Duration,
    std::time::SystemTimeError,
>)
    ensures
        match r {
            Ok(d) => epoch_nanos(*t) == Some(duration_nanos(d)),
            Err(_) => epoch_nanos(*t) is None,
        },
{
    t.duration_since(std::time::UNIX_EPOCH)
}

/// A duration of `nanos` nanoseconds.
pub fn duration_of(nanos: u128) -> (r: std::time::Duration)
    requires
        nanos <= max_nanos(),
    ensures
        duration_nanos(r) == nanos,
{
    std::time::Duration::new((nanos / 1_000_000_000) as u64, (nanos % 1_000_000_000) as u32)
}

/// So many nanoseconds lie between `start` and a reading of the monotonic clock.
pub open spec fn have_passed(start: std::time::Instant, nanos: u128) -> bool {
    exists|now: std::time::Instant|
        is_reading(now) && nanos == #[trigger] elapsed_nanos(now, start)
}

/// The nanoseconds that have passed since a reading of the monotonic clock.
pub fn nanos_since(start: std::time::Instant) -> (r: u128)
    ensures
        exists|now: std::time::Instant| r == #[trigger] elapsed_nanos(now, start),
        have_passed(start, r),
        r <= max_nanos(),
{
    let now = std::time::Instant::now();
    let passed: u128 = now.duration_since(start).as_nanos();
    proof {
        assert(is_reading(now));
        assert(passed == elapsed_nanos(now, start));
    }
    passed
}

/// A time since the start of the Unix epoch in whole milliseconds, as far as 64
/// bits hold them; zero for a time before it.
pub open spec fn wrapped_millis(nanos: Option<nat>) -> int {
    match nanos {
        Some(n) => (n / 1_000_000) as int % 18_446_744_073_709_551_616,
        None => 0,
    }
}

/// The wall clock was read at so many milliseconds since the start of the Unix
/// epoch.
pub open spec fn is_wall_millis(millis: u64) -> bool {
    exists|now: std::time::SystemTime|
        is_wall_reading(now) && millis == wrapped_millis(#[trigger] epoch_nanos(now))
}

/// Up to the range of 64 bits the milliseconds of a time are those that have
/// fully passed.
pub proof fn law_millis_are_whole_and_full(nanos: nat)
    requires
        nanos < 18_446_744_073_709_551_616 * 1_000_000,
    ensures
        ({
            let millis = wrapped_millis(Some(nanos));
            0 <= millis && millis * 1_000_000 <= nanos < (millis + 1) * 1_000_000
        }),
{
}

/// The milliseconds since the start of the Unix epoch; zero where the wall
/// clock lies before it. A time beyond the range of the result wraps round.
pub fn epoch_millis() -> (r: u64)
    ensures
        exists|now: std::time::SystemTime| r == wrapped_millis(#[trigger] epoch_nanos(now)),
        is_wall_millis(r),
{
    let now = std::time::SystemTime::now();
    let r: u64 = match since_epoch(&now) {
        Ok(d) => {
            let millis: u128 = d.as_millis();
            (millis % 18_446_744_073_709_551_616) as u64
        },
        Err(_) => 0,
    };
    proof {
        assert(is_wall_reading(now));
        assert(r == wrapped_millis(epoch_nanos(now)));
    }
    r
}

/// `chrono::Utc::now` in the form that `to_rfc3339` gives it, which ends with
/// the offset of UTC. The time itself is that of the machine.
#[verifier::external_body]
pub(crate) fn utc_timestamp() -> (r: String)
    ensures
        text::has_suffix(r@, "+00:00"@),
{
    chrono::Utc::now().to_rfc3339()
}

/// The text is the time of the machine, as it was read.
pub closed spec fn is_timestamp(s: Seq<char>) -> bool {
    exists|t: String| #[trigger] call_ensures(utc_timestamp, (), t) && t@ == s
}

/// The time of the machine as text.
pub(crate) fn timestamp() -> (r: String)
    ensures
        text::has_suffix(r@, "+00:00"@),
        is_timestamp(r@),
{
    utc_timestamp()
}

/// A moment in UTC: whole seconds since the start of the Unix epoch, and the
/// nanoseconds after those.
#[derive(Debug, Clone, Copy, PartialEq, Eq, Structural)]
pub struct Moment {
    pub secs: i64,
    pub nanos: u32,
}

/// The nanoseconds from the start of the Unix epoch to a moment.
pub open spec fn moment_nanos(m: Moment) -> int {
    m.secs * 1_000_000_000 + m.nanos
}

/// The nanoseconds from one moment to another.
pub fn nanos_between(from: Moment, to: Moment) -> (r: i128)
    ensures
        r == moment_nanos(to) - moment_nanos(from),
{
    (to.secs as i128 - from.secs as i128) * 1_000_000_000 + (to.nanos as i128 - from.nanos as i128)
}

/// `chrono::Utc::now` as seconds and nanoseconds. The time is that of the
/// machine; nothing is known of it.
#[verifier::external_body]
pub(crate) fn utc_now() -> Moment {
    let now = chrono::Utc::now();
    Moment { secs: now.timestamp(), nanos: now.timestamp_subsec_nanos() }
}

/// The moment is the time of the machine, as it was read.
pub closed spec fn is_moment_read(m: Moment) -> bool {
    call_ensures(utc_now, (), m)
}

/// The time of the machine.
pub(crate) fn moment() -> (r: Moment)
    ensures
        is_moment_read(r),
{
    utc_now()
}

} // verus!
