//! Timestamps as the file system keeps them: whole seconds relative to the Unix epoch, and
//! nanoseconds.
//!
//! A timestamp before the epoch has a negative number of seconds, and its nanoseconds count
//! away from the epoch: `(-2, 5)` lies two seconds and five nanoseconds before it.
//!
//! The system is a Unix, where the clock has a resolution of one nanosecond.

use std::time::Duration;
use std::time::SystemTime;
use std::time::SystemTimeError;
use vstd::prelude::*;

verus! {

/// Nanoseconds in a second.
pub const NANOS_PER_SEC: u32 = 1_000_000_000;

/// A point in time on the system's clock, which counts nanoseconds on Unix.
#[verifier::external_type_specification]
#[verifier::external_body]
pub struct ExSystemTime(std::time::SystemTime);

/// What `SystemTime::duration_since` returns when the other point is the later one.
#[verifier::external_type_specification]
#[verifier::external_body]
pub struct ExSystemTimeError(std::time::SystemTimeError);

/// How many nanoseconds a point in time lies after the Unix epoch: negative before it.
pub uninterp spec fn epoch_offset(t: SystemTime) -> int;

/// How many nanoseconds a duration lasts, as `Duration::as_nanos` counts them.
pub uninterp spec fn span_nanos(d: Duration) -> nat;

/// How many nanoseconds the other point was later by, when `duration_since` failed.
pub uninterp spec fn lead_nanos(e: SystemTimeError) -> nat;

/// `SystemTime::now` reads the system's clock. Nothing is claimed of what it shows.
pub assume_specification[ SystemTime::now ]() -> (t: SystemTime)
;

/// `SystemTime::duration_since` measures how much later a point is than `earlier`; where
/// it is the other way round, the error holds by how much.
pub assume_specification[ SystemTime::duration_since ](
    t: &SystemTime,
    earlier: SystemTime,
) -> (r: Result<Duration, SystemTimeError>)
    ensures
        match r {
            Ok(d) => span_nanos(d) == epoch_offset(*t) - epoch_offset(earlier),
            Err(e) => lead_nanos(e) == epoch_offset(earlier) - epoch_offset(*t)
                && lead_nanos(e) > 0,
        },
;

/// `SystemTimeError::duration` is how far the second point lies ahead of the first.
pub assume_specification[ SystemTimeError::duration ](e: &SystemTimeError) -> (d: Duration)
    ensures
        span_nanos(d) == lead_nanos(*e),
;

/// `Duration::as_secs` counts the whole seconds of a duration.
pub assume_specification[ Duration::as_secs ](d: &Duration) -> (secs: u64)
    ensures
        secs == span_nanos(*d) / NANOS_PER_SEC as nat,
;

/// `Duration::subsec_nanos` counts the nanoseconds beyond the whole seconds of a duration.
pub assume_specification[ Duration::subsec_nanos ](d: &Duration) -> (nanos: u32)
    ensures
        nanos == span_nanos(*d) % NANOS_PER_SEC as nat,
;

/// `Duration::new` adds seconds and nanoseconds up; nanoseconds beyond a second carry over.
/// It panics where the carry does not fit.
pub assume_specification[ Duration::new ](secs: u64, nanos: u32) -> (d: Duration)
    requires
        secs + nanos / NANOS_PER_SEC <= u64::MAX,
    ensures
        span_nanos(d) == secs * NANOS_PER_SEC + nanos,
;

/// `SystemTime::checked_add` gives the point that lies `d` later, to the nanosecond, if that
/// can be represented as a `SystemTime`. Which points can is left to the system.
pub assume_specification[ SystemTime::checked_add ](t: &SystemTime, d: Duration) -> (r: Option<
    SystemTime,
>)
    ensures
        r matches Some(s) ==> epoch_offset(s) == epoch_offset(*t) + span_nanos(d),
        forall|s: SystemTime|
            #![trigger epoch_offset(s)]
            epoch_offset(s) == epoch_offset(*t) + span_nanos(d) ==> r is Some,
;

/// `SystemTime::checked_sub` gives the point that lies `d` earlier, to the nanosecond, if that
/// can be represented as a `SystemTime`. Which points can is left to the system.
pub assume_specification[ SystemTime::checked_sub ](t: &SystemTime, d: Duration) -> (r: Option<
    SystemTime,
>)
    ensures
        r matches Some(s) ==> epoch_offset(s) == epoch_offset(*t) - span_nanos(d),
        forall|s: SystemTime|
            #![trigger epoch_offset(s)]
            epoch_offset(s) == epoch_offset(*t) - span_nanos(d) ==> r is Some,
;

/// `std::time::UNIX_EPOCH` is the origin that offsets are counted from.
#[verifier::external_body]
fn unix_epoch() -> (t: SystemTime)
    ensures
        epoch_offset(t) == 0,
{
    std::time::UNIX_EPOCH
}

/// The offset from the epoch, in nanoseconds, that a timestamp stands for.
pub open spec fn offset_of_time(secs: i64, nsecs: u32) -> int {
    if secs >= 0 {
        secs * NANOS_PER_SEC + nsecs
    } else {
        secs * NANOS_PER_SEC - nsecs
    }
}

/// The timestamp that an offset from the epoch is written as: the whole seconds of its
/// size, with its sign, and the nanoseconds that are left.
///
/// Seconds are kept modulo 2^64, like every conversion between `u64` and `i64`.
pub open spec fn time_of_offset(offset: int) -> (i64, u32) {
    let size: int = if offset >= 0 {
        offset
    } else {
        -offset
    };
    let secs = (size / NANOS_PER_SEC as int) as u64 as i64;
    let nsecs = (size % NANOS_PER_SEC as int) as u32;
    if offset >= 0 || secs == i64::MIN {
        (secs, nsecs)
    } else {
        ((-secs) as i64, nsecs)
    }
}

/// The timestamp is that of a point in time that the system's clock has shown.
pub open spec fn is_clock_time(time: (i64, u32)) -> bool {
    exists|t: SystemTime| #[trigger]
        call_ensures(SystemTime::now, (), t) && time == time_of_offset(epoch_offset(t))
}

/// The timestamp of this moment: of the point in time that `SystemTime::now` gives.
pub fn time_now() -> (time: (i64, u32))
    ensures
        is_clock_time(time),
        time.1 < NANOS_PER_SEC,
{
    time_from_system_time(&SystemTime::now())
}

/// The point in time that a timestamp stands for: `None` where the system's clock cannot
/// represent it.
pub fn system_time_from_time(secs: i64, nsecs: u32) -> (t: Option<SystemTime>)
    requires
        secs > i64::MIN,
    ensures
        t matches Some(p) ==> epoch_offset(p) == offset_of_time(secs, nsecs),
        secs == 0 && nsecs == 0 ==> t is Some,
        forall|p: SystemTime|
            #![trigger epoch_offset(p)]
            epoch_offset(p) == offset_of_time(secs, nsecs) ==> t is Some,
        secs >= 0 ==> exists|e: SystemTime, d: Duration| #[trigger]
            call_ensures(SystemTime::checked_add, (&e, d), t) && epoch_offset(e) == 0
                && span_nanos(d) == offset_of_time(secs, nsecs),
        secs < 0 ==> exists|e: SystemTime, d: Duration| #[trigger]
            call_ensures(SystemTime::checked_sub, (&e, d), t) && epoch_offset(e) == 0
                && span_nanos(d) == -offset_of_time(secs, nsecs),
{
    if secs >= 0 {
        unix_epoch().checked_add(Duration::new(secs as u64, nsecs))
    } else {
        unix_epoch().checked_sub(Duration::new((-secs) as u64, nsecs))
    }
}

/// The timestamp of a point in time.
pub fn time_from_system_time(system_time: &SystemTime) -> (time: (i64, u32))
    ensures
        time == time_of_offset(epoch_offset(*system_time)),
        time.1 < NANOS_PER_SEC,
{
    match system_time.duration_since(unix_epoch()) {
        Ok(duration) => (duration.as_secs() as i64, duration.subsec_nanos()),
        Err(before_epoch_error) => {
            let duration = before_epoch_error.duration();
            let secs: i64 = duration.as_secs() as i64;
            if secs == i64::MIN {
                (secs, duration.subsec_nanos())
            } else {
                (-secs, duration.subsec_nanos())
            }
        },
    }
}

/// A timestamp survives the way to a point in time and back, where its nanoseconds are less
/// than a second.
pub proof fn lemma_time_round_trip(secs: i64, nsecs: u32)
    requires
        secs > i64::MIN,
        nsecs < NANOS_PER_SEC,
    ensures
        time_of_offset(offset_of_time(secs, nsecs)) == (secs, nsecs),
{
    let size: int = if secs >= 0 {
        secs as int
    } else {
        -(secs as int)
    };
    assert((size * 1_000_000_000 + nsecs) / 1_000_000_000 == size);
    assert((size * 1_000_000_000 + nsecs) % 1_000_000_000 == nsecs);
}

/// A point in time survives the way to a timestamp and back, where it does not lie less than
/// a second before the epoch: zero seconds have no sign.
pub proof fn lemma_offset_round_trip(offset: int)
    requires
        offset >= 0 || offset <= -NANOS_PER_SEC,
        -0x8000_0000_0000_0000 * NANOS_PER_SEC < offset < 0x8000_0000_0000_0000 * NANOS_PER_SEC,
    ensures
        ({
            let (secs, nsecs) = time_of_offset(offset);
            secs > i64::MIN && offset_of_time(secs, nsecs) == offset
        }),
{
}

/// A point in time that is turned into a timestamp and back is where it was. It lies less than
/// 2^63 seconds from the epoch, and not less than a second before it.
pub proof fn lemma_point_round_trip(
    point: SystemTime,
    time: (i64, u32),
    back: Option<SystemTime>,
)
    requires
        epoch_offset(point) >= 0 || epoch_offset(point) <= -NANOS_PER_SEC,
        -0x8000_0000_0000_0000 * NANOS_PER_SEC < epoch_offset(point) < 0x8000_0000_0000_0000
            * NANOS_PER_SEC,
        call_ensures(time_from_system_time, (&point,), time),
        call_ensures(system_time_from_time, time, back),
    ensures
        call_requires(system_time_from_time, time),
        time.1 < NANOS_PER_SEC,
        back matches Some(p) && epoch_offset(p) == epoch_offset(point),
{
    lemma_offset_round_trip(epoch_offset(point));
}

/// Where the point of a timestamp lies: as many seconds after the epoch as it says, and its
/// nanoseconds beyond them; or before it, where the seconds are negative.
pub proof fn lemma_point_of_time(secs: i64, nsecs: u32, t: Option<SystemTime>)
    requires
        call_ensures(system_time_from_time, (secs, nsecs), t),
        t is Some,
    ensures
        secs >= 0 ==> epoch_offset(t->0) == secs * 1_000_000_000 + nsecs,
        secs < 0 ==> epoch_offset(t->0) == secs * 1_000_000_000 - nsecs,
{
}

/// What the timestamp of a point says: how many whole seconds, and nanoseconds beyond them, it
/// lies from the epoch; the seconds are negative before it.
pub proof fn lemma_time_of_point(point: SystemTime, time: (i64, u32))
    requires
        call_ensures(time_from_system_time, (&point,), time),
        -0x8000_0000_0000_0000 * 1_000_000_000 < epoch_offset(point) < 0x8000_0000_0000_0000
            * 1_000_000_000,
    ensures
        0 <= time.1 < 1_000_000_000,
        epoch_offset(point) >= 0 ==> epoch_offset(point) == time.0 * 1_000_000_000 + time.1,
        epoch_offset(point) < 0 ==> epoch_offset(point) == time.0 * 1_000_000_000 - time.1,
{
    let offset = epoch_offset(point);
    let size = if offset >= 0 {
        offset
    } else {
        -offset
    };
    assert(size == (size / 1_000_000_000) * 1_000_000_000 + size % 1_000_000_000);
    assert(0 <= size / 1_000_000_000 < 0x8000_0000_0000_0000);
}

/// The time that is shown is that of a point that the clock gave.
pub proof fn lemma_time_shown(time: (i64, u32))
    requires
        call_ensures(time_now, (), time),
    ensures
        exists|t: SystemTime| #[trigger]
            call_ensures(SystemTime::now, (), t) && time == time_of_offset(epoch_offset(t)),
        is_clock_time(time),
        0 <= time.1 < 1_000_000_000,
{
}

/// A time of the clock is that of a point that a call of `SystemTime::now` gave.
pub proof fn lemma_clock_time(time: (i64, u32))
    requires
        is_clock_time(time),
    ensures
        exists|t: SystemTime| #[trigger]
            call_ensures(SystemTime::now, (), t) && time == time_of_offset(epoch_offset(t)),
        0 <= time.1 < 1_000_000_000,
{
}

} // verus!
