//! Wall-clock types and readings.
//!
//! Timestamps are carried opaquely; only the readings below inspect them.

use vstd::prelude::*;

verus! {

/// `std::time::SystemTime`, carried as an opaque value.
#[verifier::external_type_specification]
#[verifier::external_body]
pub struct ExSystemTime(std::time::SystemTime);

/// `Clone` of `SystemTime`, a `Copy` type: the clone is the same instant.
pub assume_specification[ <std::time::SystemTime as Clone>::clone ](t: &std::time::SystemTime) -> (r: std::time::SystemTime)
    ensures
        r == *t,
;

/// `Clone` of `Duration`, a `Copy` type: the clone is the same span.
pub assume_specification[ <std::time::Duration as Clone>::clone ](d: &std::time::Duration) -> (r: std::time::Duration)
    ensures
        r == *d,
;

/// `SystemTime::now`. Nothing is promised of the reading.
#[verifier::external_body]
fn system_now() -> std::time::SystemTime {
    std::time::SystemTime::now()
}

/// `SystemTime::duration_since(UNIX_EPOCH)`, `None` for an instant before the
/// epoch. Nothing is promised of the span.
#[verifier::external_body]
fn since_unix_epoch(t: &std::time::SystemTime) -> Option<std::time::Duration> {
    t.duration_since(std::time::UNIX_EPOCH).ok()
}

/// `UNIX_EPOCH.duration_since(t)`: how far `t` lies before the epoch, `None`
/// for an instant after it. Nothing is promised of the span.
#[verifier::external_body]
fn until_unix_epoch(t: &std::time::SystemTime) -> Option<std::time::Duration> {
    std::time::UNIX_EPOCH.duration_since(*t).ok()
}

/// `Duration::as_millis`. Nothing is promised of the count.
#[verifier::external_body]
fn whole_millis(d: &std::time::Duration) -> u128 {
    d.as_millis()
}

/// `Duration::as_secs`. Nothing is promised of the count.
#[verifier::external_body]
fn whole_secs(d: &std::time::Duration) -> u64 {
    d.as_secs()
}

/// `Duration::subsec_nanos`: the nanoseconds past the whole seconds, which the
/// documentation promises to be under one billion.
#[verifier::external_body]
fn subsec_nanos(d: &std::time::Duration) -> (n: u32)
    ensures
        n < 1_000_000_000,
{
    d.subsec_nanos()
}

/// A reading in milliseconds since the Unix epoch, zero for a clock that read
/// before the epoch (`None`).
pub fn millis_or_zero(elapsed: Option<u128>) -> (ms: u128)
    ensures
        ms == match elapsed {
            Some(m) => m,
            None => 0,
        },
{
    match elapsed {
        Some(m) => m,
        None => 0,
    }
}

/// Milliseconds since the Unix epoch on the system clock; zero when the clock
/// reads before the epoch.
pub(crate) fn now_epoch_ms() -> u128 {
    let now = system_now();
    let elapsed = match since_unix_epoch(&now) {
        Some(d) => Some(whole_millis(&d)),
        None => None,
    };
    millis_or_zero(elapsed)
}

/// A UTC instant as whole seconds since the Unix epoch and the nanoseconds past
/// that second; instants order lexicographically.
pub type Stamp = (i64, u32);

/// `a` is strictly earlier than `b`.
pub open spec fn earlier(a: Stamp, b: Stamp) -> bool {
    a.0 < b.0 || (a.0 == b.0 && a.1 < b.1)
}

/// Exec form of `earlier`.
pub fn is_earlier(a: Stamp, b: Stamp) -> (r: bool)
    ensures
        r == earlier(a, b),
{
    a.0 < b.0 || (a.0 == b.0 && a.1 < b.1)
}

/// Nanoseconds in a second.
pub const NANOS_PER_SEC: u32 = 1_000_000_000u32;

/// The instant `(secs, nanos)` after the Unix epoch when `after`, before it
/// otherwise, in nanoseconds relative to the epoch.
pub open spec fn signed_nanos(after: bool, secs: u64, nanos: u32) -> int {
    if after {
        secs * 1_000_000_000 + nanos
    } else {
        -(secs * 1_000_000_000 + nanos)
    }
}

/// A stamp in nanoseconds relative to the epoch.
pub open spec fn stamp_nanos(s: Stamp) -> int {
    s.0 * 1_000_000_000 + s.1
}

/// The stamp of the instant `(secs, nanos)` after (or before) the Unix epoch:
/// whole seconds rounded down and the nanoseconds past them. `None` when the
/// seconds do not fit in an `i64`.
pub fn epoch_stamp(after: bool, secs: u64, nanos: u32) -> (r: Option<Stamp>)
    requires
        nanos < NANOS_PER_SEC,
    ensures
        match r {
            Some(s) => s.1 < NANOS_PER_SEC && stamp_nanos(s) == signed_nanos(after, secs, nanos),
            None => secs > i64::MAX,
        },
{
    if secs > 0x7fff_ffff_ffff_ffffu64 {
        return None;
    }
    let s: i64 = secs as i64;
    if after {
        Some((s, nanos))
    } else if nanos == 0 {
        Some((-s, 0))
    } else {
        Some((-s - 1, NANOS_PER_SEC - nanos))
    }
}

/// `chrono::DateTime::<Utc>::from_timestamp`, read back as seconds and
/// nanoseconds: the same instant, or `None` when it lies outside the range of
/// dates chrono represents. Where that range ends is not stated.
#[verifier::external_body]
fn utc_instant(secs: i64, nanos: u32) -> (r: Option<Stamp>)
    requires
        nanos < NANOS_PER_SEC,
    ensures
        r matches Some(s) ==> s == (secs, nanos),
{
    match chrono::DateTime::from_timestamp(secs, nanos) {
        Some(t) => Some((t.timestamp(), t.timestamp_subsec_nanos())),
        None => None,
    }
}

/// The system clock as a UTC instant; `None` when it reads outside the range of
/// dates chrono represents. Nothing else is promised of the reading.
pub(crate) fn utc_now() -> (r: Option<Stamp>)
    ensures
        r matches Some(s) ==> s.1 < NANOS_PER_SEC,
{
    let now = system_now();
    let offset = match since_unix_epoch(&now) {
        Some(d) => epoch_stamp(true, whole_secs(&d), subsec_nanos(&d)),
        None => match until_unix_epoch(&now) {
            Some(d) => epoch_stamp(false, whole_secs(&d), subsec_nanos(&d)),
            None => None,
        },
    };
    match offset {
        Some(s) => utc_instant(s.0, s.1),
        None => None,
    }
}

/// `minutes` before `at`; with a negative count, after it.
pub open spec fn minutes_before(at: Stamp, minutes: i64) -> (int, u32) {
    (at.0 - 60 * minutes, at.1)
}

/// The instant `minutes` before `at`, when chrono represents it (see
/// `utc_instant`); `None` otherwise.
pub(crate) fn utc_minutes_before(at: Stamp, minutes: i64) -> (r: Option<Stamp>)
    requires
        at.1 < NANOS_PER_SEC,
    ensures
        r matches Some(c) ==> c.0 == minutes_before(at, minutes).0 && c.1 == at.1,
{
    let secs: i128 = (at.0 as i128) - 60 * (minutes as i128);
    if secs < -0x8000_0000_0000_0000i128 || secs > 0x7fff_ffff_ffff_ffffi128 {
        return None;
    }
    utc_instant(secs as i64, at.1)
}

} // verus!
