use vstd::prelude::*;

verus! {

/// Timestamps are seconds relative to 1970-01-01 00:00:00 of a naive
/// (timezone-less) calendar. Every datetime the chrono crate can
/// represent lies within `TS_LIMIT` seconds of that epoch, so the core
/// only ever works on timestamps in `[-TS_LIMIT, TS_LIMIT]`.
pub const TS_LIMIT: i64 = 8_640_000_000_000;

/// A timestamp the core accepts.
pub open spec fn ts_in_range(t: int) -> bool {
    -(TS_LIMIT as int) <= t <= TS_LIMIT as int
}

/// The calendar day a timestamp falls on, counted in days relative to
/// the epoch; days begin at midnight, so this is the floor of t / 86400.
pub open spec fn day_of(t: int) -> int {
    (t + TS_LIMIT as int) / 86400 - 100_000_000
}

/// Division truncated toward zero, as the `/` of the machine and the
/// whole-unit counts of a duration behave.
pub open spec fn trunc_div(a: int, b: int) -> int {
    if a >= 0 {
        a / b
    } else {
        -((-a) / b)
    }
}

/// The calendar day of a timestamp.
pub fn day_of_ts(t: i64) -> (d: i64)
    requires
        ts_in_range(t as int),
    ensures
        d as int == day_of(t as int),
{
    let shifted: u64 = (t + TS_LIMIT) as u64;
    let q: u64 = shifted / 86400;
    (q as i64) - 100_000_000
}

/// Relies on chrono::Local::now: the clock, read as a naive local
/// datetime, in seconds relative to the epoch. chrono cannot
/// represent a datetime farther than `TS_LIMIT` seconds from the
/// epoch, so the reading lies in that range; nothing else is assumed
/// of it.
#[verifier::external_body]
fn clock_seconds() -> (r: i64)
    ensures
        -TS_LIMIT <= r <= TS_LIMIT,
{
    chrono::Local::now().naive_local().and_utc().timestamp()
}

/// The clock's reading, as a timestamp the core accepts.
pub fn current_timestamp() -> (r: i64)
    ensures
        ts_in_range(r as int),
{
    clock_seconds()
}

/// Division of a bounded timestamp difference by a positive constant,
/// truncated toward zero.
pub fn trunc_div_i64(a: i64, b: i64) -> (q: i64)
    requires
        0 < b,
        -2 * (TS_LIMIT as int) <= a <= 2 * (TS_LIMIT as int),
    ensures
        q as int == trunc_div(a as int, b as int),
{
    if a >= 0 {
        (((a as u64) / (b as u64)) as i64)
    } else {
        let m: u64 = (-a) as u64;
        -(((m / (b as u64))) as i64)
    }
}

} // verus!
