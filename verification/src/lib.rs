//! A small time-tracking core: frames of tracked time against named
//! projects, a store that keeps them free of overlaps, a filter engine
//! that selects frames by time range, project and tag, and a day
//! aggregator that buckets the selection per calendar day.

use vstd::prelude::*;

pub mod cli;
pub mod commands;
pub mod config;
pub mod display;
pub mod errors;
pub mod filter;
pub mod frame;
pub mod laws;
pub mod project;
pub mod store;
pub mod tags;
pub mod text;
pub mod time;

pub use errors::ConfigFault;
pub use errors::Error;
pub use frame::Frame;
pub use store::FramePatch;
pub use store::Store;
pub use time::TS_LIMIT;

verus! {

/// How long ago a timestamp lies, in the coarsest non-zero unit,
/// truncated toward zero; the CLI layer turns this into a phrase.
#[derive(Debug, Clone, PartialEq, Eq)]
pub enum Elapsed {
    Days(i64),
    Hours(i64),
    Minutes(i64),
    Seconds(i64),
    JustNow,
}

/// The elapsed value `ago` reports for a timestamp `then` seen at `now`.
pub open spec fn elapsed_spec(then: int, now: int) -> Elapsed {
    let d = now - then;
    if time::trunc_div(d, 86400) != 0 {
        Elapsed::Days(time::trunc_div(d, 86400) as i64)
    } else if time::trunc_div(d, 3600) != 0 {
        Elapsed::Hours(time::trunc_div(d, 3600) as i64)
    } else if time::trunc_div(d, 60) != 0 {
        Elapsed::Minutes(time::trunc_div(d, 60) as i64)
    } else if d != 0 {
        Elapsed::Seconds(d as i64)
    } else {
        Elapsed::JustNow
    }
}

/// How long ago `then` lies relative to `now`: whole days if at least a
/// day, else whole hours, minutes or seconds, else `JustNow`.
pub fn ago(then: i64, now: i64) -> (r: Elapsed)
    requires
        time::ts_in_range(then as int),
        time::ts_in_range(now as int),
    ensures
        r == elapsed_spec(then as int, now as int),
{
    let d: i64 = now - then;
    let days = time::trunc_div_i64(d, 86400);
    if days != 0 {
        return Elapsed::Days(days);
    }
    let hours = time::trunc_div_i64(d, 3600);
    if hours != 0 {
        return Elapsed::Hours(hours);
    }
    let minutes = time::trunc_div_i64(d, 60);
    if minutes != 0 {
        return Elapsed::Minutes(minutes);
    }
    if d != 0 {
        return Elapsed::Seconds(d);
    }
    Elapsed::JustNow
}

} // verus!
