//! The figures of a session's report.

use vstd::prelude::*;

verus! {

/// A span of `secs` seconds as hours, minutes below 60 and seconds below 60.
pub fn elapsed_parts(secs: u64) -> (parts: (u64, u64, u64))
    ensures
        parts.0 == secs / 3600,
        parts.1 == secs % 3600 / 60,
        parts.2 == secs % 60,
        parts.0 * 3600 + parts.1 * 60 + parts.2 == secs,
{
    let hrs: u64 = secs / 3600;
    let rest: u64 = secs - hrs * 3600;
    let mins: u64 = rest / 60;
    (hrs, mins, rest - mins * 60)
}

/// How many of `count` events fall to each second of a span of `secs`
/// seconds, the second that has begun counted in.
pub fn per_second(count: usize, secs: u64) -> (rate: usize)
    requires
        secs < usize::MAX,
    ensures
        rate == count as int / (secs + 1),
{
    count / (secs as usize + 1)
}

} // verus!
