//! Settings of the engines: defaults and limits.
use vstd::prelude::*;

verus! {

/// The number within the limits that is nearest to `n`.
pub open spec fn nearest(n: int, low: int, high: int) -> int {
    if n < low {
        low
    } else if n > high {
        high
    } else {
        n
    }
}

/// What a count comes to: the default where nothing is given, otherwise the
/// nearest number within the limits.
pub open spec fn count_setting(given: Option<u32>, default: u32, low: u32, high: u32) -> u32 {
    match given {
        Some(n) => nearest(n as int, low as int, high as int) as u32,
        None => default,
    }
}

/// What a count comes to.
pub(crate) fn limit_count(given: Option<u32>, default: u32, low: u32, high: u32) -> (res: u32)
    requires
        low <= default <= high,
    ensures
        res == count_setting(given, default, low, high),
        low <= res <= high,
{
    match given {
        Some(n) => if n < low {
            low
        } else if n > high {
            high
        } else {
            n
        },
        None => default,
    }
}

/// What a beam width comes to: 64 where nothing is given, and from 1 to 100000.
pub open spec fn width_setting(given: Option<usize>) -> usize {
    match given {
        Some(n) => nearest(n as int, 1, 100_000) as usize,
        None => 64,
    }
}

/// What a beam width comes to.
pub(crate) fn limit_width(given: Option<usize>) -> (res: usize)
    ensures
        res == width_setting(given),
        1 <= res <= 100_000,
{
    match given {
        Some(n) => if n < 1 {
            1
        } else if n > 100_000 {
            100_000
        } else {
            n
        },
        None => 64,
    }
}

/// What a time limit in milliseconds comes to: none where none is given, and
/// from one millisecond to five minutes.
pub open spec fn time_setting(given: Option<u64>) -> Option<u64> {
    match given {
        Some(ms) => Some(nearest(ms as int, 1, 300_000) as u64),
        None => None,
    }
}

/// A time limit that the engines accept.
pub open spec fn time_in_range(limit: Option<u64>) -> bool {
    match limit {
        Some(ms) => 1 <= ms <= 300_000,
        None => true,
    }
}

/// What a time limit in milliseconds comes to.
pub(crate) fn limit_time(given: Option<u64>) -> (res: Option<u64>)
    ensures
        res == time_setting(given),
        time_in_range(res),
{
    match given {
        Some(ms) => if ms < 1 {
            Some(1)
        } else if ms > 300_000 {
            Some(300_000)
        } else {
            Some(ms)
        },
        None => None,
    }
}

/// A limited number lies within the limits, a number that lies there stays as it
/// is, and limiting keeps the order.
pub proof fn settings_stay_within_their_limits(n: int, m: int, low: int, high: int)
    requires
        low <= high,
    ensures
        low <= nearest(n, low, high) <= high,
        low <= n <= high ==> nearest(n, low, high) == n,
        n <= m ==> nearest(n, low, high) <= nearest(m, low, high),
{
}

/// A count within its limits is used as it is given, one outside them becomes the
/// limit that it passes, and where none is given the default is used.
pub proof fn a_count_is_used_as_given(given: Option<u32>, default: u32, low: u32, high: u32)
    requires
        low <= default <= high,
    ensures
        given is None ==> count_setting(given, default, low, high) == default,
        given matches Some(n) ==> {
            &&& low <= n <= high ==> count_setting(given, default, low, high) == n
            &&& n < low ==> count_setting(given, default, low, high) == low
            &&& n > high ==> count_setting(given, default, low, high) == high
        },
{
}

/// A beam width from 1 to 100000 is used as it is given, one outside becomes the
/// limit that it passes, and where none is given it is 64.
pub proof fn a_width_is_used_as_given(given: Option<usize>)
    ensures
        given is None ==> width_setting(given) == 64,
        given matches Some(n) ==> {
            &&& 1 <= n <= 100_000 ==> width_setting(given) == n
            &&& n < 1 ==> width_setting(given) == 1
            &&& n > 100_000 ==> width_setting(given) == 100_000
        },
{
}

/// A time limit from 1 to 300000 milliseconds is used as it is given, one outside
/// becomes the limit that it passes, and where none is given there is none.
pub proof fn a_time_limit_is_used_as_given(given: Option<u64>)
    ensures
        given is None <==> time_setting(given) is None,
        given matches Some(ms) ==> {
            &&& 1 <= ms <= 300_000 ==> time_setting(given) == Some(ms)
            &&& ms < 1 ==> time_setting(given) == Some(1u64)
            &&& ms > 300_000 ==> time_setting(given) == Some(300_000u64)
        },
{
}

} // verus!
