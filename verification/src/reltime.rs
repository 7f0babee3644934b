//! Human-readable relative times ("5 minutes ago") for branch pickers.
use crate::text::{dec, push_decimal, push_str};
use vstd::prelude::*;

verus! {

/// `"<n> <unit> ago"`, with the unit plural unless `n` is 1.
pub open spec fn phrase(n: nat, unit: Seq<char>) -> Seq<char> {
    dec(n) + " "@ + unit + (if n == 1 {
        ""@
    } else {
        "s"@
    }) + " ago"@
}

/// The text for a delta of `d` seconds: under a minute (negative included)
/// is "just now"; otherwise the largest unit that fits at least once,
/// counted down (a month is 30 days, a year 365 days).
pub open spec fn delta_text(d: int) -> Seq<char> {
    if d < 60 {
        "just now"@
    } else if d < 3600 {
        phrase((d / 60) as nat, "minute"@)
    } else if d < 86400 {
        phrase((d / 3600) as nat, "hour"@)
    } else if d < 604800 {
        phrase((d / 86400) as nat, "day"@)
    } else if d < 2592000 {
        phrase((d / 604800) as nat, "week"@)
    } else if d < 31536000 {
        phrase((d / 2592000) as nat, "month"@)
    } else {
        phrase((d / 31536000) as nat, "year"@)
    }
}

fn unit_phrase(n: u64, unit: &str) -> (r: String)
    ensures
        r@ == phrase(n as nat, unit@),
{
    let mut out = String::new();
    push_decimal(&mut out, n);
    push_str(&mut out, " ");
    push_str(&mut out, unit);
    if n != 1 {
        push_str(&mut out, "s");
    }
    push_str(&mut out, " ago");
    proof {
        if n == 1 {
            reveal_strlit("");
            assert(""@ =~= Seq::<char>::empty());
            assert(out@ =~= phrase(n as nat, unit@));
        } else {
            assert(out@ =~= phrase(n as nat, unit@));
        }
    }
    out
}

/// Format a time delta in seconds as a human-readable string. Negative
/// deltas (future timestamps, clock skew) read as "just now".
pub fn format_delta(delta: i64) -> (r: String)
    ensures
        r@ == delta_text(delta as int),
{
    if delta < 60 {
        String::from_str("just now")
    } else if delta < 3600 {
        unit_phrase((delta / 60) as u64, "minute")
    } else if delta < 86400 {
        unit_phrase((delta / 3600) as u64, "hour")
    } else if delta < 604800 {
        unit_phrase((delta / 86400) as u64, "day")
    } else if delta < 2592000 {
        unit_phrase((delta / 604800) as u64, "week")
    } else if delta < 31536000 {
        unit_phrase((delta / 2592000) as u64, "month")
    } else {
        unit_phrase((delta / 31536000) as u64, "year")
    }
}

/// The relative-time text for a commit at `unix_ts` seen at `now` (both
/// seconds since the epoch): "unknown" for a timestamp at or before the
/// epoch (a failed peel, an unset field), otherwise the delta's text. A
/// delta past `i64::MAX` is read as `i64::MAX`.
pub open spec fn relative_text(unix_ts: int, now: int) -> Seq<char> {
    if unix_ts <= 0 {
        "unknown"@
    } else if now - unix_ts > i64::MAX {
        delta_text(i64::MAX as int)
    } else {
        delta_text(now - unix_ts)
    }
}

/// `relative_time` at a given clock reading.
pub fn relative_time_at(unix_ts: i64, now: u64) -> (r: String)
    ensures
        r@ == relative_text(unix_ts as int, now as int),
{
    if unix_ts <= 0 {
        return String::from_str("unknown");
    }
    let d: i128 = (now as i128) - (unix_ts as i128);
    let delta: i64 = if d > (i64::MAX as i128) {
        i64::MAX
    } else {
        d as i64
    };
    format_delta(delta)
}

/// `SystemTime::now()` as whole seconds since the epoch (0 before it).
/// The clock is read, so nothing is claimed of the value.
#[verifier::external_body]
fn unix_now() -> u64 {
    std::time::SystemTime::now().duration_since(std::time::UNIX_EPOCH).map(|d| d.as_secs()).unwrap_or(0)
}

/// Human-readable relative time from a unix timestamp: "unknown" for
/// timestamps at or before the epoch, otherwise the age against the clock.
pub fn relative_time(unix_ts: i64) -> (r: String)
    ensures
        unix_ts <= 0 ==> r@ == "unknown"@,
        unix_ts > 0 ==> exists|now: u64| r@ == relative_text(unix_ts as int, now as int),
{
    let now = unix_now();
    relative_time_at(unix_ts, now)
}

} // verus!
