//! How long ago something was.
use crate::clock::{format_month_day, utc_now};
use crate::decimal::int_text;
use vstd::prelude::*;

verus! {

use crate::clock::month_day;
use crate::decimal::decimal_int;

/// A time as it is shown at `now`: how long ago it was within a week, else its
/// month and day.
pub open spec fn relative(now: i64, ts: i64) -> Seq<char> {
    let delta = now - ts;
    if delta < 60 {
        "just now"@
    } else if delta < 3600 {
        decimal_int(delta / 60) + "m ago"@
    } else if delta < 86_400 {
        decimal_int(delta / 3600) + "h ago"@
    } else if delta < 604_800 {
        decimal_int(delta / 86_400) + "d ago"@
    } else {
        match month_day(ts) {
            Some(d) => d,
            None => "-"@,
        }
    }
}

/// A time as it is shown at `now`.
pub fn format_relative_at(now: i64, ts: i64) -> (r: String)
    ensures
        r@ == relative(now, ts),
{
    let delta: i128 = now as i128 - ts as i128;
    if delta < 60 {
        return "just now".to_owned();
    }
    if delta < 604_800 {
        let mut s: String = if delta < 3600 {
            int_text(delta / 60)
        } else if delta < 86_400 {
            int_text(delta / 3600)
        } else {
            int_text(delta / 86_400)
        };
        if delta < 3600 {
            s.push_str("m ago");
        } else if delta < 86_400 {
            s.push_str("h ago");
        } else {
            s.push_str("d ago");
        }
        return s;
    }
    match format_month_day(ts) {
        Some(d) => d,
        None => "-".to_owned(),
    }
}

/// Whether a text is how a time is shown at some moment.
pub open spec fn shown_for(s: Seq<char>, ts: i64) -> bool {
    exists|now: i64| s == #[trigger] relative(now, ts)
}

/// A time as it is shown now.
pub fn format_relative(ts: i64) -> (r: String)
    ensures
        shown_for(r@, ts),
{
    let now: i64 = utc_now();
    let s = format_relative_at(now, ts);
    assert(s@ == relative(now, ts));
    s
}

/// When a user was last seen, as it is shown at `now`.
pub open spec fn last_seen(now: i64, ts: Option<i64>) -> Seq<char> {
    match ts {
        None => "never"@,
        Some(t) => relative(now, t),
    }
}

/// When a user was last seen, as it is shown at `now`.
pub fn format_last_seen(now: i64, ts: Option<i64>) -> (r: String)
    ensures
        r@ == last_seen(now, ts),
{
    match ts {
        None => "never".to_owned(),
        Some(t) => format_relative_at(now, t),
    }
}

/// Within a minute a time is just now; up to an hour its age is told in whole minutes, up to a
/// day in whole hours, up to a week in whole days, and then by its date.
pub proof fn law_ages_are_told_in_whole_units(now: i64, ts: i64, n: int)
    ensures
        now < ts + 60 ==> relative(now, ts) == "just now"@,
        0 < n < 60 && ts + 60 * n <= now < ts + 60 * (n + 1) ==> relative(now, ts) == decimal_int(n)
            + "m ago"@,
        0 < n < 24 && ts + 3600 * n <= now < ts + 3600 * (n + 1) ==> relative(now, ts)
            == decimal_int(n) + "h ago"@,
        0 < n < 7 && ts + 86_400 * n <= now < ts + 86_400 * (n + 1) ==> relative(now, ts)
            == decimal_int(n) + "d ago"@,
        now >= ts + 7 * 86_400 && month_day(ts) is Some ==> relative(now, ts) == month_day(ts)->0,
{
    let d = now - ts;
    if 0 < n < 60 && 60 * n <= d < 60 * (n + 1) {
        assert(d / 60 == n);
    }
    if 0 < n < 24 && 3600 * n <= d < 3600 * (n + 1) {
        assert(d / 3600 == n);
    }
    if 0 < n < 7 && 86_400 * n <= d < 86_400 * (n + 1) {
        assert(d / 86_400 == n);
    }
}

} // verus!
