//! How long the machine has been up, in days, hours and minutes.

use vstd::prelude::*;
use crate::text::{decimal, push_decimal};
use vstd::string::StringExecFns;

verus! {

/// Whole days in `seconds`.
pub open spec fn uptime_days(seconds: nat) -> nat {
    seconds / 86400
}

/// Whole hours left over after the days.
pub open spec fn uptime_hours(seconds: nat) -> nat {
    (seconds % 86400) / 3600
}

/// Whole minutes left over after the hours.
pub open spec fn uptime_minutes(seconds: nat) -> nat {
    (seconds % 3600) / 60
}

/// The uptime text: minutes alone under an hour, hours and minutes under a
/// day, and days with hours and minutes after that; parts that are zero are
/// left out, except minutes when nothing else is shown.
pub open spec fn uptime_text(seconds: nat) -> Seq<char> {
    let d = uptime_days(seconds);
    let h = uptime_hours(seconds);
    let m = uptime_minutes(seconds);
    if d == 0 && h == 0 {
        decimal(m) + " min"@
    } else if d == 0 && m == 0 {
        decimal(h) + "h"@
    } else if d == 0 {
        decimal(h) + "h "@ + decimal(m) + "m"@
    } else if h == 0 && m == 0 {
        if d > 1 { decimal(d) + " days"@ } else { decimal(d) + " day"@ }
    } else if m == 0 {
        decimal(d) + "d "@ + decimal(h) + "h"@
    } else {
        decimal(d) + "d "@ + decimal(h) + "h "@ + decimal(m) + "m"@
    }
}

/// Renders an uptime given in seconds.
pub fn format_uptime(seconds: u64) -> (r: String)
    ensures
        r@ == uptime_text(seconds as nat),
{
    let days = seconds / 86400;
    let hours = (seconds % 86400) / 3600;
    let mins = (seconds % 3600) / 60;
    let mut r = String::new();
    if days == 0 && hours == 0 {
        push_decimal(&mut r, mins);
        r.append(" min");
    } else if days == 0 && mins == 0 {
        push_decimal(&mut r, hours);
        r.append("h");
    } else if days == 0 {
        push_decimal(&mut r, hours);
        r.append("h ");
        push_decimal(&mut r, mins);
        r.append("m");
    } else if hours == 0 && mins == 0 {
        push_decimal(&mut r, days);
        if days > 1 {
            r.append(" days");
        } else {
            r.append(" day");
        }
    } else if mins == 0 {
        push_decimal(&mut r, days);
        r.append("d ");
        push_decimal(&mut r, hours);
        r.append("h");
    } else {
        push_decimal(&mut r, days);
        r.append("d ");
        push_decimal(&mut r, hours);
        r.append("h ");
        push_decimal(&mut r, mins);
        r.append("m");
    }
    assert(r@ =~= uptime_text(seconds as nat));
    r
}

/// The parts of the uptime text are in range and account for the uptime
/// down to the minute.
pub proof fn lemma_uptime_parts(seconds: nat)
    ensures
        uptime_hours(seconds) < 24,
        uptime_minutes(seconds) < 60,
        uptime_days(seconds) * 86400 + uptime_hours(seconds) * 3600 + uptime_minutes(seconds) * 60
            <= seconds,
        seconds < uptime_days(seconds) * 86400 + uptime_hours(seconds) * 3600
            + uptime_minutes(seconds) * 60 + 60,
{
    let d = seconds / 86400;
    let r = seconds % 86400;
    assert(seconds == d * 86400 + r);
    let h = r / 3600;
    let r2 = r % 3600;
    assert(r == h * 3600 + r2);
    assert(seconds % 3600 == r2) by (nonlinear_arith)
        requires seconds == d * 86400 + h * 3600 + r2, 0 <= r2 < 3600, d >= 0, h >= 0;
}


/// An uptime of `d` days, `h` hours, `m` minutes and `s` seconds (in mixed
/// radix: `h < 24`, `m < 60`, `s < 60`) splits back into those days, hours
/// and minutes, whatever the seconds.
pub proof fn lemma_uptime_mixed_radix(d: nat, h: nat, m: nat, s: nat)
    requires
        h < 24,
        m < 60,
        s < 60,
    ensures
        uptime_days(d * 86400 + h * 3600 + m * 60 + s) == d,
        uptime_hours(d * 86400 + h * 3600 + m * 60 + s) == h,
        uptime_minutes(d * 86400 + h * 3600 + m * 60 + s) == m,
{
    let t: int = (d * 86400 + h * 3600 + m * 60 + s) as int;
    let r1: int = (h * 3600 + m * 60 + s) as int;
    let r2: int = (m * 60 + s) as int;
    vstd::arithmetic::div_mod::lemma_fundamental_div_mod_converse(t, 86400, d as int, r1);
    vstd::arithmetic::div_mod::lemma_fundamental_div_mod_converse(r1, 3600, h as int, r2);
    assert(t == (d * 24 + h) * 3600 + r2);
    vstd::arithmetic::div_mod::lemma_fundamental_div_mod_converse(t, 3600, (d * 24 + h) as int, r2);
    vstd::arithmetic::div_mod::lemma_fundamental_div_mod_converse(r2, 60, m as int, s as int);
}

/// The uptime text of `d` days, `h` hours, `m` minutes and `s` seconds
/// shows those numbers: minutes alone under an hour, hours (and minutes
/// unless zero) under a day, and after that the days with hours and minutes
/// unless both are zero, with hours shown whenever minutes are.
pub proof fn lemma_uptime_text_shows_parts(d: nat, h: nat, m: nat, s: nat)
    requires
        h < 24,
        m < 60,
        s < 60,
    ensures
        ({
            let text = uptime_text(d * 86400 + h * 3600 + m * 60 + s);
            &&& d == 0 && h == 0 ==> text == decimal(m) + " min"@
            &&& d == 0 && h > 0 && m == 0 ==> text == decimal(h) + "h"@
            &&& d == 0 && h > 0 && m > 0 ==> text == decimal(h) + "h "@ + decimal(m) + "m"@
            &&& d == 1 && h == 0 && m == 0 ==> text == decimal(d) + " day"@
            &&& d > 1 && h == 0 && m == 0 ==> text == decimal(d) + " days"@
            &&& d > 0 && h > 0 && m == 0 ==> text == decimal(d) + "d "@ + decimal(h) + "h"@
            &&& d > 0 && m > 0 ==> text == decimal(d) + "d "@ + decimal(h) + "h "@ + decimal(m) + "m"@
        }),
{
    lemma_uptime_mixed_radix(d, h, m, s);
}

} // verus!
