//! Timestamps: the simplified conversion from epoch seconds to an ISO 8601
//! string that the note format records.

use vstd::prelude::*;
use crate::chartext::{dec_rec, digit_char, digit_to_char, string_of, u64_to_radix};
use crate::common::epoch_seconds_now;

verus! {

/// A leap year in the Gregorian calendar.
pub open spec fn leap_year(y: int) -> bool {
    (y % 4 == 0 && y % 100 != 0) || y % 400 == 0
}

pub open spec fn days_in_year(y: int) -> int {
    if leap_year(y) {
        366
    } else {
        365
    }
}

/// Days in month `m` (0-based) of year `y`.
pub open spec fn days_in_month(y: int, m: int) -> int {
    if m == 1 {
        if leap_year(y) {
            29
        } else {
            28
        }
    } else if m == 3 || m == 5 || m == 8 || m == 10 {
        30
    } else {
        31
    }
}

/// Walks whole years forward from `y` until fewer than a year of days
/// remains; yields the final year and the day index within it.
pub open spec fn year_from(y: int, rem: int) -> (int, int)
    decreases rem
        when rem >= 0
{
    if rem < days_in_year(y) {
        (y, rem)
    } else {
        year_from(y + 1, rem - days_in_year(y))
    }
}

/// Walks whole months forward from `m` (0-based) in year `y`; yields the
/// final month and the day index within it.
pub open spec fn month_from(y: int, m: int, rem: int) -> (int, int)
    decreases 12 - m
        when 0 <= m <= 11
{
    if m >= 11 || rem < days_in_month(y, m) {
        (m, rem)
    } else {
        month_from(y, m + 1, rem - days_in_month(y, m))
    }
}

/// A value as at least two decimal digits, zero-padded.
pub open spec fn pad2(n: int) -> Seq<char> {
    if n < 100 {
        seq![digit_char(n / 10), digit_char(n % 10)]
    } else {
        dec_rec(n as nat)
    }
}

/// A value as at least four decimal digits, zero-padded.
pub open spec fn pad4(n: int) -> Seq<char> {
    if n < 10000 {
        seq![
            digit_char(n / 1000),
            digit_char((n / 100) % 10),
            digit_char((n / 10) % 10),
            digit_char(n % 10),
        ]
    } else {
        dec_rec(n as nat)
    }
}

/// The simplified ISO 8601 rendering of a timestamp in whole seconds since
/// the Unix epoch, always in UTC: `YYYY-MM-DDThh:mm:ssZ`.
pub open spec fn iso8601_of(secs: nat) -> Seq<char> {
    let days = secs / 86400;
    let tod = secs % 86400;
    let yr = year_from(1970, days as int);
    let mr = month_from(yr.0, 0, yr.1);
    pad4(yr.0) + seq!['-'] + pad2(mr.0 + 1) + seq!['-'] + pad2(mr.1 + 1) + seq!['T'] + pad2(
        tod as int / 3600,
    ) + seq![':'] + pad2((tod as int % 3600) / 60) + seq![':'] + pad2(tod as int % 60) + seq!['Z']
}

/// Whether `year` is a leap year. Years before the epoch do not occur here.
pub fn is_leap_year(year: i64) -> (r: bool)
    requires
        year >= 0,
    ensures
        r == leap_year(year as int),
{
    (year % 4 == 0 && year % 100 != 0) || (year % 400 == 0)
}

fn days_in_year_exec(y: i64) -> (r: i64)
    requires
        0 <= y,
    ensures
        r == days_in_year(y as int),
{
    if is_leap_year(y) {
        366
    } else {
        365
    }
}

fn days_in_month_exec(y: i64, m: i64) -> (r: i64)
    requires
        0 <= y,
        0 <= m <= 11,
    ensures
        r == days_in_month(y as int, m as int),
{
    if m == 1 {
        if is_leap_year(y) {
            29
        } else {
            28
        }
    } else if m == 3 || m == 5 || m == 8 || m == 10 {
        30
    } else {
        31
    }
}

fn pad2_exec(n: u64) -> (r: Vec<char>)
    ensures
        r@ == pad2(n as int),
{
    if n < 100 {
        let mut v: Vec<char> = Vec::new();
        v.push(digit_to_char(n / 10));
        v.push(digit_to_char(n % 10));
        proof {
            assert(v@ =~= pad2(n as int));
        }
        v
    } else {
        u64_to_radix(n, false)
    }
}

fn pad4_exec(n: u64) -> (r: Vec<char>)
    ensures
        r@ == pad4(n as int),
{
    if n < 10000 {
        let mut v: Vec<char> = Vec::new();
        v.push(digit_to_char(n / 1000));
        v.push(digit_to_char((n / 100) % 10));
        v.push(digit_to_char((n / 10) % 10));
        v.push(digit_to_char(n % 10));
        proof {
            assert(v@ =~= pad4(n as int));
        }
        v
    } else {
        u64_to_radix(n, false)
    }
}

/// Renders a timestamp in whole seconds since the Unix epoch as simplified
/// ISO 8601, per [`iso8601_of`].
pub fn time_to_iso8601(epoch_secs: u64) -> (r: String)
    ensures
        r@ == iso8601_of(epoch_secs as nat),
{
    let days: u64 = epoch_secs / 86400;
    let tod: u64 = epoch_secs % 86400;
    let hours: u64 = tod / 3600;
    let minutes: u64 = (tod % 3600) / 60;
    let seconds: u64 = tod % 60;
    let ghost days0 = days as int;
    let mut y: i64 = 1970;
    let mut rem: i64 = (days as i64);
    proof {
        assert(days <= 0xffff_ffff_ffff_ffffu64 / 86400);
    }
    while rem >= days_in_year_exec(y)
        invariant
            1970 <= y,
            0 <= rem,
            y - 1970 <= days0 - rem,
            days0 <= 0xffff_ffff_ffff_ffffu64 / 86400,
            year_from(1970, days0) == year_from(y as int, rem as int),
        decreases rem,
    {
        let diy: i64 = days_in_year_exec(y);
        rem = rem - diy;
        y = y + 1;
    }
    proof {
        assert(year_from(y as int, rem as int) == (y as int, rem as int));
    }
    let ghost yfinal = y as int;
    let ghost yday = rem as int;
    let mut m: i64 = 0;
    while m < 11 && rem >= days_in_month_exec(y, m)
        invariant
            1970 <= y,
            y as int == yfinal,
            0 <= m <= 11,
            0 <= rem < 366,
            month_from(yfinal, 0, yday) == month_from(yfinal, m as int, rem as int),
        decreases 11 - m,
    {
        rem = rem - days_in_month_exec(y, m);
        m = m + 1;
    }
    proof {
        assert(month_from(yfinal, m as int, rem as int) == (m as int, rem as int));
    }
    let mut out: Vec<char> = Vec::new();
    let ypart = pad4_exec(y as u64);
    crate::chartext::append_vec(&mut out, &ypart);
    out.push('-');
    let mpart = pad2_exec((m + 1) as u64);
    crate::chartext::append_vec(&mut out, &mpart);
    out.push('-');
    let dpart = pad2_exec((rem + 1) as u64);
    crate::chartext::append_vec(&mut out, &dpart);
    out.push('T');
    let hpart = pad2_exec(hours);
    crate::chartext::append_vec(&mut out, &hpart);
    out.push(':');
    let minpart = pad2_exec(minutes);
    crate::chartext::append_vec(&mut out, &minpart);
    out.push(':');
    let spart = pad2_exec(seconds);
    crate::chartext::append_vec(&mut out, &spart);
    out.push('Z');
    proof {
        assert(out@ =~= iso8601_of(epoch_secs as nat));
    }
    string_of(&out)
}

/// The current timestamp in simplified ISO 8601.
pub fn chrono_iso8601_now() -> (r: String)
    ensures
        exists|n: u64| r@ == iso8601_of(n as nat),
{
    let secs = epoch_seconds_now();
    let r = time_to_iso8601(secs);
    proof {
        assert(r@ == iso8601_of(secs as nat));
    }
    r
}

} // verus!
