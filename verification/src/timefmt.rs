//! UTC timestamps as plain values, and their RFC 3339 rendering with
//! microsecond precision and a `Z` suffix — the first member of every
//! emitted line. The calendar arithmetic is spelled out as spec functions
//! (proleptic Gregorian, stepping year by year from the epoch), and the
//! executable formatter is proved to render exactly that.

use vstd::prelude::*;
use crate::json::{digit_char, digit_exec};
use crate::ext::push_char;

verus! {

/// Seconds of the last representable instant, 9999-12-31T23:59:59.
pub const MAX_UNIX_SECS: u64 = 253402300799;

/// A UTC instant: whole seconds since the Unix epoch and the microsecond
/// part. Instants before 1970 or after year 9999 are outside this type.
#[derive(Clone, Copy, Debug, PartialEq, Eq, Structural)]
pub struct Timestamp {
    pub secs: u64,
    pub micros: u32,
}

impl Timestamp {
    pub open spec fn wf(self) -> bool {
        self.secs <= MAX_UNIX_SECS && self.micros < 1_000_000
    }

    /// Build a timestamp from raw clock parts, clamping anything outside the
    /// representable range (pre-1970, post-9999, or leap-second overshoot)
    /// to the nearest representable instant.
    pub fn from_unix(secs: i64, micros: u32) -> (t: Timestamp)
        ensures
            t.wf(),
            0 <= secs <= MAX_UNIX_SECS && micros < 1_000_000 ==> t.secs == secs && t.micros == micros,
    {
        let s: u64 = if secs < 0 {
            0
        } else if secs > MAX_UNIX_SECS as i64 {
            MAX_UNIX_SECS
        } else {
            secs as u64
        };
        let us: u32 = if micros >= 1_000_000 { 999_999 } else { micros };
        Timestamp { secs: s, micros: us }
    }
}

/// A time source. The logging layer reads the current instant through this
/// capability so that tests can freeze it.
pub trait Clock {
    fn now(&self) -> (t: Timestamp)
        ensures
            t.wf(),
    ;
}

/// The system clock.
pub struct RealClock;

impl Clock for RealClock {
    fn now(&self) -> (t: Timestamp) {
        let parts: (i64, u32) = crate::ext::chrono_now_parts();
        Timestamp::from_unix(parts.0, parts.1)
    }
}

// ---------- calendar arithmetic ----------

pub open spec fn is_leap(y: int) -> bool {
    y % 4 == 0 && (y % 100 != 0 || y % 400 == 0)
}

pub open spec fn days_in_year(y: int) -> int {
    if is_leap(y) { 366 } else { 365 }
}

pub open spec fn days_in_month(y: int, m: int) -> int {
    if m == 1 { 31 }
    else if m == 2 { if is_leap(y) { 29 } else { 28 } }
    else if m == 3 { 31 }
    else if m == 4 { 30 }
    else if m == 5 { 31 }
    else if m == 6 { 30 }
    else if m == 7 { 31 }
    else if m == 8 { 31 }
    else if m == 9 { 30 }
    else if m == 10 { 31 }
    else if m == 11 { 30 }
    else { 31 }
}

/// Step whole years from `y` until fewer than a year of days remains;
/// the result is the year and the zero-based day within it.
pub open spec fn year_step(days: nat, y: nat) -> (nat, nat)
    decreases days,
{
    if days < days_in_year(y as int) {
        (y, days)
    } else {
        year_step((days - days_in_year(y as int)) as nat, (y + 1) as nat)
    }
}

/// Step whole months from `m` until fewer than a month of days remains;
/// the result is the month and the one-based day of the month.
pub open spec fn month_step(doy: nat, y: nat, m: nat) -> (nat, nat)
    decreases doy,
{
    if doy < days_in_month(y as int, m as int) {
        (m, (doy + 1) as nat)
    } else {
        month_step((doy - days_in_month(y as int, m as int)) as nat, y, (m + 1) as nat)
    }
}

/// Calendar date of a day count since 1970-01-01: (year, month, day).
pub open spec fn civil_of_days(days: nat) -> (nat, nat, nat) {
    let yd = year_step(days, 1970);
    let md = month_step(yd.1, yd.0, 1);
    (yd.0, md.0, md.1)
}

// ---------- zero-padded decimal fields ----------

pub open spec fn pad2(n: int) -> Seq<char> {
    seq![digit_char(n / 10 % 10), digit_char(n % 10)]
}

pub open spec fn pad4(n: int) -> Seq<char> {
    seq![digit_char(n / 1000 % 10), digit_char(n / 100 % 10), digit_char(n / 10 % 10), digit_char(n % 10)]
}

pub open spec fn pad6(n: int) -> Seq<char> {
    seq![
        digit_char(n / 100000 % 10),
        digit_char(n / 10000 % 10),
        digit_char(n / 1000 % 10),
        digit_char(n / 100 % 10),
        digit_char(n / 10 % 10),
        digit_char(n % 10),
    ]
}

/// The RFC 3339 rendering of an instant: `YYYY-MM-DDTHH:MM:SS.ffffffZ`.
pub open spec fn rfc3339_chars(secs: nat, micros: nat) -> Seq<char> {
    let days = secs / 86400;
    let rem = secs % 86400;
    let ymd = civil_of_days(days);
    pad4(ymd.0 as int) + seq!['-'] + pad2(ymd.1 as int) + seq!['-'] + pad2(ymd.2 as int)
        + seq!['T'] + pad2(rem as int / 3600) + seq![':'] + pad2(rem as int % 3600 / 60)
        + seq![':'] + pad2(rem as int % 60) + seq!['.'] + pad6(micros as int) + seq!['Z']
}

// ---------- exec formatting ----------

fn days_in_year_exec(y: u64) -> (d: u64)
    ensures
        d == days_in_year(y as int),
{
    if y % 4 == 0 && (y % 100 != 0 || y % 400 == 0) { 366 } else { 365 }
}

fn days_in_month_exec(y: u64, m: u64) -> (d: u64)
    ensures
        d == days_in_month(y as int, m as int),
{
    if m == 1 { 31 }
    else if m == 2 { if y % 4 == 0 && (y % 100 != 0 || y % 400 == 0) { 29 } else { 28 } }
    else if m == 3 { 31 }
    else if m == 4 { 30 }
    else if m == 5 { 31 }
    else if m == 6 { 30 }
    else if m == 7 { 31 }
    else if m == 8 { 31 }
    else if m == 9 { 30 }
    else if m == 10 { 31 }
    else if m == 11 { 30 }
    else { 31 }
}

fn push_pad2(buf: &mut String, n: u64)
    ensures
        final(buf)@ == old(buf)@ + pad2(n as int),
{
    push_char(buf, digit_exec(n / 10 % 10));
    push_char(buf, digit_exec(n % 10));
    assert(final(buf)@ =~= old(buf)@ + pad2(n as int));
}

fn push_pad4(buf: &mut String, n: u64)
    ensures
        final(buf)@ == old(buf)@ + pad4(n as int),
{
    push_char(buf, digit_exec(n / 1000 % 10));
    push_char(buf, digit_exec(n / 100 % 10));
    push_char(buf, digit_exec(n / 10 % 10));
    push_char(buf, digit_exec(n % 10));
    assert(final(buf)@ =~= old(buf)@ + pad4(n as int));
}

fn push_pad6(buf: &mut String, n: u64)
    ensures
        final(buf)@ == old(buf)@ + pad6(n as int),
{
    push_char(buf, digit_exec(n / 100000 % 10));
    push_char(buf, digit_exec(n / 10000 % 10));
    push_char(buf, digit_exec(n / 1000 % 10));
    push_char(buf, digit_exec(n / 100 % 10));
    push_char(buf, digit_exec(n / 10 % 10));
    push_char(buf, digit_exec(n % 10));
    assert(final(buf)@ =~= old(buf)@ + pad6(n as int));
}

/// Append the RFC 3339 rendering of `t`.
pub fn write_rfc3339(buf: &mut String, t: &Timestamp)
    requires
        t.wf(),
    ensures
        final(buf)@ == old(buf)@ + rfc3339_chars(t.secs as nat, t.micros as nat),
{
    let days: u64 = t.secs / 86400;
    let rem: u64 = t.secs % 86400;

    let mut d: u64 = days;
    let mut y: u64 = 1970;
    while d >= days_in_year_exec(y)
        invariant
            year_step(days as nat, 1970) == year_step(d as nat, y as nat),
            d <= days <= 2932897,
            1970 <= y,
            y + d <= 1970 + days,
        decreases d,
    {
        d = d - days_in_year_exec(y);
        y = y + 1;
    }
    assert(year_step(days as nat, 1970) == (y as nat, d as nat));

    let mut m: u64 = 1;
    let ghost doy: nat = d as nat;
    while d >= days_in_month_exec(y, m)
        invariant
            month_step(doy, y as nat, 1) == month_step(d as nat, y as nat, m as nat),
            d <= doy <= 2932897,
            1 <= m,
            m + d <= 1 + doy,
        decreases d,
    {
        d = d - days_in_month_exec(y, m);
        m = m + 1;
    }
    let day: u64 = d + 1;
    assert(month_step(doy, y as nat, 1) == (m as nat, day as nat));

    push_pad4(buf, y);
    push_char(buf, '-');
    push_pad2(buf, m);
    push_char(buf, '-');
    push_pad2(buf, day);
    push_char(buf, 'T');
    push_pad2(buf, rem / 3600);
    push_char(buf, ':');
    push_pad2(buf, rem % 3600 / 60);
    push_char(buf, ':');
    push_pad2(buf, rem % 60);
    push_char(buf, '.');
    push_pad6(buf, t.micros as u64);
    push_char(buf, 'Z');
    assert(final(buf)@ =~= old(buf)@ + rfc3339_chars(t.secs as nat, t.micros as nat));
}

/// The RFC 3339 rendering of `t` as a fresh string.
pub fn rfc3339_string(t: &Timestamp) -> (r: String)
    requires
        t.wf(),
    ensures
        r@ == rfc3339_chars(t.secs as nat, t.micros as nat),
{
    let mut buf = String::new();
    write_rfc3339(&mut buf, t);
    buf
}

} // verus!
