//! The HTTP-date codec: Unix seconds to an RFC 1123 date string, by closed-form
//! calendar arithmetic over 400-year, 100-year, 4-year and 1-year cycles.

use vstd::prelude::*;
use vstd::arithmetic::div_mod::{lemma_fundamental_div_mod, lemma_fundamental_div_mod_converse, lemma_mod_pos_bound};
use crate::text::{digit, digit_char, string_from_chars};

verus! {

/// Seconds since the Unix epoch at which year 10000 begins; HTTP dates are
/// defined strictly before it.
pub const YEAR_10000_SECS: u64 = 253402300800;

pub const DAYS_PER_400Y: u64 = 146097;
pub const DAYS_PER_100Y: u64 = 36524;
pub const DAYS_PER_4Y: u64 = 1461;

/// Days from 1600-03-01 (a 400-year cycle boundary, with February last in
/// the year) to 1970-01-01: one 400-year cycle before 2000-03-01, which
/// lies 11017 days after the epoch.
pub const CYCLE_ORIGIN_TO_EPOCH: u64 = 135080;

pub open spec fn is_leap_year(y: int) -> bool {
    y % 4 == 0 && (y % 100 != 0 || y % 400 == 0)
}

pub open spec fn days_in_month(y: int, m: int) -> int {
    if m == 2 { if is_leap_year(y) { 29 } else { 28 } }
    else if m == 4 || m == 6 || m == 9 || m == 11 { 30 }
    else { 31 }
}

/// Days of the year before month `m`.
pub open spec fn days_before_month(y: int, m: int) -> int
    decreases m,
{
    if m <= 1 { 0 } else { days_before_month(y, m - 1) + days_in_month(y, m - 1) }
}

/// Days from 0001-01-01 (day 1) to the given day of year `y`.
pub open spec fn days_from_ce(y: int, ordinal: int) -> int {
    let y1 = y - 1;
    365 * y1 + y1 / 4 - y1 / 100 + y1 / 400 + ordinal
}

/// Days from 0001-01-01 (day 1) to 1970-01-01.
pub const UNIX_EPOCH_DAY: i64 = 719163;

/// Length of the `i`-th month of a year that starts on March 1; February is
/// last and counted with 29 days, so that leap days end a cycle.
pub open spec fn march_month_len(i: int) -> int {
    if i == 0 { 31 }
    else if i == 1 { 30 }
    else if i == 2 { 31 }
    else if i == 3 { 30 }
    else if i == 4 { 31 }
    else if i == 5 { 31 }
    else if i == 6 { 30 }
    else if i == 7 { 31 }
    else if i == 8 { 30 }
    else if i == 9 { 31 }
    else if i == 10 { 31 }
    else { 29 }
}

/// Walks the month table from month `i` with `rem` days left: the
/// zero-based month and the zero-based day within it.
pub open spec fn month_walk(rem: int, i: int) -> (int, int)
    decreases 12 - i,
{
    if i >= 11 || rem < march_month_len(i) {
        (i, rem)
    } else {
        month_walk(rem - march_month_len(i), i + 1)
    }
}

/// Count of whole cycles of `len` days in `rem`, kept below `cap`: the last
/// cycle of each level is one day longer and absorbs that extra day.
pub open spec fn capped_cycles(rem: int, len: int, cap: int) -> int {
    if rem / len >= cap { cap - 1 } else { rem / len }
}

/// The calendar date `(year, month 1..=12, day 1..=31)` of `days` days after
/// 1970-01-01.
pub open spec fn civil_from_days(days: int) -> (int, int, int) {
    let d = days + CYCLE_ORIGIN_TO_EPOCH as int;
    let qc = d / DAYS_PER_400Y as int;
    let r0 = d % DAYS_PER_400Y as int;
    let c = capped_cycles(r0, DAYS_PER_100Y as int, 4);
    let r1 = r0 - c * DAYS_PER_100Y as int;
    let q = capped_cycles(r1, DAYS_PER_4Y as int, 25);
    let r2 = r1 - q * DAYS_PER_4Y as int;
    let y = capped_cycles(r2, 365, 4);
    let r3 = r2 - y * 365;
    let year = 1600 + y + 4 * q + 100 * c + 400 * qc;
    let (mi, md) = month_walk(r3, 0);
    let mon = mi + 1;
    if mon + 2 > 12 {
        (year + 1, mon - 10, md + 1)
    } else {
        (year, mon + 2, md + 1)
    }
}

/// Three-letter weekday name; `w` counts from Sunday = 0.
pub open spec fn weekday_name(w: int) -> Seq<char> {
    if w == 0 { seq!['S', 'u', 'n'] }
    else if w == 1 { seq!['M', 'o', 'n'] }
    else if w == 2 { seq!['T', 'u', 'e'] }
    else if w == 3 { seq!['W', 'e', 'd'] }
    else if w == 4 { seq!['T', 'h', 'u'] }
    else if w == 5 { seq!['F', 'r', 'i'] }
    else { seq!['S', 'a', 't'] }
}

/// Three-letter month name; `m` in `1..=12`.
pub open spec fn month_name(m: int) -> Seq<char> {
    if m == 1 { seq!['J', 'a', 'n'] }
    else if m == 2 { seq!['F', 'e', 'b'] }
    else if m == 3 { seq!['M', 'a', 'r'] }
    else if m == 4 { seq!['A', 'p', 'r'] }
    else if m == 5 { seq!['M', 'a', 'y'] }
    else if m == 6 { seq!['J', 'u', 'n'] }
    else if m == 7 { seq!['J', 'u', 'l'] }
    else if m == 8 { seq!['A', 'u', 'g'] }
    else if m == 9 { seq!['S', 'e', 'p'] }
    else if m == 10 { seq!['O', 'c', 't'] }
    else if m == 11 { seq!['N', 'o', 'v'] }
    else { seq!['D', 'e', 'c'] }
}

/// `n` as two zero-padded decimal digits (`n < 100`).
pub open spec fn two_digits(n: int) -> Seq<char> {
    seq![digit_char(n / 10), digit_char(n % 10)]
}

/// `n` as four zero-padded decimal digits (`n < 10000`).
pub open spec fn four_digits(n: int) -> Seq<char> {
    seq![digit_char(n / 1000), digit_char(n / 100 % 10), digit_char(n / 10 % 10), digit_char(n % 10)]
}

/// The RFC 1123 form `"Www, dd Mon yyyy HH:MM:SS GMT"` of `secs` seconds
/// after the Unix epoch.
pub open spec fn http_date(secs: int) -> Seq<char> {
    let days = secs / 86400;
    let sod = secs % 86400;
    let (year, mon, mday) = civil_from_days(days);
    weekday_name((days + 4) % 7) + seq![',', ' '] + two_digits(mday) + seq![' ']
        + month_name(mon) + seq![' '] + four_digits(year) + seq![' ']
        + two_digits(sod / 3600) + seq![':'] + two_digits(sod % 3600 / 60) + seq![':']
        + two_digits(sod % 60) + seq![' ', 'G', 'M', 'T']
}


fn march_month_length(i: u64) -> (r: u64)
    requires
        i < 12,
    ensures
        r == march_month_len(i as int),
{
    let lens: [u64; 12] = [31, 30, 31, 30, 31, 31, 30, 31, 30, 31, 31, 29];
    lens[i as usize]
}

fn push_three(v: &mut Vec<char>, s: &str)
    requires
        s@.len() == 3,
    ensures
        final(v)@ == old(v)@ + s@,
{
    let cs = crate::text::chars_of(s);
    v.push(cs[0]);
    v.push(cs[1]);
    v.push(cs[2]);
    assert(final(v)@ =~= old(v)@ + s@);
}

fn weekday_str(w: u64) -> (s: &'static str)
    requires
        w < 7,
    ensures
        s@ == weekday_name(w as int),
{
    proof {
        reveal_strlit("Sun"); reveal_strlit("Mon"); reveal_strlit("Tue"); reveal_strlit("Wed");
        reveal_strlit("Thu"); reveal_strlit("Fri"); reveal_strlit("Sat");
    }
    let s = if w == 0 { "Sun" } else if w == 1 { "Mon" } else if w == 2 { "Tue" }
        else if w == 3 { "Wed" } else if w == 4 { "Thu" } else if w == 5 { "Fri" } else { "Sat" };
    assert(s@ =~= weekday_name(w as int));
    s
}

fn month_str(m: u64) -> (s: &'static str)
    requires
        1 <= m <= 12,
    ensures
        s@ == month_name(m as int),
{
    proof {
        reveal_strlit("Jan"); reveal_strlit("Feb"); reveal_strlit("Mar"); reveal_strlit("Apr");
        reveal_strlit("May"); reveal_strlit("Jun"); reveal_strlit("Jul"); reveal_strlit("Aug");
        reveal_strlit("Sep"); reveal_strlit("Oct"); reveal_strlit("Nov"); reveal_strlit("Dec");
    }
    let s = if m == 1 { "Jan" } else if m == 2 { "Feb" } else if m == 3 { "Mar" }
        else if m == 4 { "Apr" } else if m == 5 { "May" } else if m == 6 { "Jun" }
        else if m == 7 { "Jul" } else if m == 8 { "Aug" } else if m == 9 { "Sep" }
        else if m == 10 { "Oct" } else if m == 11 { "Nov" } else { "Dec" };
    assert(s@ =~= month_name(m as int));
    s
}

/// Days in the months of a March-based year before month `i`.
pub open spec fn march_months_before(i: int) -> int
    decreases i,
{
    if i <= 0 { 0 } else { march_months_before(i - 1) + march_month_len(i - 1) }
}

fn push_two(v: &mut Vec<char>, n: u64)
    requires
        n < 100,
    ensures
        final(v)@ == old(v)@ + two_digits(n as int),
{
    v.push(digit(n / 10));
    v.push(digit(n % 10));
    assert(final(v)@ =~= old(v)@ + two_digits(n as int));
}

fn push_four(v: &mut Vec<char>, n: u64)
    requires
        n < 11000,
    ensures
        final(v)@ == old(v)@ + four_digits(n as int),
{
    v.push(digit(n / 1000));
    v.push(digit(n / 100 % 10));
    v.push(digit(n / 10 % 10));
    v.push(digit(n % 10));
    assert(final(v)@ =~= old(v)@ + four_digits(n as int));
}

/// The calendar date of `days` days after 1970-01-01, computed by the cycle
/// decomposition.
fn civil_of_days(days: u64) -> (r: (u64, u64, u64))
    requires
        days < YEAR_10000_SECS / 86400,
    ensures
        (r.0 as int, r.1 as int, r.2 as int) == civil_from_days(days as int),
        r.0 < 11000,
        1 <= r.1 <= 12,
        1 <= r.2 <= 31,
{
    let d = days + CYCLE_ORIGIN_TO_EPOCH;
    let qc = d / DAYS_PER_400Y;
    let r0 = d % DAYS_PER_400Y;
    assert(qc <= 21);
    let mut c = r0 / DAYS_PER_100Y;
    assert(c <= 4);
    if c == 4 {
        c = 3;
    }
    assert(c == capped_cycles(r0 as int, DAYS_PER_100Y as int, 4));
    assert(c * DAYS_PER_100Y <= r0) by (nonlinear_arith)
        requires c <= r0 / DAYS_PER_100Y, DAYS_PER_100Y == 36524;
    let r1 = r0 - c * DAYS_PER_100Y;
    assert(r1 <= 36524) by (nonlinear_arith)
        requires r1 == r0 - c * 36524, r0 < 146097, c == 3 || c == r0 / 36524;
    let mut q = r1 / DAYS_PER_4Y;
    assert(q <= 24);
    if q == 25 {
        q = 24;
    }
    assert(q == capped_cycles(r1 as int, DAYS_PER_4Y as int, 25));
    assert(q * DAYS_PER_4Y <= r1) by (nonlinear_arith)
        requires q == r1 / DAYS_PER_4Y, DAYS_PER_4Y == 1461;
    let r2 = r1 - q * DAYS_PER_4Y;
    assert(r2 < 1461) by (nonlinear_arith)
        requires r2 == r1 - q * 1461, q == r1 / 1461;
    let mut y = r2 / 365;
    assert(y <= 4);
    if y == 4 {
        y = 3;
    }
    assert(y == capped_cycles(r2 as int, 365, 4));
    let mut rem = r2 - y * 365;
    assert(rem < 366);
    let mut year = 1600 + y + 4 * q + 100 * c + 400 * qc;

    let ghost r3 = rem;
    let mut mi: u64 = 0;
    assert(march_months_before(11) == 337) by {
        reveal_with_fuel(march_months_before, 12);
    }
    while mi < 11 && rem >= march_month_length(mi)
        invariant
            mi <= 11,
            month_walk(rem as int, mi as int) == month_walk(r3 as int, 0),
            rem + march_months_before(mi as int) == r3,
            r3 < 366,
            march_months_before(11) == 337,
        decreases 11 - mi,
    {
        rem = rem - march_month_length(mi);
        mi = mi + 1;
    }
    assert(month_walk(rem as int, mi as int) == (mi as int, rem as int));
    if mi == 11 {
        assert(rem < 29);
    } else {
        assert(rem < march_month_len(mi as int));
    }
    let mday = rem + 1;
    let mon = mi + 1;
    if mon + 2 > 12 {
        year = year + 1;
        (year, mon - 10, mday)
    } else {
        (year, mon + 2, mday)
    }
}

/// Formats `secs` seconds after the Unix epoch as an HTTP date,
/// `"Www, dd Mon yyyy HH:MM:SS GMT"`.  Instants from year 10000 on have no
/// HTTP date.
pub fn turn_system_time_to_http_date(secs: u64) -> (r: String)
    requires
        secs < YEAR_10000_SECS,
    ensures
        r@ == http_date(secs as int),
        r@.len() == 29,
{
    let days = secs / 86400;
    let sod = secs % 86400;
    let (year, mon, mday) = civil_of_days(days);
    let ghost wname = weekday_name(((days + 4) % 7) as int);
    let ghost mname = month_name(mon as int);

    let mut v: Vec<char> = Vec::new();
    push_three(&mut v, weekday_str((days + 4) % 7));
    v.push(',');
    v.push(' ');
    push_two(&mut v, mday);
    v.push(' ');
    let ghost p1 = v@;
    push_three(&mut v, month_str(mon));
    v.push(' ');
    push_four(&mut v, year);
    v.push(' ');
    let ghost p2 = v@;
    push_two(&mut v, sod / 3600);
    v.push(':');
    push_two(&mut v, sod % 3600 / 60);
    v.push(':');
    push_two(&mut v, sod % 60);
    v.push(' ');
    v.push('G');
    v.push('M');
    v.push('T');
    assert(p1 =~= wname + seq![',', ' '] + two_digits(mday as int) + seq![' ']);
    assert(p2 =~= p1 + mname + seq![' '] + four_digits(year as int) + seq![' ']);
    assert(v@ =~= p2 + two_digits((sod / 3600) as int) + seq![':'] + two_digits((sod % 3600 / 60) as int)
        + seq![':'] + two_digits((sod % 60) as int) + seq![' ', 'G', 'M', 'T']);
    assert(v@ =~= http_date(secs as int));
    string_from_chars(v.as_slice())
}


pub open spec fn leap_day(y: int) -> int {
    if is_leap_year(y) { 1 } else { 0 }
}

/// The day count of March 1 of the year that the cycle counts give.
proof fn lemma_march_first(qc: int, c: int, q: int, yy: int)
    requires
        0 <= qc,
        0 <= c <= 3,
        0 <= q <= 24,
        0 <= yy <= 3,
    ensures
        days_from_ce(1600 + 400 * qc + 100 * c + 4 * q + yy, 60 + leap_day(1600 + 400 * qc + 100 * c + 4 * q + yy))
            == 146097 * qc + 36524 * c + 1461 * q + 365 * yy + 584083,
{
    let y = 1600 + 400 * qc + 100 * c + 4 * q + yy;
    let y1 = y - 1;
    let b4: int = if yy >= 1 { 1 } else { 0 };
    let b100: int = if 4 * q + yy >= 1 { 1 } else { 0 };
    let b400: int = if 100 * c + 4 * q + yy >= 1 { 1 } else { 0 };
    lemma_fundamental_div_mod_converse(y1, 4, 399 + 100 * qc + 25 * c + q + b4, 3 + yy - 4 * b4);
    lemma_fundamental_div_mod_converse(y1, 100, 15 + 4 * qc + c + b100, 99 + 4 * q + yy - 100 * b100);
    lemma_fundamental_div_mod_converse(y1, 400, 3 + qc + b400, 399 + 100 * c + 4 * q + yy - 400 * b400);
    lemma_fundamental_div_mod_converse(y, 4, 400 + 100 * qc + 25 * c + q, yy);
    lemma_fundamental_div_mod_converse(y, 100, 16 + 4 * qc + c, 4 * q + yy);
    lemma_fundamental_div_mod_converse(y, 400, 4 + qc, 100 * c + 4 * q + yy);
}

/// The day count of January 1 of the next year is 306 days after March 1.
proof fn lemma_next_january(y: int)
    requires
        y >= 1,
    ensures
        days_from_ce(y + 1, 1) == days_from_ce(y, 60 + leap_day(y)) + 306,
{
    let y1 = y - 1;
    lemma_fundamental_div_mod_converse(y1, 4, y1 / 4, y1 % 4);
    lemma_fundamental_div_mod_converse(y1, 100, y1 / 100, y1 % 100);
    lemma_fundamental_div_mod_converse(y1, 400, y1 / 400, y1 % 400);
    if y1 % 4 == 3 {
        lemma_fundamental_div_mod_converse(y, 4, y1 / 4 + 1, 0);
    } else {
        lemma_fundamental_div_mod_converse(y, 4, y1 / 4, y1 % 4 + 1);
    }
    if y1 % 100 == 99 {
        lemma_fundamental_div_mod_converse(y, 100, y1 / 100 + 1, 0);
    } else {
        lemma_fundamental_div_mod_converse(y, 100, y1 / 100, y1 % 100 + 1);
    }
    if y1 % 400 == 399 {
        lemma_fundamental_div_mod_converse(y, 400, y1 / 400 + 1, 0);
    } else {
        lemma_fundamental_div_mod_converse(y, 400, y1 / 400, y1 % 400 + 1);
    }
}


proof fn lemma_month_walk(rem: int, i: int)
    requires
        0 <= i <= 11,
        0 <= rem,
        rem + march_months_before(i) < 366,
    ensures
        i <= month_walk(rem, i).0 <= 11,
        0 <= month_walk(rem, i).1 < 31,
        month_walk(rem, i).1 + march_months_before(month_walk(rem, i).0) == rem + march_months_before(i),
        month_walk(rem, i).0 < 11 ==> month_walk(rem, i).1 < march_month_len(month_walk(rem, i).0),
    decreases 12 - i,
{
    assert(march_months_before(11) == 337) by {
        reveal_with_fuel(march_months_before, 12);
    }
    if i >= 11 || rem < march_month_len(i) {
    } else {
        lemma_month_walk(rem - march_month_len(i), i + 1);
    }
}

proof fn lemma_month_ordinal(y: int, mi: int)
    requires
        0 <= mi <= 11,
    ensures
        mi <= 9 ==> days_before_month(y, mi + 3) == 59 + leap_day(y) + march_months_before(mi),
        mi >= 10 ==> days_before_month(y + 1, mi - 9) == march_months_before(mi) - 306,
{
    reveal_with_fuel(days_before_month, 13);
    reveal_with_fuel(march_months_before, 12);
}

/// The HTTP date of an instant names its day: the calendar date it shows
/// is a valid month and day, and counted from 0001-01-01 it is the day that
/// lies `days` days after 1970-01-01.
pub proof fn lemma_http_date_names_the_day(days: int)
    requires
        0 <= days < YEAR_10000_SECS / 86400,
    ensures
        ({
            let (y, m, d) = civil_from_days(days);
            &&& 1 <= m <= 12
            &&& 1 <= d <= days_in_month(y, m)
            &&& days_from_ce(y, days_before_month(y, m) + d) == days + UNIX_EPOCH_DAY
        }),
{
    let dd = days + CYCLE_ORIGIN_TO_EPOCH as int;
    lemma_fundamental_div_mod(dd, 146097);
    lemma_mod_pos_bound(dd, 146097);
    let qc = dd / 146097;
    let r0 = dd % 146097;
    lemma_fundamental_div_mod(r0, 36524);
    lemma_mod_pos_bound(r0, 36524);
    let c = capped_cycles(r0, 36524, 4);
    let r1 = r0 - c * 36524;
    assert(0 <= c <= 3 && 0 <= r1 <= 36524);
    lemma_fundamental_div_mod(r1, 1461);
    lemma_mod_pos_bound(r1, 1461);
    let q = capped_cycles(r1, 1461, 25);
    let r2 = r1 - q * 1461;
    assert(0 <= q <= 24 && 0 <= r2 < 1461);
    lemma_fundamental_div_mod(r2, 365);
    lemma_mod_pos_bound(r2, 365);
    let yy = capped_cycles(r2, 365, 4);
    let r3 = r2 - yy * 365;
    assert(0 <= yy <= 3 && 0 <= r3 < 366);
    let y = 1600 + yy + 4 * q + 100 * c + 400 * qc;
    assert(qc >= 0);
    lemma_march_first(qc, c, q, yy);
    assert(y == 1600 + 400 * qc + 100 * c + 4 * q + yy);
    lemma_month_walk(r3, 0);
    let (mi, md) = month_walk(r3, 0);
    lemma_month_ordinal(y, mi);
    assert(dd == 146097 * qc + 36524 * c + 1461 * q + 365 * yy + r3);
    if mi >= 10 {
        lemma_next_january(y);
    }
    lemma_month_lengths(y, mi);
    assert(march_months_before(11) == 337) by {
        reveal_with_fuel(march_months_before, 12);
    }
    if mi == 11 && md == 28 {
        assert(r2 / 365 >= 4);
        assert(yy == 3 && r2 == 1460);
        let y2 = y + 1;
        lemma_fundamental_div_mod_converse(y2, 4, 401 + 100 * qc + 25 * c + q, 0);
        if q == 24 {
            assert(r1 == 36524);
            assert(c == 3);
            lemma_fundamental_div_mod_converse(y2, 400, 5 + qc, 0);
        } else {
            lemma_fundamental_div_mod_converse(y2, 100, 16 + 4 * qc + c, 4 * q + 4);
        }
        assert(is_leap_year(y2));
    }
}

proof fn lemma_month_lengths(y: int, mi: int)
    requires
        0 <= mi <= 11,
    ensures
        mi <= 9 ==> days_in_month(y, mi + 3) == march_month_len(mi),
        mi == 10 ==> days_in_month(y + 1, 1) == 31,
        mi == 11 ==> days_in_month(y + 1, 2) == 28 + leap_day(y + 1),
{
}

} // verus!
