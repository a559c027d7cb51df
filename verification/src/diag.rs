//! The date in front of every log line, and when the log starts over.

use vstd::prelude::*;

use crate::text;

verus! {

/// The log starts over once it is longer than this. A run writes well under
/// 2 KiB.
pub const MAX_BYTES: u64 = 262_144;

/// A year with a 29 February.
pub open spec fn is_leap(y: int) -> bool {
    y % 4 == 0 && (y % 100 != 0 || y % 400 == 0)
}

/// The days of a month in the Gregorian calendar.
pub open spec fn days_in_month(y: int, m: int) -> int {
    if m == 2 {
        if is_leap(y) {
            29
        } else {
            28
        }
    } else if m == 4 || m == 6 || m == 9 || m == 11 {
        30
    } else {
        31
    }
}

/// The days from 1 January of the year 1 to 1 January of `y`: one year after
/// another, and a day more for each leap year among them.
pub open spec fn days_before_year(y: int) -> int {
    365 * (y - 1) + (y - 1) / 4 - (y - 1) / 100 + (y - 1) / 400
}

/// The days of year `y` that pass before the first of month `m`.
pub open spec fn days_before_month(y: int, m: int) -> int
    decreases m,
{
    if m <= 1 {
        0
    } else {
        days_before_month(y, m - 1) + days_in_month(y, m - 1)
    }
}

/// A day that the calendar has.
pub open spec fn is_date(y: int, m: int, d: int) -> bool {
    1 <= m <= 12 && 1 <= d <= days_in_month(y, m)
}

/// The days from 1 January 1970 to a date.
pub open spec fn day_number(y: int, m: int, d: int) -> int {
    days_before_year(y) - days_before_year(1970) + days_before_month(y, m) + d - 1
}

/// The date that lies `n` days after 1 January 1970, as year, month and day.
pub open spec fn date_of_day(n: int) -> (int, int, int) {
    choose|t: (int, int, int)| is_date(t.0, t.1, t.2) && #[trigger] day_number(t.0, t.1, t.2) == n
}

/// A moment as the log writes it: the date, a space, the time of day and `Z`.
pub open spec fn timestamp_text(secs: int) -> Seq<char> {
    let date = date_of_day(secs / 86_400);
    let time = secs % 86_400;
    text::padded_signed(date.0, 4) + seq!['-'] + text::padded(date.1 as nat, 2) + seq!['-'] + text::padded(
        date.2 as nat,
        2,
    ) + seq![' '] + text::padded((time / 3_600) as nat, 2) + seq![':'] + text::padded(
        (time / 60 % 60) as nat,
        2,
    ) + seq![':'] + text::padded((time % 60) as nat, 2) + seq!['Z']
}

/// The days from 1 March of the year 0 to 1 March of `y`.
spec fn days_before_march(y: int) -> int {
    365 * y + y / 4 - y / 100 + y / 400
}

/// A year is 365 days long, a leap year 366.
pub proof fn lemma_year_length(y: int)
    ensures
        days_before_year(y + 1) - days_before_year(y) == (if is_leap(y) {
            366int
        } else {
            365int
        }),
        days_before_month(y, 13) == days_before_year(y + 1) - days_before_year(y),
{
    reveal_with_fuel(days_before_month, 14);
    lemma_step(y, 4);
    lemma_step(y, 100);
    lemma_step(y, 400);
    assert(y % 100 == 0 ==> y % 4 == 0);
    assert(y % 400 == 0 ==> y % 100 == 0);
}

/// Counting multiples of `k` up to a number one at a time.
proof fn lemma_step(y: int, k: int)
    requires
        k == 4 || k == 100 || k == 400,
    ensures
        y / k == (y - 1) / k + (if y % k == 0 {
            1int
        } else {
            0int
        }),
{
}

/// The year of a day inside a span of 400 years that starts on 1 March.
proof fn lemma_year_of_era(doe: int)
    requires
        0 <= doe < 146_097,
    ensures
        ({
            let yoe = (doe - doe / 1_460 + doe / 36_524 - doe / 146_096) / 365;
            let doy = doe - (365 * yoe + yoe / 4 - yoe / 100);
            &&& 0 <= yoe < 400
            &&& 0 <= doy <= 365
            &&& doy == 365 ==> is_leap(yoe + 1)
        }),
{
    let c = doe / 36_524;
    assert(0 <= c <= 4);
    if c == 0 {
    } else if c == 1 {
    } else if c == 2 {
    } else if c == 3 {
    } else {
    }
}

/// The month and day of the `doy`-th day of a year that starts on 1 March, and
/// what they come to from 1 January on.
proof fn lemma_month_of_year(y0: int, doy: int)
    requires
        0 <= doy <= 365,
        doy == 365 ==> is_leap(y0 + 1),
    ensures
        ({
            let mp = (5 * doy + 2) / 153;
            let d = doy - (153 * mp + 2) / 5 + 1;
            let m = if mp < 10 {
                mp + 3
            } else {
                mp - 9
            };
            let y = if m <= 2 {
                y0 + 1
            } else {
                y0
            };
            &&& 0 <= mp <= 11
            &&& is_date(y, m, d)
            &&& days_before_year(y) + days_before_month(y, m) + d - 1 == days_before_march(y0) + doy
                - 306
        }),
{
    let mp = (5 * doy + 2) / 153;
    assert(0 <= mp <= 11);
    lemma_months(y0);
    lemma_months(y0 + 1);
    lemma_march(y0);
    lemma_year_length(y0);
    if mp < 6 {
        if mp == 0 {
        } else if mp == 1 {
        } else if mp == 2 {
        } else if mp == 3 {
        } else if mp == 4 {
        } else {
        }
    } else {
        if mp == 6 {
        } else if mp == 7 {
        } else if mp == 8 {
        } else if mp == 9 {
        } else if mp == 10 {
        } else {
        }
    }
}

/// Counting from 1 March against counting from 1 January.
proof fn lemma_march(y: int)
    ensures
        days_before_march(y) == days_before_year(y) + 365 + (if is_leap(y) {
            1int
        } else {
            0int
        }),
{
    lemma_step(y, 4);
    lemma_step(y, 100);
    lemma_step(y, 400);
    assert(y % 100 == 0 ==> y % 4 == 0);
    assert(y % 400 == 0 ==> y % 100 == 0);
}

/// Where each month starts in its year.
proof fn lemma_months(y: int)
    ensures
        days_before_month(y, 1) == 0,
        days_before_month(y, 2) == 31,
        ({
            let feb = days_in_month(y, 2);
            &&& days_before_month(y, 3) == 31 + feb
            &&& days_before_month(y, 4) == 62 + feb
            &&& days_before_month(y, 5) == 92 + feb
            &&& days_before_month(y, 6) == 123 + feb
            &&& days_before_month(y, 7) == 153 + feb
            &&& days_before_month(y, 8) == 184 + feb
            &&& days_before_month(y, 9) == 215 + feb
            &&& days_before_month(y, 10) == 245 + feb
            &&& days_before_month(y, 11) == 276 + feb
            &&& days_before_month(y, 12) == 306 + feb
            &&& days_before_month(y, 13) == 337 + feb
        }),
{
    reveal_with_fuel(days_before_month, 14);
}

/// The calendar repeats after 400 years.
proof fn lemma_era(era: int, yoe: int)
    requires
        0 <= yoe < 400,
    ensures
        days_before_march(yoe + era * 400) == 146_097 * era + 365 * yoe + yoe / 4 - yoe / 100,
        is_leap(yoe + era * 400 + 1) == is_leap(yoe + 1),
{
    let y = yoe + era * 400;
    assert(y / 4 == yoe / 4 + 100 * era);
    assert(y / 100 == yoe / 100 + 4 * era);
    assert(y / 400 == era);
}

/// The quotient and the remainder of a division that rounds down.
fn floor_div(a: i64, b: i64) -> (r: (i64, i64))
    requires
        b > 0,
    ensures
        r.0 == a as int / b as int,
        r.1 == a as int % b as int,
{
    if a >= 0 {
        (a / b, a % b)
    } else {
        let below = -(a + 1);
        let q = -(below / b) - 1;
        let r = b - 1 - below % b;
        proof {
            vstd::arithmetic::div_mod::lemma_fundamental_div_mod(below as int, b as int);
            assert(a as int == q as int * b as int + r as int) by (nonlinear_arith)
                requires
                    below == b * (below as int / b as int) + below as int % b as int,
                    a == -below - 1,
                    q == -(below as int / b as int) - 1,
                    r == b - 1 - below as int % b as int,
            ;
            vstd::arithmetic::div_mod::lemma_fundamental_div_mod_converse(
                a as int,
                b as int,
                q as int,
                r as int,
            );
        }
        (q, r)
    }
}

/// The date and the time of day of a moment, as year, month, day, hour, minute
/// and second, from its distance to the start of 1970 in seconds.
///
/// Days-to-civil after Howard Hinnant's algorithm, which is exact for every
/// date the Gregorian calendar defines and needs no table.
pub fn civil_from_unix(secs: i64) -> (r: (i64, u32, u32, u32, u32, u32))
    ensures
        is_date(r.0 as int, r.1 as int, r.2 as int),
        day_number(r.0 as int, r.1 as int, r.2 as int) == secs as int / 86_400,
        r.3 < 24 && r.4 < 60 && r.5 < 60,
        r.3 * 3_600 + r.4 * 60 + r.5 == secs as int % 86_400,
        (r.0 as int, r.1 as int, r.2 as int) == date_of_day(secs as int / 86_400),
{
    let (days, rem) = floor_div(secs, 86_400);

    let z = days + 719_468;
    let (era, doe) = floor_div(z, 146_097);
    let yoe = (doe - doe / 1_460 + doe / 36_524 - doe / 146_096) / 365;
    proof {
        lemma_year_of_era(doe as int);
    }
    let y = yoe + era * 400;
    let doy = doe - (365 * yoe + yoe / 4 - yoe / 100);
    proof {
        lemma_era(era as int, yoe as int);
        lemma_month_of_year(y as int, doy as int);
    }
    let mp = (5 * doy + 2) / 153;
    let d = (doy - (153 * mp + 2) / 5 + 1) as u32;
    let m = (if mp < 10 {
        mp + 3
    } else {
        mp - 9
    }) as u32;
    let y = if m <= 2 {
        y + 1
    } else {
        y
    };

    proof {
        lemma_date_of_day(y as int, m as int, d as int);
    }
    (y, m, d, (rem / 3_600) as u32, ((rem % 3_600) / 60) as u32, (rem % 60) as u32)
}

/// The years in between are at least 365 days each.
proof fn lemma_years_apart(y1: int, y2: int)
    requires
        y1 <= y2,
    ensures
        days_before_year(y1) + 365 * (y2 - y1) <= days_before_year(y2),
    decreases y2 - y1,
{
    if y1 < y2 {
        lemma_years_apart(y1, y2 - 1);
        lemma_year_length(y2 - 1);
    }
}

/// The days of a year that pass before a month and the days of that month stay
/// inside the year.
proof fn lemma_in_year(y: int, m: int, d: int)
    requires
        is_date(y, m, d),
    ensures
        0 <= days_before_month(y, m) + d - 1 < days_before_year(y + 1) - days_before_year(y),
{
    lemma_months(y);
    lemma_year_length(y);
}

/// A later date has a larger day number.
pub proof fn law_dates_are_in_order(y1: int, m1: int, d1: int, y2: int, m2: int, d2: int)
    requires
        is_date(y1, m1, d1),
        is_date(y2, m2, d2),
        y1 < y2 || (y1 == y2 && (m1 < m2 || (m1 == m2 && d1 < d2))),
    ensures
        day_number(y1, m1, d1) < day_number(y2, m2, d2),
{
    lemma_in_year(y1, m1, d1);
    lemma_in_year(y2, m2, d2);
    if y1 < y2 {
        lemma_years_apart(y1 + 1, y2);
    } else if m1 < m2 {
        lemma_months(y1);
    }
}

/// Two dates with the same day number are the same date.
pub proof fn law_a_day_has_one_date(y1: int, m1: int, d1: int, y2: int, m2: int, d2: int)
    requires
        is_date(y1, m1, d1),
        is_date(y2, m2, d2),
        day_number(y1, m1, d1) == day_number(y2, m2, d2),
    ensures
        y1 == y2,
        m1 == m2,
        d1 == d2,
{
    if y1 < y2 || (y1 == y2 && (m1 < m2 || (m1 == m2 && d1 < d2))) {
        law_dates_are_in_order(y1, m1, d1, y2, m2, d2);
    } else if y2 < y1 || (y1 == y2 && (m2 < m1 || (m1 == m2 && d2 < d1))) {
        law_dates_are_in_order(y2, m2, d2, y1, m1, d1);
    }
}

/// `date_of_day` gives back a date that is there.
proof fn lemma_date_of_day(y: int, m: int, d: int)
    requires
        is_date(y, m, d),
    ensures
        date_of_day(day_number(y, m, d)) == (y, m, d),
{
    let n = day_number(y, m, d);
    let w = (y, m, d);
    assert(is_date(w.0, w.1, w.2) && day_number(w.0, w.1, w.2) == n);
    let t = date_of_day(n);
    law_a_day_has_one_date(t.0, t.1, t.2, y, m, d);
}

/// A day number that is not huge belongs to a year that is not huge.
proof fn lemma_year_is_small(y: int, m: int, d: int)
    requires
        is_date(y, m, d),
        -200_000_000_000_000 <= day_number(y, m, d),
    ensures
        y > i64::MIN,
{
    lemma_in_year(y, m, d);
    lemma_year_length(y);
    if y < 0 {
        lemma_years_apart(y, 0);
    }
}

/// The parts of a time of day.
proof fn lemma_time_of_day(hh: int, mm: int, ss: int)
    requires
        0 <= mm < 60,
        0 <= ss < 60,
    ensures
        ({
            let time = hh * 3_600 + mm * 60 + ss;
            &&& time / 3_600 == hh
            &&& time / 60 % 60 == mm
            &&& time % 60 == ss
        }),
{
    let time = hh * 3_600 + mm * 60 + ss;
    assert(time / 60 == hh * 60 + mm);
}

/// `2026-09-22 12:31:07Z`, from the clock alone: a date is what makes a line in
/// the log match a moment the user describes.
pub fn timestamp(secs: i64) -> (s: String)
    ensures
        s@ == timestamp_text(secs as int),
{
    let (y, m, d, hh, mm, ss) = civil_from_unix(secs);
    let mut s = String::new();
    proof {
        lemma_year_is_small(y as int, m as int, d as int);
        lemma_time_of_day(hh as int, mm as int, ss as int);
    }
    text::push_padded_signed(&mut s, y, 4);
    s.push('-');
    text::push_padded(&mut s, m as u64, 2);
    s.push('-');
    text::push_padded(&mut s, d as u64, 2);
    s.push(' ');
    text::push_padded(&mut s, hh as u64, 2);
    s.push(':');
    text::push_padded(&mut s, mm as u64, 2);
    s.push(':');
    text::push_padded(&mut s, ss as u64, 2);
    s.push('Z');
    s
}

/// One line of the log, without its end: the moment, a space, and the text.
pub fn log_line(secs: i64, line: &str) -> (s: String)
    ensures
        s@ == timestamp_text(secs as int) + seq![' '] + line@,
{
    let mut s = timestamp(secs);
    s.push(' ');
    s.append(line);
    s
}

/// A log of this length starts over before the next line.
pub open spec fn is_full(len: int) -> bool {
    len > MAX_BYTES
}

/// Does a log of this length start over before the next line?
pub fn log_is_full(len: u64) -> (full: bool)
    ensures
        full == (len > MAX_BYTES),
        full == is_full(len as int),
{
    len > MAX_BYTES
}

/// The line of a moment reads back as that moment: four digits of the year, two each
/// of month, day, hour, minute and second, with their signs between them, for every
/// moment from the year 0 to the year 9999.
pub proof fn law_a_timestamp_reads_back(secs: int, y: int, m: int, d: int)
    requires
        is_date(y, m, d),
        0 <= y <= 9999,
        day_number(y, m, d) == secs / 86_400,
    ensures
        ({
            let t = timestamp_text(secs);
            let hour = text::spelled(t.subrange(11, 13));
            let minute = text::spelled(t.subrange(14, 16));
            let second = text::spelled(t.subrange(17, 19));
            &&& t.len() == 20
            &&& text::spelled(t.subrange(0, 4)) == y
            &&& text::spelled(t.subrange(5, 7)) == m
            &&& text::spelled(t.subrange(8, 10)) == d
            &&& 0 <= hour < 24 && 0 <= minute < 60 && 0 <= second < 60
            &&& hour * 3_600 + minute * 60 + second == secs % 86_400
            &&& t[4] == '-' && t[7] == '-' && t[10] == ' ' && t[13] == ':' && t[16] == ':' && t[19]
                == 'Z'
        }),
{
    let t = timestamp_text(secs);
    let time = secs % 86_400;
    lemma_date_of_day(y, m, d);
    let (hh, mm, ss) = (time / 3_600, time / 60 % 60, time % 60);
    lemma_two_digits(hh);
    lemma_two_digits(mm);
    lemma_two_digits(ss);
    assert(1 <= d <= 31);
    lemma_two_digits(m);
    lemma_two_digits(d);
    text::law_small_numbers_have_few_digits(y as nat);
    text::law_padding_changes_no_number(y as nat, 4);
    assert(t.subrange(0, 4) =~= text::padded(y as nat, 4));
    assert(t.subrange(5, 7) =~= text::padded(m as nat, 2));
    assert(t.subrange(8, 10) =~= text::padded(d as nat, 2));
    assert(t.subrange(11, 13) =~= text::padded(hh as nat, 2));
    assert(t.subrange(14, 16) =~= text::padded(mm as nat, 2));
    assert(t.subrange(17, 19) =~= text::padded(ss as nat, 2));
    assert(hh * 3_600 + mm * 60 + ss == time);
}

/// Two digits spell a number below 100.
proof fn lemma_two_digits(n: int)
    requires
        0 <= n < 100,
    ensures
        text::padded(n as nat, 2).len() == 2,
        text::spelled(text::padded(n as nat, 2)) == n,
{
    text::law_small_numbers_have_few_digits(n as nat);
    text::law_padding_changes_no_number(n as nat, 2);
}

/// The calendar counts one day after another from 1 January 1970: the first of a
/// month follows the last of the one before it, and new year the last of December.
pub proof fn law_a_day_follows_a_day(y: int, m: int, d: int)
    requires
        is_date(y, m, d),
    ensures
        day_number(1970, 1, 1) == 0,
        d < days_in_month(y, m) ==> day_number(y, m, d + 1) == day_number(y, m, d) + 1,
        d == days_in_month(y, m) && m < 12 ==> day_number(y, m + 1, 1) == day_number(y, m, d) + 1,
        d == days_in_month(y, m) && m == 12 ==> day_number(y + 1, 1, 1) == day_number(y, m, d) + 1,
        days_in_month(y, 1) == 31 && days_in_month(y, 3) == 31 && days_in_month(y, 4) == 30
            && days_in_month(y, 5) == 31 && days_in_month(y, 6) == 30 && days_in_month(y, 7) == 31
            && days_in_month(y, 8) == 31 && days_in_month(y, 9) == 30 && days_in_month(y, 10) == 31
            && days_in_month(y, 11) == 30 && days_in_month(y, 12) == 31,
        days_in_month(y, 2) == 29 <==> y % 400 == 0 || (y % 4 == 0 && y % 100 != 0),
        days_in_month(y, 2) == 28 || days_in_month(y, 2) == 29,
{
    lemma_months(y);
    lemma_months(y + 1);
    lemma_months(1970);
    lemma_year_length(y);
}

/// A log holds 256 kilobytes: up to that length it goes on, and beyond it starts over.
pub proof fn law_a_log_holds_its_kilobytes(len: int)
    ensures
        len <= 256 * 1024 ==> !is_full(len),
        len > 256 * 1024 ==> is_full(len),
{
}

}
