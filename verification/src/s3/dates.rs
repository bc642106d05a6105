//! Calendar dates in timestamps and HTTP headers.

use vstd::prelude::*;
use vstd::string::*;

use super::date_laws;
use crate::order;
use crate::split;
use crate::text;

verus! {

/// A leap year of the Gregorian calendar.
pub open spec fn leap(year: int) -> bool {
    year % 4 == 0 && (year % 100 != 0 || year % 400 == 0)
}

/// The days of a year.
pub open spec fn year_days(year: int) -> int {
    if leap(year) {
        366
    } else {
        365
    }
}

/// The days of a month, counted from zero.
pub open spec fn month_length(year: int, month: int) -> int {
    if month == 1 {
        if leap(year) {
            29
        } else {
            28
        }
    } else if month == 3 || month == 5 || month == 8 || month == 10 {
        30
    } else {
        31
    }
}

/// The days from the epoch to the first day of a year.
pub open spec fn days_to_year(year: int) -> int
    decreases year - 1970,
{
    if year <= 1970 {
        0
    } else {
        days_to_year(year - 1) + year_days(year - 1)
    }
}

/// The days of a year before a month, counted from zero, begins.
pub open spec fn days_to_month(year: int, month: int) -> int
    decreases month,
{
    if month <= 0 {
        0
    } else {
        days_to_month(year, month - 1) + month_length(year, month - 1)
    }
}

/// A date: the month is counted from zero, the day from one.
pub struct Date {
    pub year: int,
    pub month: int,
    pub day: int,
}

/// The date is in the calendar, in the epoch or later.
pub open spec fn valid(d: Date) -> bool {
    &&& d.year >= 1970
    &&& 0 <= d.month < 12
    &&& 1 <= d.day <= month_length(d.year, d.month)
}

/// The days from the epoch to a date.
pub open spec fn day_number(d: Date) -> int {
    days_to_year(d.year) + days_to_month(d.year, d.month) + d.day - 1
}

/// The date is that of a moment.
pub open spec fn date_of(d: Date, secs: int) -> bool {
    valid(d) && day_number(d) == secs / 86400
}

/// The date of a moment.
pub open spec fn date_at(secs: int) -> Date {
    choose|d: Date| date_of(d, secs)
}

/// A number with zeros in front, up to a width.
pub open spec fn padded(n: nat, width: nat) -> Seq<char> {
    let s = text::decimal(n);
    if s.len() >= width {
        s
    } else {
        Seq::new((width - s.len()) as nat, |i: int| '0') + s
    }
}

/// The time of day, as two digits each.
pub open spec fn clock(secs: int) -> Seq<char> {
    let rest = secs % 86400;
    padded((rest / 3600) as nat, 2) + ":"@ + padded((rest % 3600 / 60) as nat, 2) + ":"@ + padded(
        (rest % 60) as nat,
        2,
    )
}

/// A date and a time of day as ISO 8601 writes them.
pub open spec fn timestamp_text(d: Date, secs: int) -> Seq<char> {
    padded(d.year as nat, 4) + "-"@ + padded((d.month + 1) as nat, 2) + "-"@ + padded(
        d.day as nat,
        2,
    ) + "T"@ + clock(secs) + ".000Z"@
}

/// A moment as ISO 8601 writes it.
pub open spec fn timestamp(secs: int) -> Seq<char> {
    timestamp_text(date_at(secs), secs)
}

/// The name of a day of the week; the epoch began on a Thursday.
pub open spec fn weekday(days: int) -> Seq<char> {
    let n = days % 7;
    if n == 0 {
        "Thu"@
    } else if n == 1 {
        "Fri"@
    } else if n == 2 {
        "Sat"@
    } else if n == 3 {
        "Sun"@
    } else if n == 4 {
        "Mon"@
    } else if n == 5 {
        "Tue"@
    } else {
        "Wed"@
    }
}

/// The name of a month, counted from zero.
pub open spec fn month_name(month: int) -> Seq<char> {
    if month == 0 {
        "Jan"@
    } else if month == 1 {
        "Feb"@
    } else if month == 2 {
        "Mar"@
    } else if month == 3 {
        "Apr"@
    } else if month == 4 {
        "May"@
    } else if month == 5 {
        "Jun"@
    } else if month == 6 {
        "Jul"@
    } else if month == 7 {
        "Aug"@
    } else if month == 8 {
        "Sep"@
    } else if month == 9 {
        "Oct"@
    } else if month == 10 {
        "Nov"@
    } else {
        "Dec"@
    }
}

/// A date and a time of day as HTTP headers write them.
pub open spec fn http_text(d: Date, secs: int) -> Seq<char> {
    weekday(secs / 86400) + ", "@ + padded(d.day as nat, 2) + " "@ + month_name(d.month) + " "@
        + padded(d.year as nat, 4) + " "@ + clock(secs) + " GMT"@
}

/// A moment as HTTP headers write it.
pub open spec fn http_date(secs: int) -> Seq<char> {
    http_text(date_at(secs), secs)
}

// ------------------------------------------------------------------ calendar

fn is_leap(year: u64) -> (r: bool)
    ensures
        r == leap(year as int),
{
    year % 4 == 0 && (year % 100 != 0 || year % 400 == 0)
}

fn length_of_month(year: u64, month: usize) -> (r: u64)
    ensures
        r == month_length(year as int, month as int),
        28 <= r <= 31,
{
    if month == 1 {
        if is_leap(year) {
            29
        } else {
            28
        }
    } else if month == 3 || month == 5 || month == 8 || month == 10 {
        30
    } else {
        31
    }
}

/// The twelve months make up the year.
pub proof fn lemma_months_fill_year(year: int)
    ensures
        days_to_month(year, 12) == year_days(year),
{
    reveal_with_fuel(days_to_month, 13);
}

/// Year, month and day of a moment.
pub struct Civil {
    pub year: u64,
    /// Counted from zero.
    pub month: usize,
    pub day: u64,
}

impl Civil {
    /// The date as a mathematical value.
    pub open spec fn date(&self) -> Date {
        Date { year: self.year as int, month: self.month as int, day: self.day as int }
    }
}

/// The date of a moment.
pub fn civil(unix_secs: u64) -> (r: Civil)
    ensures
        date_of(r.date(), unix_secs as int),
{
    let days: u64 = unix_secs / 86400;
    let mut year: u64 = 1970;
    let mut rest: u64 = days;
    loop
        invariant_except_break
            1970 <= year,
            days_to_year(year as int) + rest == days,
            year + rest <= 1970 + days,
            days <= 213_503_982_334_601,
        ensures
            1970 <= year,
            days_to_year(year as int) + rest == days,
            rest < year_days(year as int),
            year <= 1970 + days,
        decreases rest,
    {
        let length: u64 = if is_leap(year) {
            366
        } else {
            365
        };
        if rest < length {
            break;
        }
        rest = rest - length;
        year = year + 1;
    }
    let ghost left = rest;
    let mut month: usize = 0;
    proof {
        lemma_months_fill_year(year as int);
    }
    while month < 12 && rest >= length_of_month(year, month)
        invariant
            month <= 12,
            days_to_month(year as int, month as int) + rest == left,
            left < year_days(year as int),
            days_to_month(year as int, 12) == year_days(year as int),
        ensures
            month < 12,
            days_to_month(year as int, month as int) + rest == left,
            rest < month_length(year as int, month as int),
        decreases 12 - month,
    {
        rest = rest - length_of_month(year, month);
        month = month + 1;
    }
    Civil { year, month, day: rest + 1 }
}

/// A number with zeros in front, up to a width.
pub fn pad(n: u64, width: usize) -> (r: String)
    ensures
        r@ == padded(n as nat, width as nat),
{
    let digits = text::decimal_u64(n);
    let count: usize = text::chars_of(digits.as_str()).len();
    let mut out = String::new();
    if count < width {
        let mut i: usize = 0;
        assert(out@ =~= Seq::new(0, |i: int| '0'));
        while i < width - count
            invariant
                count < width,
                i <= width - count,
                out@ == Seq::new(i as nat, |i: int| '0'),
            decreases width - count - i,
        {
            out.push('0');
            i = i + 1;
            assert(out@ =~= Seq::new(i as nat, |i: int| '0'));
        }
    }
    out.append(digits.as_str());
    assert(count >= width ==> out@ =~= digits@);
    out
}

fn clock_text(unix_secs: u64) -> (r: String)
    ensures
        r@ == clock(unix_secs as int),
{
    let rest: u64 = unix_secs % 86400;
    let mut out = pad(rest / 3600, 2);
    out.append(":");
    out.append(pad((rest % 3600) / 60, 2).as_str());
    out.append(":");
    out.append(pad(rest % 60, 2).as_str());
    out
}

/// A moment as ISO 8601 writes it.
pub fn format_timestamp(unix_secs: u64) -> (r: String)
    ensures
        r@ == timestamp(unix_secs as int),
{
    let c = civil(unix_secs);
    let mut out = pad(c.year, 4);
    out.append("-");
    out.append(pad(c.month as u64 + 1, 2).as_str());
    out.append("-");
    out.append(pad(c.day, 2).as_str());
    out.append("T");
    out.append(clock_text(unix_secs).as_str());
    out.append(".000Z");
    proof {
        assert(date_of(c.date(), unix_secs as int));
        date_laws::law_one_date_per_day(c.date(), date_at(unix_secs as int));
    }
    out
}

fn weekday_name(days: u64) -> (r: &'static str)
    ensures
        r@ == weekday(days as int),
{
    let n: u64 = days % 7;
    if n == 0 {
        "Thu"
    } else if n == 1 {
        "Fri"
    } else if n == 2 {
        "Sat"
    } else if n == 3 {
        "Sun"
    } else if n == 4 {
        "Mon"
    } else if n == 5 {
        "Tue"
    } else {
        "Wed"
    }
}

fn name_of_month(month: usize) -> (r: &'static str)
    ensures
        r@ == month_name(month as int),
{
    if month == 0 {
        "Jan"
    } else if month == 1 {
        "Feb"
    } else if month == 2 {
        "Mar"
    } else if month == 3 {
        "Apr"
    } else if month == 4 {
        "May"
    } else if month == 5 {
        "Jun"
    } else if month == 6 {
        "Jul"
    } else if month == 7 {
        "Aug"
    } else if month == 8 {
        "Sep"
    } else if month == 9 {
        "Oct"
    } else if month == 10 {
        "Nov"
    } else {
        "Dec"
    }
}

/// A moment as HTTP headers write it.
pub fn format_http_date(unix_secs: u64) -> (r: String)
    ensures
        r@ == http_date(unix_secs as int),
{
    let c = civil(unix_secs);
    let mut out = weekday_name(unix_secs / 86400).to_owned();
    out.append(", ");
    out.append(pad(c.day, 2).as_str());
    out.append(" ");
    out.append(name_of_month(c.month));
    out.append(" ");
    out.append(pad(c.year, 4).as_str());
    out.append(" ");
    out.append(clock_text(unix_secs).as_str());
    out.append(" GMT");
    proof {
        assert(date_of(c.date(), unix_secs as int));
        date_laws::law_one_date_per_day(c.date(), date_at(unix_secs as int));
    }
    out
}

// ------------------------------------------------------------------- reading

/// The month of a name, counted from zero.
pub open spec fn month_of(name: Seq<char>) -> Option<int> {
    if name == "Jan"@ {
        Some(0)
    } else if name == "Feb"@ {
        Some(1)
    } else if name == "Mar"@ {
        Some(2)
    } else if name == "Apr"@ {
        Some(3)
    } else if name == "May"@ {
        Some(4)
    } else if name == "Jun"@ {
        Some(5)
    } else if name == "Jul"@ {
        Some(6)
    } else if name == "Aug"@ {
        Some(7)
    } else if name == "Sep"@ {
        Some(8)
    } else if name == "Oct"@ {
        Some(9)
    } else if name == "Nov"@ {
        Some(10)
    } else if name == "Dec"@ {
        Some(11)
    } else {
        None
    }
}

/// The moment of a date and a time of day.
pub open spec fn moment(
    year: u64,
    month: int,
    day: u64,
    hour: u64,
    min: u64,
    sec: u64,
) -> int {
    (days_to_year(year as int) + days_to_month(year as int, month) + day - 1) * 86400 + hour * 3600
        + min * 60 + sec
}

/// The moment that the words of a date name.
pub open spec fn moment_of_words(parts: Seq<Seq<char>>) -> Option<int> {
    if parts.len() != 6 {
        None
    } else {
        let t = split::pieces(parts[4], ':');
        if t.len() != 3 {
            None
        } else {
            match (
                text::u64_value(parts[1]),
                month_of(parts[2]),
                text::u64_value(parts[3]),
                text::u64_value(t[0]),
                text::u64_value(t[1]),
                text::u64_value(t[2]),
            ) {
                (Some(d), Some(mo), Some(y), Some(h), Some(mi), Some(s)) => Some(
                    moment(y, mo, d, h, mi, s),
                ),
                _ => None,
            }
        }
    }
}

/// The moment of a date such as `Thu, 01 Jan 2024 00:00:00 GMT`, where it can be told in
/// seconds since the epoch.
pub open spec fn http_seconds(s: Seq<char>) -> Option<u64> {
    match moment_of_words(split::words(text::trimmed(s))) {
        Some(t) => if 0 <= t <= u64::MAX {
            Some(t as u64)
        } else {
            None
        },
        None => None,
    }
}

fn number_of_month(name: &str) -> (r: Option<usize>)
    ensures
        match r {
            Some(m) => month_of(name@) == Some(m as int) && m < 12,
            None => month_of(name@) is None,
        },
{
    if text::str_eq(name, "Jan") {
        Some(0)
    } else if text::str_eq(name, "Feb") {
        Some(1)
    } else if text::str_eq(name, "Mar") {
        Some(2)
    } else if text::str_eq(name, "Apr") {
        Some(3)
    } else if text::str_eq(name, "May") {
        Some(4)
    } else if text::str_eq(name, "Jun") {
        Some(5)
    } else if text::str_eq(name, "Jul") {
        Some(6)
    } else if text::str_eq(name, "Aug") {
        Some(7)
    } else if text::str_eq(name, "Sep") {
        Some(8)
    } else if text::str_eq(name, "Oct") {
        Some(9)
    } else if text::str_eq(name, "Nov") {
        Some(10)
    } else if text::str_eq(name, "Dec") {
        Some(11)
    } else {
        None
    }
}

/// The leap days before a year begins, since year one.
pub open spec fn leap_days(year: int) -> int {
    (year - 1) / 4 - (year - 1) / 100 + (year - 1) / 400
}

proof fn lemma_fourths(y: int)
    ensures
        y / 4 - (y - 1) / 4 == (if y % 4 == 0 {
            1int
        } else {
            0
        }),
{
}

proof fn lemma_hundredths(y: int)
    ensures
        y / 100 - (y - 1) / 100 == (if y % 100 == 0 {
            1int
        } else {
            0
        }),
{
}

proof fn lemma_four_hundredths(y: int)
    ensures
        y / 400 - (y - 1) / 400 == (if y % 400 == 0 {
            1int
        } else {
            0
        }),
{
}

proof fn lemma_multiples(y: int)
    ensures
        y % 400 == 0 ==> y % 100 == 0,
        y % 100 == 0 ==> y % 4 == 0,
{
}

proof fn lemma_days_to_year(year: int)
    requires
        year >= 1970,
    ensures
        days_to_year(year) == (year - 1970) * 365 + leap_days(year) - 477,
    decreases year,
{
    if year > 1970 {
        lemma_days_to_year(year - 1);
        lemma_fourths(year - 1);
        lemma_hundredths(year - 1);
        lemma_four_hundredths(year - 1);
        lemma_multiples(year - 1);
    }
}

fn days_before(year: u64) -> (r: i128)
    ensures
        r == days_to_year(year as int),
        0 <= r <= year * 366,
{
    if year < 1970 {
        return 0;
    }
    proof {
        lemma_days_to_year(year as int);
    }
    let y: i128 = year as i128 - 1;
    (year as i128 - 1970) * 365 + (y / 4 - y / 100 + y / 400) - 477
}

fn days_in_months(year: u64, month: usize) -> (r: i128)
    requires
        month <= 12,
    ensures
        r == days_to_month(year as int, month as int),
        0 <= r <= 31 * month,
{
    let mut sum: i128 = 0;
    let mut m: usize = 0;
    while m < month
        invariant
            m <= month <= 12,
            sum == days_to_month(year as int, m as int),
            0 <= sum <= 31 * m,
        decreases month - m,
    {
        sum = sum + length_of_month(year, m) as i128;
        m = m + 1;
    }
    sum
}

/// Reads a date such as `Thu, 01 Jan 2024 00:00:00 GMT`.
pub fn parse_http_date(s: &str) -> (r: Option<u64>)
    ensures
        r == http_seconds(s@),
{
    let parts = split::split_words(text::trim(s));
    let ghost pv = order::views(parts@);
    if parts.len() != 6 {
        return None;
    }
    assert(pv[1] == parts@[1]@ && pv[2] == parts@[2]@ && pv[3] == parts@[3]@ && pv[4]
        == parts@[4]@);
    let t = split::split(parts[4].as_str(), ':');
    let ghost tv = order::views(t@);
    if t.len() != 3 {
        return None;
    }
    assert(tv[0] == t@[0]@ && tv[1] == t@[1]@ && tv[2] == t@[2]@);
    match (
        text::parse_u64(parts[1].as_str()),
        number_of_month(parts[2].as_str()),
        text::parse_u64(parts[3].as_str()),
        text::parse_u64(t[0].as_str()),
        text::parse_u64(t[1].as_str()),
        text::parse_u64(t[2].as_str()),
    ) {
        (Some(day), Some(month), Some(year), Some(hour), Some(min), Some(sec)) => {
            let days: i128 = days_before(year) + days_in_months(year, month) + day as i128 - 1;
            let secs: i128 = days * 86400 + hour as i128 * 3600 + min as i128 * 60 + sec as i128;
            assert(secs == moment(year, month as int, day, hour, min, sec));
            if secs >= 0 && secs <= 0xffff_ffff_ffff_ffff {
                Some(secs as u64)
            } else {
                None
            }
        },
        _ => None,
    }
}

} // verus!
