//! What holds of dates.

use vstd::prelude::*;

use super::dates;
use super::dates::Date;
use super::signing_laws;
use crate::split;
use crate::text;

verus! {

proof fn lemma_year_order(a: int, b: int)
    requires
        1970 <= a < b,
    ensures
        dates::days_to_year(a) + dates::year_days(a) <= dates::days_to_year(b),
    decreases b - a,
{
    if a + 1 < b {
        lemma_year_order(a, b - 1);
    }
}

proof fn lemma_year_floor(y: int)
    requires
        1970 <= y,
    ensures
        dates::days_to_year(y) >= 365 * (y - 1970),
    decreases y,
{
    if y > 1970 {
        lemma_year_floor(y - 1);
    }
}

proof fn lemma_month_order(year: int, a: int, b: int)
    requires
        0 <= a < b,
    ensures
        dates::days_to_month(year, a) + dates::month_length(year, a) <= dates::days_to_month(
            year,
            b,
        ),
    decreases b - a,
{
    if a + 1 < b {
        lemma_month_order(year, a, b - 1);
    }
}

proof fn lemma_within_year(d: Date)
    requires
        dates::valid(d),
    ensures
        dates::days_to_year(d.year) <= dates::day_number(d) < dates::days_to_year(d.year)
            + dates::year_days(d.year),
{
    lemma_month_order(d.year, d.month, 12);
    dates::lemma_months_fill_year(d.year);
    if d.month > 0 {
        lemma_month_order(d.year, 0, d.month);
    }
}

/// No two dates of the calendar are the same day.
pub proof fn law_one_date_per_day(a: Date, b: Date)
    requires
        dates::valid(a),
        dates::valid(b),
        dates::day_number(a) == dates::day_number(b),
    ensures
        a == b,
{
    lemma_within_year(a);
    lemma_within_year(b);
    if a.year < b.year {
        lemma_year_order(a.year, b.year);
    }
    if b.year < a.year {
        lemma_year_order(b.year, a.year);
    }
    if a.month < b.month {
        lemma_month_order(a.year, a.month, b.month);
    }
    if b.month < a.month {
        lemma_month_order(a.year, b.month, a.month);
    }
}

proof fn lemma_zeros(zeros: Seq<char>, s: Seq<char>)
    requires
        forall|i: int| 0 <= i < zeros.len() ==> #[trigger] zeros[i] == '0',
        text::all_digits(s),
    ensures
        text::all_digits(zeros + s),
        text::digits_value(zeros + s) == text::digits_value(s),
    decreases s.len() + zeros.len(),
{
    let t = zeros + s;
    assert forall|i: int| 0 <= i < t.len() implies text::is_digit(#[trigger] t[i]) by {
        if i < zeros.len() {
            assert(t[i] == zeros[i]);
        } else {
            assert(t[i] == s[i - zeros.len()]);
        }
    }
    if s.len() > 1 {
        assert(t.drop_last() =~= zeros + s.drop_last());
        assert(text::all_digits(s.drop_last()));
        lemma_zeros(zeros, s.drop_last());
        assert(t.last() == s.last());
    } else {
        assert(t.drop_last() =~= zeros);
        lemma_all_zeros(zeros);
        assert(t.last() == s.last());
        assert(s.drop_last() =~= Seq::<char>::empty());
        assert(text::digits_value(Seq::<char>::empty()) == 0);
        assert(text::digits_value(s) == text::digit_value(s.last()));
        assert(text::digits_value(t) == text::digit_value(t.last()));
    }
}

proof fn lemma_all_zeros(zeros: Seq<char>)
    requires
        forall|i: int| 0 <= i < zeros.len() ==> #[trigger] zeros[i] == '0',
    ensures
        text::digits_value(zeros) == 0,
    decreases zeros.len(),
{
    if zeros.len() > 0 {
        assert(zeros.last() == '0');
        assert forall|i: int| 0 <= i < zeros.drop_last().len() implies #[trigger] zeros.drop_last()[
        i] == '0' by {
            assert(zeros.drop_last()[i] == zeros[i]);
        }
        lemma_all_zeros(zeros.drop_last());
    }
}

proof fn lemma_padded(n: nat, width: nat)
    requires
        n <= u64::MAX,
    ensures
        text::all_digits(dates::padded(n, width)),
        text::u64_value(dates::padded(n, width)) == Some(n as u64),
{
    text::lemma_decimal_digits(n);
    text::lemma_decimal_value(n);
    let s = text::decimal(n);
    let t = dates::padded(n, width);
    if s.len() < width {
        let zeros = Seq::new((width - s.len()) as nat, |i: int| '0');
        lemma_zeros(zeros, s);
    }
    assert(text::is_digit(t[0]));
}

/// No white space in the text.
pub open spec fn solid(s: Seq<char>) -> bool {
    forall|i: int| 0 <= i < s.len() ==> !text::is_space(#[trigger] s[i])
}

proof fn lemma_word_end_at(w: Seq<char>, rest: Seq<char>)
    requires
        solid(w),
        rest.len() == 0 || text::is_space(rest[0]),
    ensures
        split::word_end(w + rest) == w.len(),
    decreases w.len(),
{
    if w.len() > 0 {
        assert(!text::is_space(w[0]));
        assert((w + rest)[0] == w[0]);
        assert((w + rest).drop_first() =~= w.drop_first() + rest);
        assert forall|i: int| 0 <= i < w.drop_first().len() implies !text::is_space(
            #[trigger] w.drop_first()[i],
        ) by {
            assert(w.drop_first()[i] == w[i + 1]);
        }
        lemma_word_end_at(w.drop_first(), rest);
    } else {
        assert(w + rest =~= rest);
    }
}

proof fn lemma_word_step(w: Seq<char>, rest: Seq<char>)
    requires
        solid(w),
        w.len() > 0,
    ensures
        split::words(w + " "@ + rest) == seq![w] + split::words(rest),
{
    reveal_strlit(" ");
    let s = w + " "@ + rest;
    assert(s =~= w + (" "@ + rest));
    assert(!text::is_space(w[0]));
    assert(s[0] == w[0]);
    lemma_word_end_at(w, " "@ + rest);
    assert(s.take(w.len() as int) =~= w);
    assert(s.skip(w.len() as int) =~= " "@ + rest);
    assert((" "@ + rest).drop_first() =~= rest);
    assert(split::words(" "@ + rest) == split::words(rest));
}

proof fn lemma_last_word(w: Seq<char>)
    requires
        solid(w),
        w.len() > 0,
    ensures
        split::words(w) == seq![w],
{
    assert(!text::is_space(w[0]));
    lemma_word_end_at(w, Seq::empty());
    assert(w + Seq::<char>::empty() =~= w);
    assert(w.take(w.len() as int) =~= w);
    assert(w.skip(w.len() as int) =~= Seq::<char>::empty());
    assert(split::words(Seq::<char>::empty()) =~= Seq::<Seq<char>>::empty());
    assert(seq![w] + Seq::<Seq<char>>::empty() =~= seq![w]);
}

proof fn lemma_digits_solid(s: Seq<char>)
    requires
        text::all_digits(s),
    ensures
        solid(s),
        split::free_of(s, ':'),
{
    assert forall|i: int| 0 <= i < s.len() implies !text::is_space(#[trigger] s[i]) && s[i] != ':' by {
        assert(text::is_digit(s[i]));
    }
}

proof fn lemma_colon_step(a: Seq<char>, rest: Seq<char>, from: int)
    requires
        split::free_of(a, ':'),
        a.len() <= usize::MAX,
        0 <= from <= a.len(),
    ensures
        text::first_index(a + ":"@ + rest, ':', from) == Some(a.len() as usize),
    decreases a.len() - from,
{
    reveal_strlit(":");
    let s = a + ":"@ + rest;
    if from < a.len() {
        assert(s[from] == a[from]);
        lemma_colon_step(a, rest, from + 1);
    }
}

proof fn lemma_no_colon(a: Seq<char>, from: int)
    requires
        split::free_of(a, ':'),
        0 <= from,
    ensures
        text::first_index(a, ':', from) is None,
    decreases a.len() - from,
{
    if from < a.len() {
        lemma_no_colon(a, from + 1);
    }
}

proof fn lemma_clock_pieces(a: Seq<char>, b: Seq<char>, c: Seq<char>)
    requires
        split::free_of(a, ':'),
        split::free_of(b, ':'),
        split::free_of(c, ':'),
        a.len() <= usize::MAX,
        b.len() <= usize::MAX,
    ensures
        split::pieces(a + ":"@ + b + ":"@ + c, ':') == seq![a, b, c],
{
    reveal_strlit(":");
    let rest = b + ":"@ + c;
    let s = a + ":"@ + rest;
    assert(s =~= a + ":"@ + b + ":"@ + c);
    lemma_colon_step(a, rest, 0);
    assert(s.take(a.len() as int) =~= a);
    assert(s.skip(a.len() as int + 1) =~= rest);
    lemma_colon_step(b, c, 0);
    assert(rest.take(b.len() as int) =~= b);
    assert(rest.skip(b.len() as int + 1) =~= c);
    lemma_no_colon(c, 0);
    assert(split::pieces(c, ':') =~= seq![c]);
    assert(split::pieces(rest, ':') =~= seq![b, c]);
    assert(split::pieces(s, ':') =~= seq![a, b, c]);
}

proof fn lemma_names()
    ensures
        forall|n: int| solid(#[trigger] dates::weekday(n)) && dates::weekday(n).len() == 3,
        forall|m: int|
            0 <= m < 12 ==> solid(#[trigger] dates::month_name(m)) && dates::month_name(m).len()
                == 3 && dates::month_of(dates::month_name(m)) == Some(m),
{
    reveal_strlit("Thu");
    reveal_strlit("Fri");
    reveal_strlit("Sat");
    reveal_strlit("Sun");
    reveal_strlit("Mon");
    reveal_strlit("Tue");
    reveal_strlit("Wed");
    reveal_strlit("Jan");
    reveal_strlit("Feb");
    reveal_strlit("Mar");
    reveal_strlit("Apr");
    reveal_strlit("May");
    reveal_strlit("Jun");
    reveal_strlit("Jul");
    reveal_strlit("Aug");
    reveal_strlit("Sep");
    reveal_strlit("Oct");
    reveal_strlit("Nov");
    reveal_strlit("Dec");
    assert forall|m: int| 0 <= m < 12 implies dates::month_of(#[trigger] dates::month_name(m))
        == Some(m) by {
        let s = dates::month_name(m);
        assert(s[0] == 'J' || s[0] == 'F' || s[0] == 'M' || s[0] == 'A' || s[0] == 'S' || s[0]
            == 'O' || s[0] == 'N' || s[0] == 'D');
        assert("Jan"@[1] == 'a' && "Jun"@[1] == 'u' && "Jul"@[1] == 'u');
        assert("Jun"@[2] == 'n' && "Jul"@[2] == 'l' && "Jan"@[2] == 'n');
        assert("Mar"@[2] == 'r' && "May"@[2] == 'y');
        assert("Apr"@[1] == 'p' && "Aug"@[1] == 'u');
    }
}

proof fn lemma_short(n: nat)
    requires
        n < 100,
    ensures
        dates::padded(n, 2).len() == 2,
{
    reveal_with_fuel(text::decimal, 3);
}

proof fn lemma_clock(secs: int)
    requires
        0 <= secs,
    ensures
        solid(dates::clock(secs)),
        dates::clock(secs).len() == 8,
        ({
            let rest = secs % 86400;
            let p = split::pieces(dates::clock(secs), ':');
            &&& p.len() == 3
            &&& text::u64_value(p[0]) == Some((rest / 3600) as u64)
            &&& text::u64_value(p[1]) == Some((rest % 3600 / 60) as u64)
            &&& text::u64_value(p[2]) == Some((rest % 60) as u64)
        }),
{
    reveal_strlit(":");
    let rest = secs % 86400;
    let h = (rest / 3600) as nat;
    let mi = (rest % 3600 / 60) as nat;
    let s = (rest % 60) as nat;
    let a = dates::padded(h, 2);
    let b = dates::padded(mi, 2);
    let c = dates::padded(s, 2);
    lemma_padded(h, 2);
    lemma_padded(mi, 2);
    lemma_padded(s, 2);
    lemma_short(h);
    lemma_short(mi);
    lemma_short(s);
    lemma_digits_solid(a);
    lemma_digits_solid(b);
    lemma_digits_solid(c);
    lemma_clock_pieces(a, b, c);
    let time = dates::clock(secs);
    assert forall|i: int| 0 <= i < time.len() implies !text::is_space(#[trigger] time[i]) by {
        if i < 2 {
            assert(time[i] == a[i]);
        } else if i == 2 || i == 5 {
            assert(time[i] == ':');
        } else if i < 5 {
            assert(time[i] == b[i - 3]);
        } else {
            assert(time[i] == c[i - 6]);
        }
    }
}

proof fn lemma_six_words(
    dow: Seq<char>,
    day: Seq<char>,
    mon: Seq<char>,
    year: Seq<char>,
    time: Seq<char>,
)
    requires
        solid(dow) && dow.len() == 3,
        solid(day) && day.len() > 0,
        solid(mon) && mon.len() > 0,
        solid(year) && year.len() > 0,
        solid(time) && time.len() > 0,
    ensures
        ({
            let whole = dow + ", "@ + day + " "@ + mon + " "@ + year + " "@ + time + " GMT"@;
            let parts = split::words(text::trimmed(whole));
            parts.len() == 6 && parts[1] == day && parts[2] == mon && parts[3] == year && parts[4]
                == time
        }),
{
    reveal_strlit(", ");
    reveal_strlit(",");
    reveal_strlit(" ");
    reveal_strlit(" GMT");
    reveal_strlit("GMT");
    let whole = dow + ", "@ + day + " "@ + mon + " "@ + year + " "@ + time + " GMT"@;
    let first = dow + ","@;
    assert forall|i: int| 0 <= i < first.len() implies !text::is_space(#[trigger] first[i]) by {
        if i < 3 {
            assert(first[i] == dow[i]);
        }
    }
    let five = time + " "@ + "GMT"@;
    let four = year + " "@ + five;
    let three = mon + " "@ + four;
    let two = day + " "@ + three;
    let one = first + " "@ + two;
    assert(whole =~= one) by {
        assert(", "@ =~= ","@ + " "@);
        assert(" GMT"@ =~= " "@ + "GMT"@);
    }
    lemma_last_word("GMT"@);
    lemma_word_step(time, "GMT"@);
    lemma_word_step(year, five);
    lemma_word_step(mon, four);
    lemma_word_step(day, three);
    lemma_word_step(first, two);
    assert(text::trimmed(whole) == whole) by {
        assert(whole[0] == dow[0]);
        assert(whole.last() == 'T');
        assert(!text::is_space(dow[0]));
    }
    assert(split::words(whole) =~= seq![first, day, mon, year, time, "GMT"@]);
}

proof fn lemma_year_exists(days: int, from: int) -> (y: int)
    requires
        1970 <= from,
        dates::days_to_year(from) <= days,
    ensures
        1970 <= y,
        dates::days_to_year(y) <= days < dates::days_to_year(y) + dates::year_days(y),
    decreases days - dates::days_to_year(from),
{
    if days < dates::days_to_year(from) + dates::year_days(from) {
        from
    } else {
        lemma_year_exists(days, from + 1)
    }
}

proof fn lemma_month_exists(year: int, rest: int, from: int) -> (m: int)
    requires
        0 <= from < 12,
        dates::days_to_month(year, from) <= rest < dates::year_days(year),
    ensures
        0 <= m < 12,
        dates::days_to_month(year, m) <= rest < dates::days_to_month(year, m)
            + dates::month_length(year, m),
    decreases 12 - from,
{
    dates::lemma_months_fill_year(year);
    if rest < dates::days_to_month(year, from) + dates::month_length(year, from) {
        from
    } else {
        lemma_month_exists(year, rest, from + 1)
    }
}

/// Every moment since the epoch has a date.
pub proof fn law_every_moment_has_a_date(secs: int)
    requires
        0 <= secs,
    ensures
        dates::date_of(dates::date_at(secs), secs),
{
    let days = secs / 86400;
    let year = lemma_year_exists(days, 1970);
    let rest = days - dates::days_to_year(year);
    let month = lemma_month_exists(year, rest, 0);
    let day = rest - dates::days_to_month(year, month) + 1;
    assert(dates::date_of(Date { year, month, day }, secs));
}

/// A moment written as an HTTP date is read back.
pub proof fn law_http_date_round_trip(secs: u64)
    ensures
        dates::http_seconds(dates::http_date(secs as int)) == Some(secs),
{
    let t = secs as int;
    let d = dates::date_at(t);
    law_every_moment_has_a_date(t);
    lemma_names();
    lemma_within_year(d);
    lemma_year_floor(d.year);
    assert(d.year <= u64::MAX);
    let day = dates::padded(d.day as nat, 2);
    let year = dates::padded(d.year as nat, 4);
    lemma_padded(d.day as nat, 2);
    lemma_padded(d.year as nat, 4);
    lemma_digits_solid(day);
    lemma_digits_solid(year);
    lemma_clock(t);
    let dow = dates::weekday(t / 86400);
    let mon = dates::month_name(d.month);
    lemma_six_words(dow, day, mon, year, dates::clock(t));
    let rest = t % 86400;
    assert(dates::moment(
        d.year as u64,
        d.month,
        d.day as u64,
        (rest / 3600) as u64,
        (rest % 3600 / 60) as u64,
        (rest % 60) as u64,
    ) == t);
}

/// The days of the week, from Sunday on.
pub open spec fn week() -> Seq<Seq<char>> {
    seq!["Sun"@, "Mon"@, "Tue"@, "Wed"@, "Thu"@, "Fri"@, "Sat"@]
}

/// The months of the year.
pub open spec fn months() -> Seq<Seq<char>> {
    seq![
        "Jan"@,
        "Feb"@,
        "Mar"@,
        "Apr"@,
        "May"@,
        "Jun"@,
        "Jul"@,
        "Aug"@,
        "Sep"@,
        "Oct"@,
        "Nov"@,
        "Dec"@,
    ]
}

/// Day follows day: the epoch began on the fourth day after a Sunday, and weeks have seven days.
pub proof fn law_day_follows_day(days: int)
    requires
        days >= 0,
    ensures
        dates::weekday(days) == week()[(days + 4) % 7],
{
}

/// Months bear their names, in the order of the year.
pub proof fn law_months_bear_their_names(month: int)
    requires
        0 <= month < 12,
    ensures
        dates::month_name(month) == months()[month],
        dates::month_of(months()[month]) == Some(month),
{
    lemma_names();
    let name = dates::month_name(month);
    assert(name == months()[month]);
    assert(dates::month_of(name) == Some(month));
}

/// A year has a leap day every four years, but for full centuries that are no multiple of four
/// hundred; its months have thirty or thirty-one days, but for February, and fill the year.
pub proof fn law_months_fill_the_year(year: int)
    ensures
        dates::year_days(year) == (if year % 400 == 0 {
            366int
        } else if year % 100 == 0 {
            365
        } else if year % 4 == 0 {
            366
        } else {
            365
        }),
        dates::days_to_month(year, 12) == dates::year_days(year),
        dates::days_to_month(year, 1) == 31,
        dates::days_to_month(year, 2) == 31 + dates::year_days(year) - 337,
        dates::days_to_month(year, 12) - dates::days_to_month(year, 7) == 153,
        dates::days_to_month(year, 7) - dates::days_to_month(year, 2) == 153,
        forall|m: int|
            0 <= m < 12 ==> dates::days_to_month(year, m + 1) - #[trigger] dates::days_to_month(
                year,
                m,
            ) == dates::month_length(year, m),
        forall|m: int|
            #![trigger dates::month_length(year, m)]
            m == 0 || m == 2 || m == 4 || m == 6 || m == 7 || m == 9 || m == 11
                ==> dates::month_length(year, m) == 31,
{
    reveal_with_fuel(dates::days_to_month, 13);
    if year % 400 == 0 {
        assert(year % 4 == 0 && year % 100 == 0);
    }
    if year % 100 == 0 {
        assert(year % 4 == 0);
    }
}

proof fn lemma_two_wide(n: int)
    requires
        0 <= n < 100,
    ensures
        dates::padded(n as nat, 2) == signing_laws::two_digits(n),
{
    reveal_with_fuel(text::decimal, 2);
    assert(dates::padded(n as nat, 2) =~= signing_laws::two_digits(n));
}

proof fn lemma_four_wide(n: int)
    requires
        1000 <= n < 10_000,
    ensures
        dates::padded(n as nat, 4) == signing_laws::four_digits(n),
{
    reveal_with_fuel(text::decimal, 4);
    assert(n / 10 / 10 == n / 100 && n / 10 / 10 / 10 == n / 1000);
    assert(dates::padded(n as nat, 4) =~= signing_laws::four_digits(n));
}

/// A moment is written as its year, month and day, and its hour, minute and second, each with
/// leading zeros; the milliseconds are none, and the time is that of Greenwich.
pub proof fn law_timestamp_tells_the_moment(
    d: Date,
    hour: int,
    minute: int,
    second: int,
)
    requires
        dates::valid(d),
        d.year < 10_000,
        0 <= hour < 24,
        0 <= minute < 60,
        0 <= second < 60,
    ensures
        ({
            let at = dates::day_number(d) * 86_400 + hour * 3_600 + minute * 60 + second;
            dates::timestamp(at) == signing_laws::four_digits(d.year) + "-"@
                + signing_laws::two_digits(d.month + 1) + "-"@ + signing_laws::two_digits(d.day)
                + "T"@ + (signing_laws::two_digits(hour) + ":"@ + signing_laws::two_digits(minute)
                + ":"@ + signing_laws::two_digits(second)) + ".000Z"@
        }),
        ({
            let at = dates::day_number(d) * 86_400 + hour * 3_600 + minute * 60 + second;
            dates::http_date(at) == week()[(dates::day_number(d) + 4) % 7] + ", "@
                + signing_laws::two_digits(d.day) + " "@ + months()[d.month] + " "@
                + signing_laws::four_digits(d.year) + " "@ + (signing_laws::two_digits(hour) + ":"@
                + signing_laws::two_digits(minute) + ":"@ + signing_laws::two_digits(second))
                + " GMT"@
        }),
{
    let n = dates::day_number(d);
    let rest = hour * 3_600 + minute * 60 + second;
    let at = n * 86_400 + rest;
    lemma_within_year(d);
    lemma_year_floor(d.year);
    lemma_month_floor(d.year, d.month);
    assert(0 <= rest < 86_400);
    assert(n >= 0);
    assert(at / 86_400 == n && at % 86_400 == rest);
    law_every_moment_has_a_date(at);
    law_one_date_per_day(dates::date_at(at), d);
    assert(rest / 3600 == hour && rest % 3600 / 60 == minute && rest % 60 == second);
    lemma_two_wide(hour);
    lemma_two_wide(minute);
    lemma_two_wide(second);
    lemma_two_wide(d.day);
    lemma_two_wide(d.month + 1);
    lemma_four_wide(d.year);
    law_day_follows_day(n);
    law_months_bear_their_names(d.month);
}

proof fn lemma_month_floor(year: int, month: int)
    requires
        0 <= month,
    ensures
        dates::days_to_month(year, month) >= 0,
    decreases month,
{
    if month > 0 {
        lemma_month_floor(year, month - 1);
    }
}

} // verus!
