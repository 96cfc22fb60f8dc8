//! Calendar dates and the cutoff dates of the retention windows.
use vstd::prelude::*;
use chrono::{Datelike, Days, NaiveDate};
use crate::text::{decimal, decimal_string, lemma_decimal_len, zero_pad};

verus! {

/// A date of the proleptic Gregorian calendar.
#[derive(Clone, Copy, Debug, PartialEq, Eq)]
pub struct CivilDate {
    pub year: i32,
    pub month: u32,
    pub day: u32,
}

pub open spec fn is_leap(y: int) -> bool {
    y % 4 == 0 && (y % 100 != 0 || y % 400 == 0)
}

pub open spec fn days_in_month(y: int, m: int) -> int {
    if m == 2 {
        if is_leap(y) {
            29
        } else {
            28
        }
    } else if m == 4 || m == 6 || m == 9 || m == 11 {
        30
    } else {
        31
    }
}

/// Days of the year `y` before the first of month `m`.
pub open spec fn days_before_month(y: int, m: int) -> int
    decreases m,
{
    if m <= 1 {
        0
    } else {
        days_before_month(y, m - 1) + days_in_month(y, m - 1)
    }
}

/// Days from 1 January of the year 1 to 1 January of the year `y`.
pub open spec fn days_before_year(y: int) -> int {
    let p = y - 1;
    365 * p + p / 4 - p / 100 + p / 400
}

/// The English three-letter abbreviation of month `m`.
pub open spec fn month_abbr(m: int) -> Seq<char> {
    if m == 1 {
        "Jan"@
    } else if m == 2 {
        "Feb"@
    } else if m == 3 {
        "Mar"@
    } else if m == 4 {
        "Apr"@
    } else if m == 5 {
        "May"@
    } else if m == 6 {
        "Jun"@
    } else if m == 7 {
        "Jul"@
    } else if m == 8 {
        "Aug"@
    } else if m == 9 {
        "Sep"@
    } else if m == 10 {
        "Oct"@
    } else if m == 11 {
        "Nov"@
    } else {
        "Dec"@
    }
}

impl CivilDate {
    /// Month and day name a day of the calendar (of any year).
    pub open spec fn is_calendar_date(self) -> bool {
        &&& 1 <= self.month <= 12
        &&& 1 <= self.day <= days_in_month(self.year as int, self.month as int)
    }

    /// A calendar date whose year has four digits.
    pub open spec fn valid(self) -> bool {
        &&& self.is_calendar_date()
        &&& 1 <= self.year <= 9999
    }

    /// Days since 1 January of the year 1 (negative before it).
    pub open spec fn day_number(self) -> int {
        days_before_year(self.year as int) + days_before_month(self.year as int, self.month as int)
            + self.day - 1
    }

    /// The date literal of the mail protocol: `DD-Mon-YYYY`.
    pub open spec fn literal(self) -> Seq<char> {
        zero_pad(decimal(self.day as nat), 2) + seq!['-'] + month_abbr(self.month as int) + seq![
            '-',
        ] + zero_pad(decimal(self.year as nat), 4)
    }
}

/// The number of days of the four-digit years together.
pub const DAYS_OF_FOUR_DIGIT_YEARS: u32 = 3652059;

/// The date with day number `n`, where there is one.
pub open spec fn date_of(n: int) -> CivilDate {
    choose|e: CivilDate| e.valid() && e.day_number() == n
}

/// A year has 366 days if it is a leap year, else 365.
pub proof fn lemma_year_length(y: int)
    ensures
        days_before_year(y + 1) - days_before_year(y) == if is_leap(y) {
            366int
        } else {
            365int
        },
{
    let p = y - 1;
    assert((p + 1) / 4 - p / 4 == if y % 4 == 0 { 1int } else { 0int });
    assert((p + 1) / 100 - p / 100 == if y % 100 == 0 { 1int } else { 0int });
    assert((p + 1) / 400 - p / 400 == if y % 400 == 0 { 1int } else { 0int });
}

proof fn lemma_month_offsets(y: int, m: int)
    requires
        1 <= m <= 12,
    ensures
        0 <= days_before_month(y, m),
        days_before_month(y, m + 1) == days_before_month(y, m) + days_in_month(y, m),
        days_before_month(y, m) + days_in_month(y, m) <= days_before_year(y + 1)
            - days_before_year(y),
{
    reveal_with_fuel(days_before_month, 13);
    lemma_year_length(y);
}

proof fn lemma_within_year(d: CivilDate)
    requires
        d.is_calendar_date(),
    ensures
        days_before_year(d.year as int) <= d.day_number() < days_before_year(d.year + 1),
{
    lemma_month_offsets(d.year as int, d.month as int);
}

proof fn lemma_years_ascend(a: int, b: int)
    requires
        a <= b,
    ensures
        days_before_year(a) <= days_before_year(b),
    decreases b - a,
{
    if a < b {
        lemma_year_length(a);
        lemma_years_ascend(a + 1, b);
    }
}

proof fn lemma_months_ascend(y: int, a: int, b: int)
    requires
        1 <= a <= b <= 12,
    ensures
        days_before_month(y, a) <= days_before_month(y, b),
        a < b ==> days_before_month(y, a) + days_in_month(y, a) <= days_before_month(y, b),
    decreases b - a,
{
    if a < b {
        lemma_month_offsets(y, a);
        if a + 1 < b {
            lemma_months_ascend(y, a + 1, b);
        }
    }
}

/// Two calendar dates with the same day number are the same date.
pub proof fn lemma_day_number_injective(a: CivilDate, b: CivilDate)
    requires
        a.is_calendar_date(),
        b.is_calendar_date(),
        a.day_number() == b.day_number(),
    ensures
        a == b,
{
    lemma_within_year(a);
    lemma_within_year(b);
    if a.year < b.year {
        lemma_years_ascend(a.year + 1, b.year as int);
    } else if b.year < a.year {
        lemma_years_ascend(b.year + 1, a.year as int);
    } else if a.month < b.month {
        lemma_months_ascend(a.year as int, a.month as int, b.month as int);
    } else if b.month < a.month {
        lemma_months_ascend(a.year as int, b.month as int, a.month as int);
    }
}

/// A calendar date lies in the year 1 or later exactly when its day number
/// is not negative, and in the year 9999 or earlier exactly when its day
/// number is below the days of all four-digit years.
pub proof fn lemma_day_number_range(d: CivilDate)
    requires
        d.is_calendar_date(),
    ensures
        d.year >= 1 <==> d.day_number() >= 0,
        d.year <= 9999 <==> d.day_number() < DAYS_OF_FOUR_DIGIT_YEARS,
{
    lemma_within_year(d);
    if d.year >= 1 {
        lemma_years_ascend(1, d.year as int);
    } else {
        lemma_years_ascend(d.year + 1, 1);
    }
    if d.year <= 9999 {
        lemma_years_ascend(d.year + 1, 10000);
    } else {
        lemma_years_ascend(10000, d.year as int);
    }
}

/// Each date is the date of its own day number.
pub proof fn lemma_date_of_day_number(d: CivilDate)
    requires
        d.valid(),
    ensures
        date_of(d.day_number()) == d,
{
    let e = date_of(d.day_number());
    assert(e.valid() && e.day_number() == d.day_number());
    lemma_day_number_injective(d, e);
}

/// Relies on chrono's `NaiveDate::from_ymd_opt`, `NaiveDate::checked_sub_days`
/// and the `Datelike` getters: on the proleptic Gregorian calendar, the date
/// `n` days before `d`, which exists for every `n` up to some 95 million days
/// back from the year 1.
#[verifier::external_body]
fn sub_days(d: CivilDate, n: u32) -> (r: Option<CivilDate>)
    requires
        d.valid(),
        n <= DAYS_OF_FOUR_DIGIT_YEARS,
    ensures
        r.is_some(),
        r.unwrap().is_calendar_date(),
        r.unwrap().day_number() == d.day_number() - n,
{
    NaiveDate::from_ymd_opt(d.year, d.month, d.day).and_then(
        |x| x.checked_sub_days(Days::new(n as u64)),
    ).map(|x| CivilDate { year: x.year(), month: x.month(), day: x.day() })
}


fn month_abbrev(m: u32) -> (r: &'static str)
    requires
        1 <= m <= 12,
    ensures
        r@ == month_abbr(m as int),
{
    if m == 1 {
        "Jan"
    } else if m == 2 {
        "Feb"
    } else if m == 3 {
        "Mar"
    } else if m == 4 {
        "Apr"
    } else if m == 5 {
        "May"
    } else if m == 6 {
        "Jun"
    } else if m == 7 {
        "Jul"
    } else if m == 8 {
        "Aug"
    } else if m == 9 {
        "Sep"
    } else if m == 10 {
        "Oct"
    } else if m == 11 {
        "Nov"
    } else {
        "Dec"
    }
}

/// Writes a date as the mail protocol's date literal: two-digit day, English
/// three-letter month, four-digit year, joined by `-` (`05-Feb-2024`).
pub fn date_literal(d: &CivilDate) -> (r: String)
    requires
        d.valid(),
    ensures
        r@ == d.literal(),
{
    let ghost day = decimal(d.day as nat);
    let ghost year = decimal(d.year as nat);
    proof {
        lemma_decimal_len(d.day as nat);
        lemma_decimal_len(d.year as nat);
        reveal_strlit("0");
        reveal_strlit("00");
        reveal_strlit("000");
        reveal_strlit("-");
    }
    let mut s = String::new();
    if d.day < 10 {
        s.append("0");
    }
    let t = decimal_string(d.day);
    s.append(t.as_str());
    assert(s@ =~= zero_pad(day, 2));
    s.append("-");
    s.append(month_abbrev(d.month));
    s.append("-");
    let ghost head = s@;
    let y = d.year as u32;
    if y < 10 {
        s.append("000");
    } else if y < 100 {
        s.append("00");
    } else if y < 1000 {
        s.append("0");
    }
    let t = decimal_string(y);
    s.append(t.as_str());
    assert(s@ =~= head + zero_pad(year, 4));
    s
}

/// The date `days` days before `now`, if it still has a four-digit year.
pub fn cutoff_date(now: &CivilDate, days: u32) -> (r: Option<CivilDate>)
    requires
        now.valid(),
    ensures
        r is Some <==> days <= now.day_number(),
        r matches Some(e) ==> e == date_of(now.day_number() - days) && e.valid()
            && e.day_number() == now.day_number() - days,
{
    proof {
        lemma_day_number_range(*now);
    }
    if days >= DAYS_OF_FOUR_DIGIT_YEARS {
        return None;
    }
    let e = sub_days(*now, days).unwrap();
    proof {
        lemma_day_number_range(e);
    }
    if e.year < 1 {
        None
    } else {
        proof {
            lemma_date_of_day_number(e);
        }
        Some(e)
    }
}

/// The cutoff `days` days before `now` as a date literal, if that date
/// still has a four-digit year.
pub fn threshold(now: &CivilDate, days: u32) -> (r: Option<String>)
    requires
        now.valid(),
    ensures
        r is Some <==> days <= now.day_number(),
        r matches Some(s) ==> s@ == date_of(now.day_number() - days).literal(),
{
    match cutoff_date(now, days) {
        Some(e) => Some(date_literal(&e)),
        None => None,
    }
}


/// The cutoff `days` days before `now` is the calendar date whose day
/// number is exactly `days` lower, and its literal is that date's; with no
/// offset the cutoff is `now` itself.
pub proof fn lemma_cutoff_days_earlier(now: CivilDate, earlier: CivilDate, days: int)
    requires
        now.valid(),
        earlier.valid(),
        earlier.day_number() == now.day_number() - days,
    ensures
        date_of(now.day_number() - days) == earlier,
        date_of(now.day_number() - days).literal() == earlier.literal(),
        date_of(now.day_number() - 0) == now,
{
    lemma_date_of_day_number(earlier);
    lemma_date_of_day_number(now);
}

} // verus!
