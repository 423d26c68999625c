//! Calendar dates with a four-digit year, as they appear in archive paths.

use chrono::{Datelike, NaiveDate};
use vstd::prelude::*;

verus! {

/// Whether `year` is a leap year of the proleptic Gregorian calendar.
pub open spec fn is_leap_year(year: int) -> bool {
    year % 4 == 0 && (year % 100 != 0 || year % 400 == 0)
}

/// The number of days of `month` in `year`.
pub open spec fn days_in_month(year: int, month: int) -> int {
    if month == 2 {
        if is_leap_year(year) {
            29
        } else {
            28
        }
    } else if month == 4 || month == 6 || month == 9 || month == 11 {
        30
    } else {
        31
    }
}

/// Whether the three numbers name a day of the calendar in the years 0 to 9999.
pub open spec fn is_calendar_date(year: int, month: int, day: int) -> bool {
    &&& 0 <= year <= 9999
    &&& 1 <= month <= 12
    &&& 1 <= day <= days_in_month(year, month)
}

/// The day after `(year, month, day)`.
pub open spec fn next_day(ymd: (int, int, int)) -> (int, int, int) {
    let (year, month, day) = ymd;
    if day < days_in_month(year, month) {
        (year, month, day + 1)
    } else if month < 12 {
        (year, month + 1, 1)
    } else {
        (year + 1, 1, 1)
    }
}

/// The day that lies `n` days after `ymd`.
pub open spec fn days_after(ymd: (int, int, int), n: nat) -> (int, int, int)
    decreases n,
{
    if n == 0 {
        ymd
    } else {
        next_day(days_after(ymd, (n - 1) as nat))
    }
}

/// Chronological order: `a` is the same day as `b` or an earlier one.
pub open spec fn on_or_before(a: (int, int, int), b: (int, int, int)) -> bool {
    a.0 < b.0 || (a.0 == b.0 && (a.1 < b.1 || (a.1 == b.1 && a.2 <= b.2)))
}

/// The number of days in the years before `year`, counted from year 0.
pub open spec fn days_before_year(year: int) -> int {
    365 * year + (year + 3) / 4 - (year + 99) / 100 + (year + 399) / 400
}

/// The number of days of `year` before the first of `month`.
pub open spec fn days_before_month(year: int, month: int) -> int
    decreases month,
{
    if month <= 1 {
        0
    } else {
        days_before_month(year, month - 1) + days_in_month(year, month - 1)
    }
}

/// The position of a day on the time line: 1 for the first of January of year 0,
/// and one more for each following day.
pub open spec fn day_number(ymd: (int, int, int)) -> int {
    days_before_year(ymd.0) + days_before_month(ymd.0, ymd.1) + ymd.2
}

/// The character that writes the decimal digit `n`.
pub open spec fn digit_char(n: int) -> char {
    (n + 48) as char
}

/// Whether `c` is one of the ten ASCII digits.
pub open spec fn is_digit(c: char) -> bool {
    '0' <= c <= '9'
}

/// The value of the ASCII digit `c`.
pub open spec fn digit_value(c: char) -> int {
    c as int - 48
}

/// A date written as `YYYY-MM-DD`.
pub open spec fn iso_text(ymd: (int, int, int)) -> Seq<char> {
    let (y, m, d) = ymd;
    seq![
        digit_char(y / 1000),
        digit_char(y / 100 % 10),
        digit_char(y / 10 % 10),
        digit_char(y % 10),
        '-',
        digit_char(m / 10),
        digit_char(m % 10),
        '-',
        digit_char(d / 10),
        digit_char(d % 10),
    ]
}

/// A date written as `YYYYMMDD`.
pub open spec fn compact_text(ymd: (int, int, int)) -> Seq<char> {
    let (y, m, d) = ymd;
    seq![
        digit_char(y / 1000),
        digit_char(y / 100 % 10),
        digit_char(y / 10 % 10),
        digit_char(y % 10),
        digit_char(m / 10),
        digit_char(m % 10),
        digit_char(d / 10),
        digit_char(d % 10),
    ]
}

/// Whether `t` has the shape `dddd-dd-dd`, each `d` an ASCII digit.
pub open spec fn is_iso_shape(t: Seq<char>) -> bool {
    &&& t.len() == 10
    &&& is_digit(t[0]) && is_digit(t[1]) && is_digit(t[2]) && is_digit(t[3])
    &&& t[4] == '-'
    &&& is_digit(t[5]) && is_digit(t[6])
    &&& t[7] == '-'
    &&& is_digit(t[8]) && is_digit(t[9])
}

/// The three numbers that a text of the shape `dddd-dd-dd` writes.
pub open spec fn iso_numbers(t: Seq<char>) -> (int, int, int) {
    (
        digit_value(t[0]) * 1000 + digit_value(t[1]) * 100 + digit_value(t[2]) * 10 + digit_value(
            t[3],
        ),
        digit_value(t[5]) * 10 + digit_value(t[6]),
        digit_value(t[8]) * 10 + digit_value(t[9]),
    )
}

/// The date that `t` writes: `t` has the shape `dddd-dd-dd` and names a day of
/// the calendar.
pub open spec fn date_of_text(t: Seq<char>) -> Option<(int, int, int)> {
    if is_iso_shape(t) && is_calendar_date(iso_numbers(t).0, iso_numbers(t).1, iso_numbers(t).2) {
        Some(iso_numbers(t))
    } else {
        None
    }
}

/// A calendar date between 0000-01-01 and 9999-12-31.
#[derive(Clone, Copy, Debug, PartialEq, Eq, Structural, PartialOrd, Ord, Hash)]
pub struct Date {
    year: i32,
    month: u32,
    day: u32,
}

impl View for Date {
    type V = (int, int, int);

    /// Year, month and day.
    closed spec fn view(&self) -> (int, int, int) {
        (self.year as int, self.month as int, self.day as int)
    }
}

/// `chrono::NaiveDate::from_ymd_opt`, with the date handed back as its three
/// numbers. For a year from 0 to 9999 chrono accepts exactly the days of the
/// proleptic Gregorian calendar.
#[verifier::external_body]
fn chrono_from_ymd(year: i32, month: u32, day: u32) -> (r: Option<(i32, u32, u32)>)
    requires
        0 <= year <= 9999,
    ensures
        r == if is_calendar_date(year as int, month as int, day as int) {
            Some((year, month, day))
        } else {
            None
        },
{
    NaiveDate::from_ymd_opt(year, month, day).map(|d| (d.year(), d.month(), d.day()))
}

/// `chrono::NaiveDate::succ_opt`: the next calendar date. chrono has one for
/// every date but the last that it can hold, which lies far after the year
/// 9999.
#[verifier::external_body]
fn chrono_succ(year: i32, month: u32, day: u32) -> (r: Option<(i32, u32, u32)>)
    requires
        is_calendar_date(year as int, month as int, day as int),
    ensures
        match r {
            Some(n) => (n.0 as int, n.1 as int, n.2 as int) == next_day(
                (year as int, month as int, day as int),
            ),
            None => false,
        },
{
    NaiveDate::from_ymd_opt(year, month, day).unwrap().succ_opt().map(
        |d| (d.year(), d.month(), d.day()),
    )
}

/// `chrono::NaiveDate::format` with one of the patterns `%Y-%m-%d` and
/// `%Y%m%d`: year, month and day in decimal, padded with zeros to four, two and
/// two digits.
#[verifier::external_body]
fn chrono_format(year: i32, month: u32, day: u32, pattern: &str) -> (r: String)
    requires
        is_calendar_date(year as int, month as int, day as int),
        pattern@ == "%Y-%m-%d"@ || pattern@ == "%Y%m%d"@,
    ensures
        pattern@ == "%Y-%m-%d"@ ==> r@ == iso_text((year as int, month as int, day as int)),
        pattern@ == "%Y%m%d"@ ==> r@ == compact_text((year as int, month as int, day as int)),
{
    NaiveDate::from_ymd_opt(year, month, day).unwrap().format(pattern).to_string()
}

/// `str::parse::<chrono::NaiveDate>` on a text of the shape `dddd-dd-dd`: the
/// date with these numbers, where the calendar has it.
#[verifier::external_body]
fn chrono_parse(token: &str) -> (r: Option<(i32, u32, u32)>)
    requires
        is_iso_shape(token@),
    ensures
        match r {
            Some(n) => date_of_text(token@) == Some((n.0 as int, n.1 as int, n.2 as int)),
            None => date_of_text(token@) is None,
        },
{
    token.parse::<NaiveDate>().ok().map(|d| (d.year(), d.month(), d.day()))
}

/// Whether `token` has the shape `dddd-dd-dd`.
fn has_iso_shape(token: &str) -> (b: bool)
    ensures
        b == is_iso_shape(token@),
{
    if token.unicode_len() != 10 {
        return false;
    }
    let mut i: usize = 0;
    while i < 10
        invariant
            i <= 10,
            token@.len() == 10,
            forall|k: int|
                0 <= k < i ==> if k == 4 || k == 7 {
                    token@[k] == '-'
                } else {
                    is_digit(#[trigger] token@[k])
                },
        decreases 10 - i,
    {
        let c = token.get_char(i);
        let fits = if i == 4 || i == 7 {
            c == '-'
        } else {
            '0' <= c && c <= '9'
        };
        if !fits {
            return false;
        }
        i += 1;
    }
    true
}

/// The date with the numbers `ymd`.
pub closed spec fn date_of(ymd: (int, int, int)) -> Date {
    Date { year: ymd.0 as i32, month: ymd.1 as u32, day: ymd.2 as u32 }
}

impl Date {
    /// Every `Date` is a day of the calendar.
    #[verifier::type_invariant]
    pub closed spec fn is_valid(self) -> bool {
        is_calendar_date(self.year as int, self.month as int, self.day as int)
    }

    /// The date with the given numbers, if the calendar has such a day in the
    /// years 0 to 9999.
    pub fn from_ymd_opt(year: i32, month: u32, day: u32) -> (r: Option<Date>)
        ensures
            r is Some <==> is_calendar_date(year as int, month as int, day as int),
            r matches Some(d) ==> d@ == (year as int, month as int, day as int) && d.is_valid(),
    {
        if year < 0 || year > 9999 {
            return None;
        }
        match chrono_from_ymd(year, month, day) {
            Some(n) => Some(Date { year: n.0, month: n.1, day: n.2 }),
            None => None,
        }
    }

    /// The date that `token` writes as `YYYY-MM-DD`, if it writes one.
    pub fn parse_iso(token: &str) -> (r: Option<Date>)
        ensures
            r is Some <==> date_of_text(token@) is Some,
            r matches Some(d) ==> Some(d@) == date_of_text(token@) && d.is_valid(),
    {
        if !has_iso_shape(token) {
            return None;
        }
        match chrono_parse(token) {
            Some(n) => Some(Date { year: n.0, month: n.1, day: n.2 }),
            None => None,
        }
    }

    /// The following day, if it lies before the year 10000.
    pub fn succ_opt(&self) -> (r: Option<Date>)
        ensures
            r is Some <==> self@ != (9999int, 12int, 31int),
            r matches Some(d) ==> d@ == next_day(self@) && d.is_valid(),
    {
        proof {
            use_type_invariant(self);
        }
        match chrono_succ(self.year, self.month, self.day) {
            Some(n) => {
                if n.0 > 9999 {
                    None
                } else {
                    Some(Date { year: n.0, month: n.1, day: n.2 })
                }
            },
            None => None,
        }
    }

    /// Whether `self` is the same day as `other` or an earlier one.
    pub fn on_or_before(&self, other: &Date) -> (b: bool)
        ensures
            b == on_or_before(self@, other@),
    {
        self.year < other.year || (self.year == other.year && (self.month < other.month || (
        self.month == other.month && self.day <= other.day)))
    }

    /// The date written as `YYYY-MM-DD`.
    pub fn iso_string(&self) -> (s: String)
        ensures
            s@ == iso_text(self@),
    {
        proof {
            use_type_invariant(self);
        }
        chrono_format(self.year, self.month, self.day, "%Y-%m-%d")
    }

    /// The date written as `YYYYMMDD`.
    pub fn compact_string(&self) -> (s: String)
        ensures
            s@ == compact_text(self@),
    {
        proof {
            use_type_invariant(self);
        }
        chrono_format(self.year, self.month, self.day, "%Y%m%d")
    }

    /// The year, from 0 to 9999.
    pub fn year(&self) -> (y: i32)
        ensures
            y == self@.0,
    {
        self.year
    }

    /// The month, from 1 to 12.
    pub fn month(&self) -> (m: u32)
        ensures
            m == self@.1,
    {
        self.month
    }

    /// The day of the month, from 1.
    pub fn day(&self) -> (d: u32)
        ensures
            d == self@.2,
    {
        self.day
    }
}

/// A date is the date of its numbers.
pub proof fn lemma_date_of_view(d: Date)
    ensures
        date_of(d@) == d,
{
}

/// The date of three numbers of the calendar has these numbers.
pub proof fn lemma_view_of_date(ymd: (int, int, int))
    requires
        is_calendar_date(ymd.0, ymd.1, ymd.2),
    ensures
        date_of(ymd)@ == ymd,
        date_of(ymd).is_valid(),
{
}

/// The numbers of a date name a day of the calendar.
pub proof fn lemma_date_is_calendar_date(d: Date)
    requires
        d.is_valid(),
    ensures
        is_calendar_date(d@.0, d@.1, d@.2),
{
}

/// No day lies between a day and the next: a day before `b` is followed by a
/// day that is `b` or before `b`.
pub proof fn lemma_next_day_is_next(a: (int, int, int), b: (int, int, int))
    requires
        is_calendar_date(a.0, a.1, a.2),
        is_calendar_date(b.0, b.1, b.2),
        on_or_before(a, b),
        a != b,
    ensures
        on_or_before(next_day(a), b),
        a != (9999int, 12int, 31int),
{
}

/// Two dates with the same numbers are the same date.
pub proof fn lemma_date_view_injective(a: Date, b: Date)
    requires
        a@ == b@,
    ensures
        a == b,
{
}

/// The day after a day of the calendar is a day of the calendar, unless the
/// year 10000 begins with it.
pub proof fn lemma_next_day_is_calendar_date(ymd: (int, int, int))
    requires
        is_calendar_date(ymd.0, ymd.1, ymd.2),
        ymd != (9999int, 12int, 31int),
    ensures
        is_calendar_date(next_day(ymd).0, next_day(ymd).1, next_day(ymd).2),
{
}

/// From one day to the next the day number grows by one.
pub proof fn lemma_next_day_number(ymd: (int, int, int))
    requires
        is_calendar_date(ymd.0, ymd.1, ymd.2),
    ensures
        day_number(next_day(ymd)) == day_number(ymd) + 1,
{
    reveal_with_fuel(days_before_month, 13);
}

/// After `n` days the day number has grown by `n`, as long as the days stay
/// within the years 0 to 9999.
pub proof fn lemma_days_after_number(ymd: (int, int, int), n: nat)
    requires
        is_calendar_date(ymd.0, ymd.1, ymd.2),
        day_number(ymd) + n <= day_number((9999, 12, 31)),
    ensures
        is_calendar_date(days_after(ymd, n).0, days_after(ymd, n).1, days_after(ymd, n).2),
        day_number(days_after(ymd, n)) == day_number(ymd) + n,
    decreases n,
{
    if n > 0 {
        let before = days_after(ymd, (n - 1) as nat);
        lemma_days_after_number(ymd, (n - 1) as nat);
        lemma_day_number_order(before, (9999, 12, 31));
        lemma_next_day_is_calendar_date(before);
        lemma_next_day_number(before);
    }
}

/// The days of a year before each of its months.
proof fn lemma_days_before_month_values(year: int, month: int)
    requires
        1 <= month <= 12,
    ensures
        days_before_month(year, month) == (if month == 1 {
            0int
        } else if month == 2 {
            31
        } else if month == 3 {
            59
        } else if month == 4 {
            90
        } else if month == 5 {
            120
        } else if month == 6 {
            151
        } else if month == 7 {
            181
        } else if month == 8 {
            212
        } else if month == 9 {
            243
        } else if month == 10 {
            273
        } else if month == 11 {
            304
        } else {
            334
        }) + (if month > 2 && is_leap_year(year) {
            1int
        } else {
            0
        }),
{
    reveal_with_fuel(days_before_month, 13);
}

/// The day number orders the days of the calendar as the calendar does.
pub proof fn lemma_day_number_order(a: (int, int, int), b: (int, int, int))
    requires
        is_calendar_date(a.0, a.1, a.2),
        is_calendar_date(b.0, b.1, b.2),
    ensures
        on_or_before(a, b) <==> day_number(a) <= day_number(b),
        a == b <==> day_number(a) == day_number(b),
{
    lemma_days_before_month_values(a.0, a.1);
    lemma_days_before_month_values(b.0, b.1);
    if a.0 < b.0 {
        lemma_days_before_year_grows(a.0, b.0);
    }
    if b.0 < a.0 {
        lemma_days_before_year_grows(b.0, a.0);
    }
}

/// A year has 365 or 366 days, so a later year begins at least 365 days later.
proof fn lemma_days_before_year_grows(y1: int, y2: int)
    requires
        0 <= y1 < y2,
    ensures
        days_before_year(y2) - days_before_year(y1) >= 366 || (days_before_year(y2)
            - days_before_year(y1) == 365 && !is_leap_year(y1)),
    decreases y2 - y1,
{
    if y1 + 1 < y2 {
        lemma_days_before_year_grows(y1 + 1, y2);
    }
}

/// A digit's character is a digit, and has the digit as its value.
proof fn lemma_digit_char(n: int)
    requires
        0 <= n <= 9,
    ensures
        is_digit(digit_char(n)),
        digit_value(digit_char(n)) == n,
{
}

/// The four decimal digits of a number below 10000, and the two of one below 100.
proof fn lemma_decimal_digits(n: int)
    requires
        0 <= n <= 9999,
    ensures
        0 <= n / 1000 <= 9,
        0 <= n / 100 % 10 <= 9,
        0 <= n / 10 % 10 <= 9,
        0 <= n % 10 <= 9,
        n == (n / 1000) * 1000 + (n / 100 % 10) * 100 + (n / 10 % 10) * 10 + n % 10,
        n <= 99 ==> 0 <= n / 10 <= 9 && n == (n / 10) * 10 + n % 10,
{
    let tens = n / 10;
    let hundreds = n / 100;
    let thousands = n / 1000;
    assert(n == tens * 10 + n % 10);
    assert(hundreds == tens / 10);
    assert(tens == hundreds * 10 + tens % 10);
    assert(thousands == hundreds / 10);
    assert(hundreds == thousands * 10 + hundreds % 10);
}

/// Reading a date that was written as `YYYY-MM-DD` gives the date back.
pub proof fn lemma_iso_text_round_trip(ymd: (int, int, int))
    requires
        is_calendar_date(ymd.0, ymd.1, ymd.2),
    ensures
        is_iso_shape(iso_text(ymd)),
        date_of_text(iso_text(ymd)) == Some(ymd),
{
    let (y, m, d) = ymd;
    let t = iso_text(ymd);
    lemma_decimal_digits(y);
    lemma_decimal_digits(m);
    lemma_decimal_digits(d);
    lemma_digit_char(y / 1000);
    lemma_digit_char(y / 100 % 10);
    lemma_digit_char(y / 10 % 10);
    lemma_digit_char(y % 10);
    lemma_digit_char(m / 10);
    lemma_digit_char(m % 10);
    lemma_digit_char(d / 10);
    lemma_digit_char(d % 10);
    assert(is_iso_shape(t));
    assert(iso_numbers(t) == ymd);
}

} // verus!
