//! The calendar: dates of the proleptic Gregorian calendar, and timestamps as text.

use vstd::prelude::*;
use vstd::string::*;

use crate::text::{
    decimal, decimal_len, decimal_reads_back, numeral_value, repeated,
};

verus! {

/// A day of the calendar.
pub struct Date {
    pub year: int,
    pub month: int,
    pub day: int,
}

pub open spec fn is_leap(year: int) -> bool {
    year % 4 == 0 && (year % 100 != 0 || year % 400 == 0)
}

pub open spec fn year_len(year: int) -> int {
    if is_leap(year) {
        366
    } else {
        365
    }
}

pub open spec fn month_len(year: int, month: int) -> int {
    if month == 2 {
        if is_leap(year) {
            29
        } else {
            28
        }
    } else if month == 4 || month == 6 || month == 9 || month == 11 {
        30
    } else {
        31
    }
}

/// The days of a year before the first of a month.
pub open spec fn days_before_month(year: int, month: int) -> int
    decreases month,
{
    if month <= 1 {
        0
    } else {
        days_before_month(year, month - 1) + month_len(year, month - 1)
    }
}

/// The days from January 1 of year 1 to January 1 of a year.
pub open spec fn days_before_year(year: int) -> int {
    365 * (year - 1) + (year - 1) / 4 - (year - 1) / 100 + (year - 1) / 400
}

pub open spec fn is_date(date: Date) -> bool {
    1 <= date.month <= 12 && 1 <= date.day <= month_len(date.year, date.month)
}

/// The number of a day, counted from January 1, 1970.
pub open spec fn day_number(date: Date) -> int {
    days_before_year(date.year) + days_before_month(date.year, date.month) + date.day - 1 - 719162
}

/// The day with a given number.
pub open spec fn date_of(number: int) -> Date {
    choose|date: Date| is_date(date) && #[trigger] day_number(date) == number
}

/// A number with zeros in front up to `width` digits.
pub open spec fn zero_padded(n: nat, width: nat) -> Seq<char> {
    let digits = decimal(n);
    repeated('0', if digits.len() < width { (width - digits.len()) as nat } else { 0 }) + digits
}

/// A year in four digits, or with a sign and at least four digits outside 0 to 9999.
pub open spec fn year_text(year: int) -> Seq<char> {
    if year < 0 {
        seq!['-'] + zero_padded((-year) as nat, 4)
    } else if year > 9999 {
        seq!['+'] + zero_padded(year as nat, 4)
    } else {
        zero_padded(year as nat, 4)
    }
}

/// A point in time, in seconds since January 1, 1970, as `YYYY-MM-DD hh:mm:ss` in UTC.
pub open spec fn stamp(secs: int) -> Seq<char> {
    let date = date_of(secs / 86400);
    let time = secs % 86400;
    year_text(date.year) + seq!['-'] + zero_padded(date.month as nat, 2) + seq!['-'] + zero_padded(
        date.day as nat,
        2,
    ) + seq![' '] + zero_padded((time / 3600) as nat, 2) + seq![':'] + zero_padded(
        (time / 60 % 60) as nat,
        2,
    ) + seq![':'] + zero_padded((time % 60) as nat, 2)
}

/// The first second of the year -262143.
pub const FIRST_SECOND: i64 = -8334601228800;

/// The last second of the year 262142.
pub const LAST_SECOND: i64 = 8210266876799;

/// The form of a written timestamp.
pub const STAMP_FORMAT: &'static str = "%Y-%m-%d %H:%M:%S";

/// `chrono::DateTime::from_timestamp` gives the UTC time that many seconds after
/// January 1, 1970, where its year is one of -262143 to 262142, and nothing otherwise;
/// `chrono::DateTime::format` writes it by the given format: the year in four digits (with a
/// sign outside 0 to 9999), month, day, hour, minute and second in two.
#[verifier::external_body]
fn format_utc(secs: i64, format: &str) -> (res: Option<String>)
    requires
        format@ == STAMP_FORMAT@,
    ensures
        res is Some <==> FIRST_SECOND <= secs <= LAST_SECOND,
        res matches Some(text) ==> text@ == stamp(secs as int),
{
    match chrono::DateTime::from_timestamp(secs, 0) {
        Some(time) => Some(time.format(format).to_string()),
        None => None,
    }
}

/// The seconds that are written for a timestamp: the start of 1970 stands in for one that is
/// out of range.
pub open spec fn stamp_seconds(secs: int) -> int {
    if FIRST_SECOND <= secs <= LAST_SECOND {
        secs
    } else {
        0
    }
}

/// Writes a timestamp as `YYYY-MM-DD hh:mm:ss` in UTC.
pub fn timestamp_text(secs: i64) -> (res: String)
    ensures
        res@ == stamp(stamp_seconds(secs as int)),
        -8334601228800 <= secs <= 8210266876799 ==> res@ == stamp(secs as int),
        !(-8334601228800 <= secs <= 8210266876799) ==> res@ == stamp(0),
{
    match format_utc(secs, STAMP_FORMAT) {
        Some(text) => text,
        None => match format_utc(0, STAMP_FORMAT) {
            Some(text) => text,
            None => String::new(),
        },
    }
}

proof fn next_fourth(n: int)
    ensures
        n / 4 == (n - 1) / 4 + if n % 4 == 0 {
            1int
        } else {
            0
        },
{
}

proof fn next_hundredth(n: int)
    ensures
        n / 100 == (n - 1) / 100 + if n % 100 == 0 {
            1int
        } else {
            0
        },
{
}

proof fn next_four_hundredth(n: int)
    ensures
        n / 400 == (n - 1) / 400 + if n % 400 == 0 {
            1int
        } else {
            0
        },
{
}

proof fn hundreds_are_fourths(n: int)
    ensures
        n % 100 == 0 ==> n % 4 == 0,
{
    if n % 100 == 0 {
        assert(n == 4 * (25 * (n / 100)));
    }
}

proof fn four_hundreds_are_hundreds(n: int)
    ensures
        n % 400 == 0 ==> n % 100 == 0,
{
    if n % 400 == 0 {
        assert(n == 100 * (4 * (n / 400)));
    }
}

proof fn next_year(year: int)
    ensures
        days_before_year(year + 1) == days_before_year(year) + year_len(year),
{
    next_fourth(year);
    next_hundredth(year);
    next_four_hundredth(year);
    hundreds_are_fourths(year);
    four_hundreds_are_hundreds(year);
}

proof fn months_fill_year(year: int)
    ensures
        days_before_month(year, 12) + month_len(year, 12) == year_len(year),
{
    reveal_with_fuel(days_before_month, 13);
}

proof fn day_exists(number: int)
    ensures
        exists|date: Date| is_date(date) && #[trigger] day_number(date) == number,
    decreases if number < 0 { -number } else { number },
{
    if number == 0 {
        let epoch = Date { year: 1970, month: 1, day: 1 };
        assert(is_date(epoch) && day_number(epoch) == 0);
    } else if number > 0 {
        day_exists(number - 1);
        let d = choose|date: Date| is_date(date) && #[trigger] day_number(date) == number - 1;
        let next = if d.day < month_len(d.year, d.month) {
            Date { year: d.year, month: d.month, day: d.day + 1 }
        } else if d.month < 12 {
            Date { year: d.year, month: d.month + 1, day: 1 }
        } else {
            Date { year: d.year + 1, month: 1, day: 1 }
        };
        months_fill_year(d.year);
        next_year(d.year);
        assert(is_date(next) && day_number(next) == number);
    } else {
        day_exists(number + 1);
        let d = choose|date: Date| is_date(date) && #[trigger] day_number(date) == number + 1;
        let prev = if d.day > 1 {
            Date { year: d.year, month: d.month, day: d.day - 1 }
        } else if d.month > 1 {
            Date { year: d.year, month: d.month - 1, day: month_len(d.year, d.month - 1) }
        } else {
            Date { year: d.year - 1, month: 12, day: 31 }
        };
        months_fill_year(d.year - 1);
        next_year(d.year - 1);
        assert(is_date(prev) && day_number(prev) == number);
    }
}

proof fn months_ordered(year: int, a: int, b: int)
    requires
        1 <= a < b <= 13,
    ensures
        days_before_month(year, a) + month_len(year, a) <= days_before_month(year, b),
    decreases b - a,
{
    if a + 1 < b {
        months_ordered(year, a, b - 1);
    }
}

proof fn months_positive(year: int, month: int)
    ensures
        days_before_month(year, month) >= 0,
    decreases month,
{
    if month > 1 {
        months_positive(year, month - 1);
    }
}

proof fn years_ordered(a: int, b: int)
    requires
        a < b,
    ensures
        days_before_year(a) + year_len(a) <= days_before_year(b),
    decreases b - a,
{
    next_year(b - 1);
    if a + 1 < b {
        years_ordered(a, b - 1);
    }
}

/// Whether one day is before another.
pub open spec fn is_before(a: Date, b: Date) -> bool {
    a.year < b.year || a.year == b.year && (a.month < b.month || a.month == b.month && a.day
        < b.day)
}

/// Day numbers follow the order of the days.
pub proof fn day_number_ordered(a: Date, b: Date)
    requires
        is_date(a),
        is_date(b),
        is_before(a, b),
    ensures
        day_number(a) < day_number(b),
{
    months_positive(b.year, b.month);
    if a.year < b.year {
        years_ordered(a.year, b.year);
        months_fill_year(a.year);
        if a.month < 12 {
            months_ordered(a.year, a.month, 12);
        }
    } else if a.month < b.month {
        months_ordered(a.year, a.month, b.month);
    }
}

/// Every number is the number of exactly one day of the calendar.
pub proof fn date_of_number(number: int)
    ensures
        is_date(date_of(number)),
        day_number(date_of(number)) == number,
        forall|date: Date|
            is_date(date) && #[trigger] day_number(date) == number ==> date == date_of(number),
{
    day_exists(number);
    let found = date_of(number);
    assert forall|date: Date| is_date(date) && #[trigger] day_number(date) == number implies date
        == found by {
        if is_before(date, found) {
            day_number_ordered(date, found);
        } else if is_before(found, date) {
            day_number_ordered(found, date);
        }
    }
}

/// The written range is that of the years -262143 to 262142, and the start of 1970 is in it.
pub proof fn stamp_range()
    ensures
        FIRST_SECOND == 86400 * day_number(Date { year: -262143, month: 1, day: 1 }),
        LAST_SECOND == 86400 * day_number(Date { year: 262142, month: 12, day: 31 }) + 86399,
        stamp_seconds(0) == 0,
        day_number(Date { year: 1970, month: 1, day: 1 }) == 0,
{
    months_fill_year(262142);
}

proof fn zeros_in_front(s: Seq<char>, n: nat)
    ensures
        numeral_value(repeated('0', n) + s) == numeral_value(s),
    decreases s.len() + n,
{
    let all = repeated('0', n) + s;
    if s.len() > 0 {
        zeros_in_front(s.drop_last(), n);
        assert(all.drop_last() =~= repeated('0', n) + s.drop_last());
        assert(all.last() == s.last());
    } else if n > 0 {
        let fewer = (n - 1) as nat;
        zeros_in_front(s, fewer);
        assert(all.drop_last() =~= repeated('0', fewer) + s);
        assert(all.last() == '0');
    } else {
        assert(all =~= s);
    }
}

proof fn two_digits(n: nat)
    requires
        n < 100,
    ensures
        zero_padded(n, 2).len() == 2,
        numeral_value(zero_padded(n, 2)) == n,
{
    decimal_reads_back(n);
    decimal_len(n);
    decimal_len(n / 10);
    let digits = decimal(n);
    zeros_in_front(digits, if digits.len() < 2 { (2 - digits.len()) as nat } else { 0 });
}

proof fn four_digits(n: nat)
    requires
        n < 10000,
    ensures
        zero_padded(n, 4).len() == 4,
        numeral_value(zero_padded(n, 4)) == n,
{
    decimal_reads_back(n);
    decimal_len(n);
    decimal_len(n / 10);
    decimal_len(n / 10 / 10);
    decimal_len(n / 10 / 10 / 10);
    let digits = decimal(n);
    zeros_in_front(digits, if digits.len() < 4 { (4 - digits.len()) as nat } else { 0 });
}

/// A timestamp in a year from 0 to 9999 reads back: year, month, day, hour, minute and second
/// stand in their places, and together they are the seconds since the start of 1970.
pub proof fn stamp_reads_back(secs: int)
    requires
        0 <= date_of(secs / 86400).year <= 9999,
    ensures
        ({
            let text = stamp(secs);
            let date = Date {
                year: numeral_value(text.subrange(0, 4)),
                month: numeral_value(text.subrange(5, 7)),
                day: numeral_value(text.subrange(8, 10)),
            };
            let hour = numeral_value(text.subrange(11, 13));
            let minute = numeral_value(text.subrange(14, 16));
            let second = numeral_value(text.subrange(17, 19));
            &&& text.len() == 19
            &&& text[4] == '-' && text[7] == '-' && text[10] == ' ' && text[13] == ':' && text[16]
                == ':'
            &&& is_date(date)
            &&& 0 <= hour < 24 && 0 <= minute < 60 && 0 <= second < 60
            &&& 86400 * day_number(date) + 3600 * hour + 60 * minute + second == secs
        }),
{
    let date = date_of(secs / 86400);
    let time = secs % 86400;
    let text = stamp(secs);
    date_of_number(secs / 86400);
    let year = zero_padded(date.year as nat, 4);
    let month = zero_padded(date.month as nat, 2);
    let day = zero_padded(date.day as nat, 2);
    let hour = zero_padded((time / 3600) as nat, 2);
    let minute = zero_padded((time / 60 % 60) as nat, 2);
    let second = zero_padded((time % 60) as nat, 2);
    four_digits(date.year as nat);
    two_digits(date.month as nat);
    two_digits(date.day as nat);
    two_digits((time / 3600) as nat);
    two_digits((time / 60 % 60) as nat);
    two_digits((time % 60) as nat);
    assert(text.subrange(0, 4) =~= year);
    assert(text.subrange(5, 7) =~= month);
    assert(text.subrange(8, 10) =~= day);
    assert(text.subrange(11, 13) =~= hour);
    assert(text.subrange(14, 16) =~= minute);
    assert(text.subrange(17, 19) =~= second);
    assert(Date { year: date.year, month: date.month, day: date.day } == date);
    assert(time == 3600 * (time / 3600) + 60 * (time / 60 % 60) + time % 60);
}

/// Seconds in the range are written as they are, and those out of it as the start of 1970.
pub proof fn stamp_seconds_in_range(secs: int)
    ensures
        -8334601228800 <= secs <= 8210266876799 ==> stamp_seconds(secs) == secs,
        !(-8334601228800 <= secs <= 8210266876799) ==> stamp_seconds(secs) == 0,
{
}

} // verus!
