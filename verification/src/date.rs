//! Calendar dates: the `DATE` answer and the dates of `NEWGROUPS` and `NEWNEWS`.
use crate::bytes;
use crate::bytes::only_digits;
use crate::responses::CRLF;
use vstd::prelude::*;
use vstd::string::StringSliceAdditionalSpecFns;

verus! {

/// A date later than any article or group: queries from here on find nothing.
pub const FAR_FUTURE_DATE_KEY: u32 = 99_991_231;

/// A year, a month from 1 and a day of the month from 1.
pub struct CivilDate {
    pub year: u64,
    pub month: u32,
    pub day: u32,
}

pub open spec fn is_leap_year(year: int) -> bool {
    year % 4 == 0 && (year % 100 != 0 || year % 400 == 0)
}

pub open spec fn days_in_month(year: int, month: int) -> int {
    if month == 2 {
        if is_leap_year(year) {
            29
        } else {
            28
        }
    } else if month == 4 || month == 6 || month == 9 || month == 11 {
        30
    } else {
        31
    }
}

/// The days of the Gregorian calendar from the start of year 1 to the start of `year`.
#[verifier::opaque]
pub open spec fn days_before_year(year: int) -> int {
    365 * (year - 1) + (year - 1) / 4 - (year - 1) / 100 + (year - 1) / 400
}

/// The days of `year` before the first day of `month`.
pub open spec fn days_before_month(year: int, month: int) -> int
    decreases month,
{
    if month <= 1 {
        0
    } else {
        days_before_month(year, month - 1) + days_in_month(year, month - 1)
    }
}

/// The date exists in the Gregorian calendar.
pub open spec fn is_date(year: int, month: int, day: int) -> bool {
    1 <= month <= 12 && 1 <= day <= days_in_month(year, month)
}

/// The days from 1970-01-01 to the date.
pub open spec fn unix_day(year: int, month: int, day: int) -> int {
    days_before_year(year) - days_before_year(1970) + days_before_month(year, month) + day - 1
}

/// The cumulated month lengths as numbers.
proof fn lemma_days_before_month(year: int)
    ensures
        days_before_month(year, 1) == 0,
        days_before_month(year, 2) == 31,
        days_before_month(year, 3) == 59 + (if is_leap_year(year) {
            1int
        } else {
            0int
        }),
        days_before_month(year, 4) == days_before_month(year, 3) + 31,
        days_before_month(year, 5) == days_before_month(year, 3) + 61,
        days_before_month(year, 6) == days_before_month(year, 3) + 92,
        days_before_month(year, 7) == days_before_month(year, 3) + 122,
        days_before_month(year, 8) == days_before_month(year, 3) + 153,
        days_before_month(year, 9) == days_before_month(year, 3) + 184,
        days_before_month(year, 10) == days_before_month(year, 3) + 214,
        days_before_month(year, 11) == days_before_month(year, 3) + 245,
        days_before_month(year, 12) == days_before_month(year, 3) + 275,
{
    reveal_with_fuel(days_before_month, 13);
}

/// A quotient grows by one exactly at the multiples of the divisor.
proof fn lemma_quotient_step(value: int, divisor: int)
    by (nonlinear_arith)
    requires
        divisor > 0,
    ensures
        value / divisor - (value - 1) / divisor == (if value % divisor == 0 {
            1int
        } else {
            0int
        }),
{
}

/// A multiple of 400 is one of 100, and a multiple of 100 is one of 4.
proof fn lemma_century_multiples(value: int)
    ensures
        value % 400 == 0 ==> value % 100 == 0,
        value % 100 == 0 ==> value % 4 == 0,
{
}

/// A year has 365 days, a leap year one more.
proof fn lemma_year_length(year: int)
    ensures
        days_before_year(year + 1) == days_before_year(year) + 365 + (if is_leap_year(year) {
            1int
        } else {
            0int
        }),
{
    reveal(days_before_year);
    lemma_quotient_step(year, 4);
    lemma_quotient_step(year, 100);
    lemma_quotient_step(year, 400);
    lemma_century_multiples(year);
}

proof fn lemma_years_ordered(low: int, high: int)
    requires
        low <= high,
    ensures
        days_before_year(low) + 365 * (high - low) <= days_before_year(high),
    decreases high - low,
{
    if low < high {
        lemma_years_ordered(low, high - 1);
        lemma_year_length(high - 1);
    }
}

/// A date of a year lies before the start of the next year.
proof fn lemma_day_of_year(year: int, month: int, day: int)
    requires
        is_date(year, month, day),
    ensures
        0 <= days_before_month(year, month) + day - 1 < days_before_year(year + 1)
            - days_before_year(year),
{
    lemma_days_before_month(year);
    lemma_year_length(year);
}

/// No two dates of the calendar have the same number: the number of a date fixes it.
pub proof fn law_unix_day_is_injective(
    year: int,
    month: int,
    day: int,
    other_year: int,
    other_month: int,
    other_day: int,
)
    requires
        is_date(year, month, day),
        is_date(other_year, other_month, other_day),
        unix_day(year, month, day) == unix_day(other_year, other_month, other_day),
    ensures
        year == other_year,
        month == other_month,
        day == other_day,
{
    lemma_day_of_year(year, month, day);
    lemma_day_of_year(other_year, other_month, other_day);
    if year < other_year {
        lemma_years_ordered(year + 1, other_year);
    }
    if other_year < year {
        lemma_years_ordered(other_year + 1, year);
    }
    lemma_days_before_month(year);
}

/// The year of the 400-year cycle that a day of the cycle lies in, both counted from the first
/// of March.
proof fn lemma_year_of_era(doe: int, yoe: int)
    requires
        0 <= doe <= 146_096,
        yoe == (doe - doe / 1_460 + doe / 36_524 - doe / 146_096) / 365,
    ensures
        0 <= yoe <= 399,
        0 <= doe - (365 * yoe + yoe / 4 - yoe / 100) <= 365,
        doe - (365 * yoe + yoe / 4 - yoe / 100) == 365 ==> (yoe + 1) % 4 == 0 && ((yoe + 1) % 100
            != 0 || yoe + 1 == 400),
{
}

/// The month and the day of a day of the year, counted from the first of March.
proof fn lemma_month_of_year(doy: int, mp: int, day: int)
    requires
        0 <= doy <= 365,
        mp == (5 * doy + 2) / 153,
        day == doy - (153 * mp + 2) / 5 + 1,
    ensures
        0 <= mp <= 11,
        1 <= day <= 31,
        mp == 0 ==> doy == day - 1 && day <= 31,
        mp == 1 ==> doy == 31 + day - 1 && day <= 30,
        mp == 2 ==> doy == 61 + day - 1 && day <= 31,
        mp == 3 ==> doy == 92 + day - 1 && day <= 30,
        mp == 4 ==> doy == 122 + day - 1 && day <= 31,
        mp == 5 ==> doy == 153 + day - 1 && day <= 31,
        mp == 6 ==> doy == 184 + day - 1 && day <= 30,
        mp == 7 ==> doy == 214 + day - 1 && day <= 31,
        mp == 8 ==> doy == 245 + day - 1 && day <= 30,
        mp == 9 ==> doy == 275 + day - 1 && day <= 31,
        mp == 10 ==> doy == 306 + day - 1 && day <= 31,
        mp == 11 ==> doy == 337 + day - 1 && day <= 29,
{
}

/// The days before a year that starts in March, against those before one that starts in January.
proof fn lemma_march_year(year: int, era: int, yoe: int)
    requires
        year == yoe + era * 400,
        0 <= yoe <= 399,
        0 <= era,
    ensures
        days_before_year(year) + 59 + (if is_leap_year(year) {
            1int
        } else {
            0int
        }) == 146_097 * era + 365 * yoe + yoe / 4 - yoe / 100 - 306,
        is_leap_year(year + 1) == ((yoe + 1) % 4 == 0 && ((yoe + 1) % 100 != 0 || yoe + 1 == 400)),
{
    reveal(days_before_year);
    lemma_quotient_step(year, 4);
    lemma_quotient_step(year, 100);
    lemma_quotient_step(year, 400);
    lemma_century_multiples(year);
    assert(year / 4 == 100 * era + yoe / 4);
    assert(year / 100 == 4 * era + yoe / 100);
    assert(year / 400 == era);
}

/// Puts the cycle, the year, the month and the day together.
proof fn lemma_civil(era: int, yoe: int, doy: int, mp: int, day: int, month: int, year: int)
    requires
        0 <= era,
        0 <= yoe <= 399,
        0 <= doy <= 365,
        doy == 365 ==> (yoe + 1) % 4 == 0 && ((yoe + 1) % 100 != 0 || yoe + 1 == 400),
        mp == (5 * doy + 2) / 153,
        day == doy - (153 * mp + 2) / 5 + 1,
        month == (if mp < 10 {
            mp + 3
        } else {
            mp - 9
        }),
        year == yoe + era * 400 + (if month <= 2 {
            1int
        } else {
            0int
        }),
    ensures
        is_date(year, month, day),
        unix_day(year, month, day) == 146_097 * era + 365 * yoe + yoe / 4 - yoe / 100 + doy
            - 719_468,
{
    let y = yoe + era * 400;
    lemma_month_of_year(doy, mp, day);
    lemma_march_year(y, era, yoe);
    lemma_days_before_month(year);
    lemma_year_length(y);
    lemma_epoch();
}

/// The days from the start of year 1 to 1970-01-01.
proof fn lemma_epoch()
    ensures
        days_before_year(1970) == 719_162,
{
    reveal(days_before_year);
}

/// A date on or after 1970-01-01 has a year from 1970 on.
proof fn lemma_after_epoch(year: int, month: int, day: int)
    requires
        is_date(year, month, day),
        unix_day(year, month, day) >= 0,
    ensures
        year >= 1970,
{
    if year < 1970 {
        lemma_day_of_year(year, month, day);
        lemma_years_ordered(year + 1, 1970);
    }
}

/// The calendar date that lies `days` after 1970-01-01.
pub fn civil_from_unix_days(days: u64) -> (date: CivilDate)
    requires
        days <= u64::MAX / 86_400,
    ensures
        is_date(date.year as int, date.month as int, date.day as int),
        unix_day(date.year as int, date.month as int, date.day as int) == days,
        1970 <= date.year,
{
    let z: u64 = days + 719_468;
    let era: u64 = z / 146_097;
    let doe: u64 = z - era * 146_097;
    let yoe: u64 = (doe - doe / 1_460 + doe / 36_524 - doe / 146_096) / 365;
    proof {
        lemma_year_of_era(doe as int, yoe as int);
    }
    let y: u64 = yoe + era * 400;
    let doy: u64 = doe - (365 * yoe + yoe / 4 - yoe / 100);
    let mp: u64 = (5 * doy + 2) / 153;
    proof {
        lemma_month_of_year(doy as int, mp as int, doy - (153 * mp + 2) / 5 + 1);
    }
    let day: u64 = doy + 1 - (153 * mp + 2) / 5;
    let month: u64 = if mp < 10 {
        mp + 3
    } else {
        mp - 9
    };
    let year: u64 = if month <= 2 {
        y + 1
    } else {
        y
    };
    proof {
        lemma_civil(
            era as int,
            yoe as int,
            doy as int,
            mp as int,
            day as int,
            month as int,
            year as int,
        );
        lemma_after_epoch(year as int, month as int, day as int);
    }
    CivilDate { year, month: month as u32, day: day as u32 }
}

/// The date with a given number of days since 1970-01-01, as year, month and day.
pub open spec fn date_of(days: int) -> (int, int, int) {
    choose|date: (int, int, int)|
        is_date(date.0, date.1, date.2) && #[trigger] unix_day(date.0, date.1, date.2) == days
}

/// The date that a number of days names is the one whose number it is.
pub proof fn law_date_of_unix_day(year: int, month: int, day: int)
    requires
        is_date(year, month, day),
    ensures
        date_of(unix_day(year, month, day)) == (year, month, day),
{
    let days = unix_day(year, month, day);
    let given = (year, month, day);
    assert(is_date(given.0, given.1, given.2) && unix_day(given.0, given.1, given.2) == days);
    let found = date_of(days);
    assert(is_date(found.0, found.1, found.2) && unix_day(found.0, found.1, found.2) == days);
    law_unix_day_is_injective(year, month, day, found.0, found.1, found.2);
}

/// The last two decimal digits of a number.
pub open spec fn two_digits(value: int) -> Seq<u8> {
    seq![(48 + (value / 10) % 10) as u8, (48 + value % 10) as u8]
}

/// The last four decimal digits of a number.
pub open spec fn four_digits(value: int) -> Seq<u8> {
    two_digits(value / 100) + two_digits(value)
}

/// The fourteen digits of a moment: year, month, day, hour, minute and second. A year from
/// 4294967296 on is taken modulo that number before its last four digits are written.
pub open spec fn timestamp(seconds: int) -> Seq<u8> {
    let date = date_of(seconds / 86_400);
    let time = seconds % 86_400;
    four_digits(date.0 % 0x1_0000_0000) + two_digits(date.1) + two_digits(date.2) + two_digits(
        time / 3_600,
    ) + two_digits((time % 3_600) / 60) + two_digits(time % 60)
}

/// The status code and the space before the digits of a `DATE` answer.
pub const DATE_PREFIX: &'static str = "111 ";

/// The `DATE` answer for a moment given in seconds since 1970-01-01 00:00:00 UTC.
pub open spec fn date_response(seconds: int) -> Seq<u8> {
    DATE_PREFIX.spec_bytes() + timestamp(seconds) + CRLF.spec_bytes()
}

fn push_two_digits(output: &mut Vec<u8>, value: u32)
    ensures
        final(output)@ == old(output)@ + two_digits(value as int),
{
    output.push(48 + ((value / 10) % 10) as u8);
    output.push(48 + (value % 10) as u8);
    assert(output@ =~= old(output)@ + two_digits(value as int));
}

fn push_four_digits(output: &mut Vec<u8>, value: u32)
    ensures
        final(output)@ == old(output)@ + four_digits(value as int),
{
    push_two_digits(output, value / 100);
    push_two_digits(output, value);
    assert(output@ =~= old(output)@ + four_digits(value as int));
}

/// The `DATE` answer for a moment given in seconds since 1970-01-01 00:00:00 UTC.
pub fn date_response_for_unix_seconds(seconds: u64) -> (response: Vec<u8>)
    ensures
        response@ == date_response(seconds as int),
{
    let days: u64 = seconds / 86_400;
    let time: u64 = seconds % 86_400;
    let date: CivilDate = civil_from_unix_days(days);
    proof {
        law_date_of_unix_day(date.year as int, date.month as int, date.day as int);
    }
    let mut digits: Vec<u8> = Vec::new();
    push_four_digits(&mut digits, (date.year % 0x1_0000_0000) as u32);
    assert(digits@ =~= four_digits(date.year as int % 0x1_0000_0000));
    push_two_digits(&mut digits, date.month);
    push_two_digits(&mut digits, date.day);
    push_two_digits(&mut digits, (time / 3_600) as u32);
    push_two_digits(&mut digits, ((time % 3_600) / 60) as u32);
    push_two_digits(&mut digits, (time % 60) as u32);
    assert(digits@ == timestamp(seconds as int));
    let mut response: Vec<u8> = Vec::new();
    response.extend_from_slice(DATE_PREFIX.as_bytes());
    response.extend_from_slice(digits.as_slice());
    response.extend_from_slice(CRLF.as_bytes());
    assert(response@ =~= date_response(seconds as int));
    response
}

/// The year of a moment, in 16 bits.
pub open spec fn year_of(seconds: int) -> int {
    date_of(seconds / 86_400).0 % 0x1_0000
}

/// The calendar year of a moment, modulo 65536.
pub fn utc_year(seconds: u64) -> (year: u16)
    ensures
        year == year_of(seconds as int),
{
    let date: CivilDate = civil_from_unix_days(seconds / 86_400);
    proof {
        law_date_of_unix_day(date.year as int, date.month as int, date.day as int);
    }
    (date.year % 0x1_0000) as u16
}

/// A `DATE` answer is twenty bytes long: the status code, fourteen digits and the line end.
pub proof fn law_date_response_shape(seconds: u64)
    ensures
        date_response(seconds as int).len() == 20,
        bytes::starts_with(date_response(seconds as int), DATE_PREFIX.spec_bytes()),
        bytes::all_digits(date_response(seconds as int).subrange(4, 18)),
        bytes::ends_with(date_response(seconds as int), CRLF.spec_bytes()),
{
    reveal_strlit("111 ");
    reveal_strlit("\r\n");
    assert(DATE_PREFIX.is_ascii());
    assert(CRLF.is_ascii());
    let response = date_response(seconds as int);
    assert(DATE_PREFIX.spec_bytes().len() == 4);
    assert(CRLF.spec_bytes().len() == 2);
    assert(response.subrange(0, 4) =~= DATE_PREFIX.spec_bytes());
    assert(response.subrange(4, 18) =~= timestamp(seconds as int));
    assert(response.subrange(18, 20) =~= CRLF.spec_bytes());
}

/// Every day from 1970-01-01 on has a date.
#[verifier::spinoff_prover]
proof fn lemma_date_exists(days: int)
    requires
        days >= 0,
    ensures
        is_date(date_of(days).0, date_of(days).1, date_of(days).2),
        unix_day(date_of(days).0, date_of(days).1, date_of(days).2) == days,
{
    let z = days + 719_468;
    let era = z / 146_097;
    let doe = z - era * 146_097;
    let yoe = (doe - doe / 1_460 + doe / 36_524 - doe / 146_096) / 365;
    lemma_year_of_era(doe, yoe);
    let doy = doe - (365 * yoe + yoe / 4 - yoe / 100);
    let mp = (5 * doy + 2) / 153;
    let day = doy - (153 * mp + 2) / 5 + 1;
    let month = if mp < 10 {
        mp + 3
    } else {
        mp - 9
    };
    let year = yoe + era * 400 + (if month <= 2 {
        1int
    } else {
        0int
    });
    lemma_civil(era, yoe, doy, mp, day, month, year);
    law_date_of_unix_day(year, month, day);
}

/// The dates are in the order of their numbers.
proof fn lemma_dates_ordered(first: (int, int, int), second: (int, int, int))
    requires
        is_date(first.0, first.1, first.2),
        is_date(second.0, second.1, second.2),
        unix_day(first.0, first.1, first.2) < unix_day(second.0, second.1, second.2),
    ensures
        first.0 < second.0 || (first.0 == second.0 && (first.1 < second.1 || (first.1 == second.1
            && first.2 < second.2))),
{
    lemma_day_of_year(first.0, first.1, first.2);
    lemma_day_of_year(second.0, second.1, second.2);
    if second.0 < first.0 {
        lemma_years_ordered(second.0 + 1, first.0);
    }
    lemma_days_before_month(first.0);
}

/// The last day of the year 9999 is the last one with a year of four digits.
proof fn lemma_four_digit_year(date: (int, int, int))
    requires
        is_date(date.0, date.1, date.2),
        0 <= unix_day(date.0, date.1, date.2) <= 2_932_896,
    ensures
        1970 <= date.0 <= 9999,
{
    lemma_after_epoch(date.0, date.1, date.2);
    if date.0 >= 10_000 {
        lemma_years_ordered(10_000, date.0);
        lemma_day_of_year(date.0, date.1, date.2);
        lemma_epoch();
        assert(days_before_year(10_000) == 3_652_059) by {
            reveal(days_before_year);
        }
    }
}

#[verifier::spinoff_prover]
proof fn lemma_two_digits_ordered(first: int, second: int)
    requires
        0 <= first < second < 100,
    ensures
        bytes::precedes(two_digits(first), two_digits(second)),
{
    let (a, b) = (two_digits(first), two_digits(second));
    if first / 10 < second / 10 {
        assert(bytes::differs_at(a, b, 0));
    } else {
        assert(bytes::differs_at(a, b, 1));
    }
}

/// Two digits are the last two of a number.
#[verifier::spinoff_prover]
pub proof fn lemma_two_digits_mod(value: int)
    requires
        0 <= value,
    ensures
        two_digits(value) == two_digits(value % 100),
{
    let hundreds = value / 100;
    let rest = value % 100;
    assert(value == 100 * hundreds + rest && 0 <= rest < 100);
    let tens = rest / 10;
    let ones = rest % 10;
    assert(rest == 10 * tens + ones && 0 <= ones < 10 && 0 <= tens < 10);
    assert(value / 10 == 10 * hundreds + tens && value % 10 == ones);
    assert((10 * hundreds + tens) % 10 == tens);
}

#[verifier::spinoff_prover]
proof fn lemma_four_digits_ordered(first: int, second: int)
    requires
        0 <= first < second < 10_000,
    ensures
        bytes::precedes(four_digits(first), four_digits(second)),
{
    let (a, b) = (two_digits(first / 100), two_digits(second / 100));
    let (c, d) = (two_digits(first), two_digits(second));
    if first / 100 < second / 100 {
        lemma_two_digits_ordered(first / 100, second / 100);
        bytes::lemma_precedes_before(a, b, c, d);
    } else {
        assert(first / 100 == second / 100 && first % 100 < second % 100);
        lemma_two_digits_ordered(first % 100, second % 100);
        lemma_two_digits_mod(first);
        lemma_two_digits_mod(second);
        bytes::lemma_precedes_behind(a, c, d);
    }
}

/// The order of texts of three parts is that of the first part in which they differ, where the
/// parts have the same lengths.
proof fn lemma_parts_ordered(
    first: (Seq<u8>, Seq<u8>, Seq<u8>),
    second: (Seq<u8>, Seq<u8>, Seq<u8>),
)
    requires
        first.0.len() == second.0.len(),
        first.1.len() == second.1.len(),
        bytes::precedes(first.0, second.0) || (first.0 == second.0 && (bytes::precedes(
            first.1,
            second.1,
        ) || (first.1 == second.1 && bytes::precedes(first.2, second.2)))),
    ensures
        bytes::precedes(first.0 + first.1 + first.2, second.0 + second.1 + second.2),
{
    let (a, b) = (first.0 + first.1, second.0 + second.1);
    if bytes::precedes(first.0, second.0) {
        bytes::lemma_precedes_before(first.0, second.0, first.1, second.1);
        bytes::lemma_precedes_before(a, b, first.2, second.2);
    } else if bytes::precedes(first.1, second.1) {
        bytes::lemma_precedes_behind(first.0, first.1, second.1);
        bytes::lemma_precedes_before(a, b, first.2, second.2);
    } else {
        bytes::lemma_precedes_behind(a, first.2, second.2);
    }
}

/// The digits of a date, as they stand in a timestamp.
spec fn date_digits(date: (int, int, int)) -> Seq<u8> {
    four_digits(date.0 % 0x1_0000_0000) + two_digits(date.1) + two_digits(date.2)
}

/// The digits of a second of the day, as they stand in a timestamp.
spec fn time_digits(time: int) -> Seq<u8> {
    two_digits(time / 3_600) + two_digits((time % 3_600) / 60) + two_digits(time % 60)
}

proof fn lemma_date_digits_ordered(first: (int, int, int), second: (int, int, int))
    requires
        is_date(first.0, first.1, first.2),
        is_date(second.0, second.1, second.2),
        0 <= unix_day(first.0, first.1, first.2) < unix_day(second.0, second.1, second.2)
            <= 2_932_896,
    ensures
        bytes::precedes(date_digits(first), date_digits(second)),
{
    lemma_dates_ordered(first, second);
    lemma_four_digit_year(first);
    lemma_four_digit_year(second);
    if first.0 < second.0 {
        lemma_four_digits_ordered(first.0, second.0);
    } else if first.1 < second.1 {
        lemma_two_digits_ordered(first.1, second.1);
    } else {
        lemma_two_digits_ordered(first.2, second.2);
    }
    lemma_parts_ordered(
        (four_digits(first.0), two_digits(first.1), two_digits(first.2)),
        (four_digits(second.0), two_digits(second.1), two_digits(second.2)),
    );
}

/// A later second of the day has a later hour, minute or second.
#[verifier::spinoff_prover]
proof fn lemma_times_ordered(first: int, second: int)
    requires
        0 <= first < second < 86_400,
    ensures
        ({
            let (a, b) = (first / 3_600, second / 3_600);
            let (c, d) = ((first % 3_600) / 60, (second % 3_600) / 60);
            let (e, f) = (first % 60, second % 60);
            &&& 0 <= a <= b < 24
            &&& 0 <= c < 60 && 0 <= d < 60
            &&& 0 <= e < 60 && 0 <= f < 60
            &&& a < b || c < d || (c == d && e < f)
        }),
{
}

proof fn lemma_triples_ordered(first: (int, int, int), second: (int, int, int))
    requires
        0 <= first.0 <= second.0 < 100,
        0 <= first.1 < 100 && 0 <= second.1 < 100,
        0 <= first.2 < 100 && 0 <= second.2 < 100,
        first.0 < second.0 || first.1 < second.1 || (first.1 == second.1 && first.2 < second.2),
    ensures
        bytes::precedes(
            two_digits(first.0) + two_digits(first.1) + two_digits(first.2),
            two_digits(second.0) + two_digits(second.1) + two_digits(second.2),
        ),
{
    if first.0 < second.0 {
        lemma_two_digits_ordered(first.0, second.0);
    } else if first.1 < second.1 {
        lemma_two_digits_ordered(first.1, second.1);
    } else {
        lemma_two_digits_ordered(first.2, second.2);
    }
    lemma_parts_ordered(
        (two_digits(first.0), two_digits(first.1), two_digits(first.2)),
        (two_digits(second.0), two_digits(second.1), two_digits(second.2)),
    );
}

proof fn lemma_six_parts(
    a: Seq<u8>,
    b: Seq<u8>,
    c: Seq<u8>,
    d: Seq<u8>,
    e: Seq<u8>,
    f: Seq<u8>,
)
    ensures
        a + b + c + d + e + f == (a + b + c) + (d + e + f),
{
    assert(a + b + c + d + e + f =~= (a + b + c) + (d + e + f));
}

/// A timestamp is the digits of its date and those of its time.
proof fn lemma_timestamp_parts(seconds: int)
    ensures
        timestamp(seconds) == date_digits(date_of(seconds / 86_400)) + time_digits(
            seconds % 86_400,
        ),
        date_digits(date_of(seconds / 86_400)).len() == 8,
        time_digits(seconds % 86_400).len() == 6,
{
    let date = date_of(seconds / 86_400);
    let time = seconds % 86_400;
    lemma_six_parts(
        four_digits(date.0 % 0x1_0000_0000),
        two_digits(date.1),
        two_digits(date.2),
        two_digits(time / 3_600),
        two_digits((time % 3_600) / 60),
        two_digits(time % 60),
    );
}

#[verifier::spinoff_prover]
proof fn lemma_timestamps_ordered(first: int, second: int)
    requires
        0 <= first < second <= 253_402_300_799,
    ensures
        bytes::precedes(timestamp(first), timestamp(second)),
        timestamp(first).len() == timestamp(second).len(),
{
    let (days, later) = (first / 86_400, second / 86_400);
    let (time, later_time) = (first % 86_400, second % 86_400);
    let (a, b) = (date_digits(date_of(days)), date_digits(date_of(later)));
    let (c, d) = (time_digits(time), time_digits(later_time));
    lemma_timestamp_parts(first);
    lemma_timestamp_parts(second);
    if days < later {
        lemma_date_exists(days);
        lemma_date_exists(later);
        lemma_date_digits_ordered(date_of(days), date_of(later));
        bytes::lemma_precedes_before(a, b, c, d);
    } else {
        assert(days == later && time < later_time);
        lemma_times_ordered(time, later_time);
        lemma_triples_ordered(
            (time / 3_600, (time % 3_600) / 60, time % 60),
            (later_time / 3_600, (later_time % 3_600) / 60, later_time % 60),
        );
        bytes::lemma_precedes_behind(a, c, d);
    }
}

/// Up to the end of the year 9999 a later second has a `DATE` answer that comes later in byte
/// order, so no two seconds share one.
pub proof fn law_date_responses_are_ordered(first: u64, second: u64)
    requires
        first < second <= 253_402_300_799,
    ensures
        bytes::precedes(date_response(first as int), date_response(second as int)),
        date_response(first as int) != date_response(second as int),
{
    let start = DATE_PREFIX.spec_bytes();
    let (a, b) = (timestamp(first as int), timestamp(second as int));
    lemma_timestamps_ordered(first as int, second as int);
    bytes::lemma_precedes_behind(start, a, b);
    bytes::lemma_precedes_before(start + a, start + b, CRLF.spec_bytes(), CRLF.spec_bytes());
    let (x, y) = (date_response(first as int), date_response(second as int));
    let at = choose|at: int| bytes::differs_at(x, y, at);
    assert(x.len() == y.len());
    assert(x[at] < y[at]);
}

/// The year that a two-digit year means in `current`: one of the current century up to the
/// current year, one of the century before it otherwise.
pub open spec fn full_year(short: int, current: int) -> int {
    let century = current - current % 100;
    if short <= current % 100 {
        century + short
    } else if century >= 100 {
        century - 100 + short
    } else {
        short
    }
}

/// A two-digit year means the latest year with these digits that is not in the future.
pub proof fn law_full_year_is_the_latest(short: int, current: int)
    requires
        0 <= short < 100,
        100 <= current,
    ensures
        full_year(short, current) % 100 == short,
        current - 100 < full_year(short, current) <= current,
{
}

/// The number `yyyymmdd` of an eight-digit date, or of a six-digit one in the century that
/// `full_year` gives; `None` for a text that is neither.
pub open spec fn date_key(date: Seq<u8>, current_year: int) -> Option<u32> {
    if !bytes::all_digits(date) {
        None
    } else if date.len() == 8 {
        Some(bytes::decimal_value(date) as u32)
    } else if date.len() == 6 {
        Some(
            (full_year(bytes::decimal_value(date.subrange(0, 2)), current_year) * 10_000 + bytes::decimal_value(
                date.subrange(2, 6),
            )) as u32,
        )
    } else {
        None
    }
}

/// Up to four digits as a number.
fn parse_ascii_decimal(value: &[u8]) -> (number: u16)
    requires
        value@.len() <= 4,
        bytes::all_digits(value@),
    ensures
        number == bytes::decimal_value(value@),
        value@.len() == 2 ==> number <= 99,
        number <= 9_999,
{
    let mut number: u16 = 0;
    let mut i: usize = 0;
    while i < value.len()
        invariant
            value@.len() <= 4,
            bytes::all_digits(value@),
            i <= value@.len(),
            number == bytes::decimal_value(value@.subrange(0, i as int)),
            i == 0 ==> number == 0,
            i == 1 ==> number <= 9,
            i == 2 ==> number <= 99,
            i == 3 ==> number <= 999,
            i == 4 ==> number <= 9_999,
        decreases value@.len() - i,
    {
        assert(bytes::is_digit(value@[i as int]));
        let ghost longer = value@.subrange(0, i + 1);
        assert(longer.drop_last() =~= value@.subrange(0, i as int));
        number = number * 10 + (value[i] - 48) as u16;
        i = i + 1;
    }
    assert(value@.subrange(0, i as int) =~= value@);
    number
}

/// Eight digits write the number of the first four, times ten thousand, plus that of the rest;
/// four digits that of the first two, times a hundred, plus that of the rest.
proof fn lemma_split_digits(digits: Seq<u8>, at: int)
    requires
        0 <= at <= digits.len(),
        digits.len() - at == 2 || digits.len() - at == 4,
    ensures
        digits.len() - at == 2 ==> bytes::decimal_value(digits) == bytes::decimal_value(digits.subrange(0, at))
            * 100 + bytes::decimal_value(digits.subrange(at, digits.len() as int)),
        digits.len() - at == 4 ==> bytes::decimal_value(digits) == bytes::decimal_value(digits.subrange(0, at))
            * 10_000 + bytes::decimal_value(digits.subrange(at, digits.len() as int)),
{
    reveal_with_fuel(bytes::decimal_value, 6);
    let rest = digits.subrange(at, digits.len() as int);
    let one = digits.drop_last();
    let two = one.drop_last();
    assert(rest.drop_last() =~= one.subrange(at, one.len() as int));
    assert(rest.drop_last().drop_last() =~= two.subrange(at, two.len() as int));
    if digits.len() - at == 2 {
        assert(two =~= digits.subrange(0, at));
    } else {
        let three = two.drop_last();
        assert(rest.drop_last().drop_last().drop_last() =~= three.subrange(at, three.len() as int));
        assert(three.drop_last() =~= digits.subrange(0, at));
    }
}

/// The number `yyyymmdd` of a date of `NEWGROUPS` or `NEWNEWS`.
pub fn normalized_nntp_date_key(date: &[u8], current_year: u16) -> (key: Option<u32>)
    ensures
        key == date_key(date@, current_year as int),
{
    if (date.len() != 6 && date.len() != 8) || !only_digits(date) {
        return None;
    }
    if date.len() == 8 {
        let year: u16 = parse_ascii_decimal(&date[0..4]);
        let month: u16 = parse_ascii_decimal(&date[4..6]);
        let day: u16 = parse_ascii_decimal(&date[6..8]);
        proof {
            lemma_split_digits(date@, 4);
            lemma_split_digits(date@.subrange(4, 8), 2);
            assert(date@.subrange(4, 8).subrange(0, 2) =~= date@.subrange(4, 6));
            assert(date@.subrange(4, 8).subrange(2, 4) =~= date@.subrange(6, 8));
        }
        Some(year as u32 * 10_000 + month as u32 * 100 + day as u32)
    } else {
        let short: u16 = parse_ascii_decimal(&date[0..2]);
        let month: u16 = parse_ascii_decimal(&date[2..4]);
        let day: u16 = parse_ascii_decimal(&date[4..6]);
        let century: u16 = current_year / 100 * 100;
        let year: u16 = if short <= current_year % 100 {
            century + short
        } else {
            century.saturating_sub(100) + short
        };
        proof {
            lemma_split_digits(date@.subrange(2, 6), 2);
            assert(date@.subrange(2, 6).subrange(0, 2) =~= date@.subrange(2, 4));
            assert(date@.subrange(2, 6).subrange(2, 4) =~= date@.subrange(4, 6));
            assert(year == full_year(short as int, current_year as int));
        }
        Some(year as u32 * 10_000 + month as u32 * 100 + day as u32)
    }
}

/// Days are counted from the first of January 1970.
pub proof fn law_days_start_in_1970()
    ensures
        unix_day(1970, 1, 1) == 0,
        is_date(1970, 1, 1),
{
    lemma_days_before_month(1970);
}

/// The day after a date is the next day of its month, else the first of the next month, else the
/// first of January.
pub proof fn law_days_follow_each_other(year: int, month: int, day: int)
    requires
        is_date(year, month, day),
    ensures
        ({
            let next = if is_date(year, month, day + 1) {
                (year, month, day + 1)
            } else if month < 12 {
                (year, month + 1, 1int)
            } else {
                (year + 1, 1int, 1int)
            };
            &&& is_date(next.0, next.1, next.2)
            &&& unix_day(next.0, next.1, next.2) == unix_day(year, month, day) + 1
        }),
{
    lemma_days_before_month(year);
    lemma_days_before_month(year + 1);
    lemma_year_length(year);
}

/// April, June, September and November have thirty days, February has twenty-eight or in a leap year
/// twenty-nine, and the other months have thirty-one. Every fourth year is a leap year, but of the
/// full centuries only every fourth one.
pub proof fn law_month_lengths(year: int, day: int)
    ensures
        forall|month: int| #[trigger]
            is_date(year, month, day) <==> 1 <= month <= 12 && 1 <= day <= (if month == 2 {
                if (year % 4 == 0 && year % 100 != 0) || year % 400 == 0 {
                    29int
                } else {
                    28int
                }
            } else if month == 4 || month == 6 || month == 9 || month == 11 {
                30
            } else {
                31
            }),
{
    lemma_century_multiples(year);
}

/// Every day from 1970 on is one date of the calendar.
pub proof fn law_every_day_has_its_date(days: int)
    requires
        days >= 0,
    ensures
        is_date(date_of(days).0, date_of(days).1, date_of(days).2),
        unix_day(date_of(days).0, date_of(days).1, date_of(days).2) == days,
{
    lemma_date_exists(days);
}

/// Two digits write the number that they are the last two digits of.
pub proof fn lemma_two_digits_value(value: int)
    requires
        0 <= value < 100,
    ensures
        bytes::decimal_value(two_digits(value)) == value,
        bytes::all_digits(two_digits(value)),
        two_digits(value).len() == 2,
{
    reveal_with_fuel(bytes::decimal_value, 3);
    let text = two_digits(value);
    assert(text.drop_last().drop_last() =~= Seq::<u8>::empty());
    assert(text[0] == 48 + value / 10);
    assert(text.last() == 48 + value % 10);
    assert(text.drop_last().last() == text[0]);
}

pub proof fn lemma_four_digits_value(value: int)
    requires
        0 <= value < 10_000,
    ensures
        bytes::decimal_value(four_digits(value)) == value,
        bytes::all_digits(four_digits(value)),
        four_digits(value).len() == 4,
{
    let text = four_digits(value);
    lemma_two_digits_value(value / 100);
    lemma_two_digits_value(value % 100);
    lemma_two_digits_mod(value);
    lemma_split_digits(text, 2);
    assert(text.subrange(0, 2) =~= two_digits(value / 100));
    assert(text.subrange(2, 4) =~= two_digits(value));
    assert forall|i: int| 0 <= i < text.len() implies bytes::is_digit(#[trigger] text[i]) by {
        if i < 2 {
            assert(text[i] == two_digits(value / 100)[i]);
        } else {
            assert(text[i] == two_digits(value % 100)[i - 2]);
        }
    }
}

/// Up to the end of the year 9999 a `DATE` answer writes the moment: a date of the calendar whose
/// number of days since 1970 is that of the moment, and an hour, a minute and a second that are
/// those of its day.
#[verifier::spinoff_prover]
pub proof fn law_date_response_writes_the_moment(seconds: u64)
    requires
        seconds <= 253_402_300_799,
    ensures
        ({
            let text = date_response(seconds as int);
            let year = bytes::decimal_value(text.subrange(4, 8));
            let month = bytes::decimal_value(text.subrange(8, 10));
            let day = bytes::decimal_value(text.subrange(10, 12));
            let hour = bytes::decimal_value(text.subrange(12, 14));
            let minute = bytes::decimal_value(text.subrange(14, 16));
            let second = bytes::decimal_value(text.subrange(16, 18));
            &&& text.len() == 20
            &&& text.subrange(0, 4) == "111 ".spec_bytes()
            &&& text.subrange(18, 20) == "\r\n".spec_bytes()
            &&& is_date(year, month, day)
            &&& unix_day(year, month, day) == seconds as int / 86_400
            &&& 0 <= hour < 24 && 0 <= minute < 60 && 0 <= second < 60
            &&& 3_600 * hour + 60 * minute + second == seconds as int % 86_400
            &&& year_of(seconds as int) == year
        }),
{
    let text = date_response(seconds as int);
    let days = seconds as int / 86_400;
    let time = seconds as int % 86_400;
    let date = date_of(days);
    reveal_strlit("111 ");
    reveal_strlit("\r\n");
    assert(DATE_PREFIX.is_ascii());
    assert(CRLF.is_ascii());
    assert(DATE_PREFIX.spec_bytes().len() == 4);
    assert(CRLF.spec_bytes().len() == 2);
    lemma_date_exists(days);
    lemma_four_digit_year(date);
    assert(1 <= date.1 <= 12 && 1 <= date.2 <= 31);
    lemma_four_digits_value(date.0);
    lemma_two_digits_value(date.1);
    lemma_two_digits_value(date.2);
    lemma_two_digits_value(time / 3_600);
    lemma_two_digits_value((time % 3_600) / 60);
    lemma_two_digits_value(time % 60);
    assert(text.subrange(0, 4) =~= DATE_PREFIX.spec_bytes());
    assert(text.subrange(4, 8) =~= four_digits(date.0));
    assert(text.subrange(8, 10) =~= two_digits(date.1));
    assert(text.subrange(10, 12) =~= two_digits(date.2));
    assert(text.subrange(12, 14) =~= two_digits(time / 3_600));
    assert(text.subrange(14, 16) =~= two_digits((time % 3_600) / 60));
    assert(text.subrange(16, 18) =~= two_digits(time % 60));
    assert(text.subrange(18, 20) =~= CRLF.spec_bytes());
}

/// A date of eight digits stands for its year, month and day; one of six digits for the latest year
/// with the two digits that is not in the future.
#[verifier::spinoff_prover]
pub proof fn law_date_key_orders_dates(year: int, month: int, day: int, current: int)
    requires
        0 <= year < 10_000,
        0 <= month < 100,
        0 <= day < 100,
        100 <= current <= 0xffff,
    ensures
        date_key(four_digits(year) + two_digits(month) + two_digits(day), current) == Some(
            (10_000 * year + 100 * month + day) as u32,
        ),
        ({
            let key = date_key(two_digits(year % 100) + two_digits(month) + two_digits(day), current);
            &&& key is Some
            &&& key->0 as int % 10_000 == 100 * month + day
            &&& (key->0 as int / 10_000) % 100 == year % 100
            &&& current - 100 < key->0 as int / 10_000 <= current
        }),
{
    lemma_four_digits_value(year);
    lemma_two_digits_value(year % 100);
    lemma_two_digits_value(month);
    lemma_two_digits_value(day);
    let rest = two_digits(month) + two_digits(day);
    lemma_split_digits(rest, 2);
    assert(rest.subrange(0, 2) =~= two_digits(month));
    assert(rest.subrange(2, 4) =~= two_digits(day));
    let full = four_digits(year) + two_digits(month) + two_digits(day);
    lemma_split_digits(full, 4);
    assert(full.subrange(0, 4) =~= four_digits(year));
    assert(full.subrange(4, 8) =~= rest);
    assert forall|i: int| 0 <= i < full.len() implies bytes::is_digit(#[trigger] full[i]) by {
        if i < 4 {
            assert(full[i] == four_digits(year)[i]);
        } else if i < 6 {
            assert(full[i] == two_digits(month)[i - 4]);
        } else {
            assert(full[i] == two_digits(day)[i - 6]);
        }
    }
    let short = two_digits(year % 100) + two_digits(month) + two_digits(day);
    assert(short.subrange(0, 2) =~= two_digits(year % 100));
    assert(short.subrange(2, 6) =~= rest);
    assert forall|i: int| 0 <= i < short.len() implies bytes::is_digit(#[trigger] short[i]) by {
        if i < 2 {
            assert(short[i] == two_digits(year % 100)[i]);
        } else if i < 4 {
            assert(short[i] == two_digits(month)[i - 2]);
        } else {
            assert(short[i] == two_digits(day)[i - 4]);
        }
    }
    law_full_year_is_the_latest(year % 100, current);
    let meant = full_year(year % 100, current);
    assert(0 <= 10_000 * meant + 100 * month + day <= 0xffff_ffff);
    assert((10_000 * meant + (100 * month + day)) / 10_000 == meant && (10_000 * meant + (100
        * month + day)) % 10_000 == 100 * month + day);
}

/// Only texts of six or eight digits are dates.
pub proof fn law_other_texts_are_no_dates(date: Seq<u8>, current: int)
    requires
        (date.len() != 6 && date.len() != 8) || exists|i: int|
            0 <= i < date.len() && !(48 <= #[trigger] date[i] <= 57),
    ensures
        date_key(date, current) is None,
{
    if exists|i: int| 0 <= i < date.len() && !(48 <= #[trigger] date[i] <= 57) {
        let i = choose|i: int| 0 <= i < date.len() && !(48 <= #[trigger] date[i] <= 57);
        assert(!bytes::is_digit(date[i]));
    }
}

} // verus!
