pub mod arrow_bridge;
pub mod arrow_utils;
pub mod columns;
pub mod ipc_check;

use crate::errors::{DataHubError, ErrorView};
use crate::history::keep_newest;
use crate::models::stock::DailyData;
use chrono::NaiveDate;
use vstd::prelude::*;
use vstd::string::StringExecFns;

verus! {

/// Cuts a history down to its first `max_records` records. One that is no
/// longer than that is left as it is.
pub fn limit_kline_records(daily_data: &mut Vec<DailyData>, max_records: usize, symbol: &str)
    ensures
        final(daily_data)@ == keep_newest(old(daily_data)@, max_records as nat),
{
    if daily_data.len() > max_records {
        daily_data.truncate(max_records);
    }
}

/// The character is a decimal digit.
pub open spec fn is_digit(c: char) -> bool {
    '0' <= c <= '9'
}

/// The number that a run of decimal digits writes.
pub open spec fn digits_value(digits: Seq<char>) -> int
    decreases digits.len(),
{
    if digits.len() == 0 {
        0
    } else {
        digits_value(digits.drop_last()) * 10 + (digits.last() as int - '0' as int)
    }
}

/// The text without its sign, where it starts with one.
pub open spec fn unsigned_part(text: Seq<char>) -> Seq<char> {
    if text.len() > 0 && (text[0] == '-' || text[0] == '+') {
        text.drop_first()
    } else {
        text
    }
}

/// The number that a text writes in decimal: an optional `+` or `-`, then
/// one or more digits and nothing else, the number within 32 bits.
pub open spec fn decimal_i32(text: Seq<char>) -> Option<i32> {
    let digits = unsigned_part(text);
    let value = if text.len() > 0 && text[0] == '-' {
        -digits_value(digits)
    } else {
        digits_value(digits)
    };
    if digits.len() > 0 && (forall|i: int| 0 <= i < digits.len() ==> is_digit(digits[i]))
        && i32::MIN <= value <= i32::MAX {
        Some(value as i32)
    } else {
        None
    }
}

/// The text of the standard library's error for a text that writes no
/// 32-bit integer.
pub uninterp spec fn parse_error_text(text: Seq<char>) -> Seq<char>;

/// `str::parse::<i32>`: the number that the text writes in decimal, or the
/// text of the standard library's error where it writes none.
#[verifier::external_body]
fn parse_i32(text: &str) -> (r: Result<i32, String>)
    ensures
        match decimal_i32(text@) {
            Some(v) => r == Ok::<i32, String>(v),
            None => r matches Err(m) && m@ == parse_error_text(text@),
        },
{
    text.parse::<i32>().map_err(|e| e.to_string())
}

/// Reads a day written as `YYYYMMDD`, or any other decimal integer.
///
/// A text that writes no 32-bit integer is a data error with the standard
/// library's message.
pub fn date_string_to_int(date_str: &str) -> (out: Result<i32, DataHubError>)
    ensures
        match decimal_i32(date_str@) {
            Some(v) => out == Ok::<i32, DataHubError>(v),
            None => out matches Err(e) && e@ == ErrorView::DataError(
                parse_error_text(date_str@),
            ),
        },
{
    match parse_i32(date_str) {
        Ok(v) => Ok(v),
        Err(message) => Err(DataHubError::DataError(message)),
    }
}

/// The text that chrono prints for a day.
pub uninterp spec fn naive_date_text(date: NaiveDate) -> Seq<char>;

/// `NaiveDate`'s `to_string`.
#[verifier::external_body]
pub(crate) fn date_text(date: &NaiveDate) -> (out: String)
    ensures
        out@ == naive_date_text(*date),
{
    date.to_string()
}

/// The digits that write a natural number in decimal.
pub open spec fn digits_of(n: nat) -> Seq<char>
    decreases n,
{
    if n < 10 {
        seq![(('0' as nat) + n) as char]
    } else {
        digits_of(n / 10).push((('0' as nat) + n % 10) as char)
    }
}

/// The text that writes an integer in decimal, with `-` in front of a
/// negative one.
pub open spec fn decimal_text(n: int) -> Seq<char> {
    if n < 0 {
        seq!['-'] + digits_of((-n) as nat)
    } else {
        digits_of(n as nat)
    }
}

/// The decimal text of the number has eight characters: eight digits, or a
/// minus sign and seven.
pub open spec fn has_eight_chars(n: int) -> bool {
    decimal_text(n).len() == 8
}

/// How many digits write a natural number.
pub open spec fn digit_count(n: nat) -> nat
    decreases n,
{
    if n < 10 {
        1
    } else {
        1 + digit_count(n / 10)
    }
}

/// `digits_of` writes as many digits as `digit_count` says.
pub proof fn lemma_digits_len(n: nat)
    ensures
        digits_of(n).len() == digit_count(n),
    decreases n,
{
    if n >= 10 {
        lemma_digits_len(n / 10);
    }
}

/// The numbers whose decimal text has eight characters are those of eight
/// digits and the negative ones of seven.
pub proof fn lemma_eight_chars(n: int)
    ensures
        has_eight_chars(n) <==> (10_000_000 <= n <= 99_999_999 || -9_999_999 <= n
            <= -1_000_000),
{
    let size: nat = if n < 0 {
        (-n) as nat
    } else {
        n as nat
    };
    lemma_digits_len(size);
    reveal_with_fuel(digit_count, 10);
    if size < 10 {
    } else if size < 100 {
    } else if size < 1_000 {
    } else if size < 10_000 {
    } else if size < 100_000 {
    } else if size < 1_000_000 {
    } else if size < 10_000_000 {
    } else if size < 100_000_000 {
    } else if size < 1_000_000_000 {
        assert(digit_count(size) == 9);
    } else {
        lemma_digit_count_grows(1_000_000_000, size);
        assert(digit_count(1_000_000_000) == 10);
    }
}

/// A larger number is written with no fewer digits.
pub proof fn lemma_digit_count_grows(a: nat, b: nat)
    requires
        a <= b,
    ensures
        digit_count(a) <= digit_count(b),
    decreases b,
{
    if b >= 10 && a >= 10 {
        lemma_digit_count_grows(a / 10, b / 10);
    }
}

/// The year that the first four characters of an eight-character number
/// write.
pub open spec fn year_part(n: int) -> int {
    if n >= 0 {
        n / 10_000
    } else {
        -((-n) / 10_000)
    }
}

/// The month that the fifth and sixth characters write.
pub open spec fn month_part(n: int) -> int {
    if n >= 0 {
        (n / 100) % 100
    } else {
        ((-n) / 100) % 100
    }
}

/// The day that the last two characters write.
pub open spec fn day_part(n: int) -> int {
    if n >= 0 {
        n % 100
    } else {
        (-n) % 100
    }
}

/// The year is a leap year of the Gregorian calendar, counted backwards
/// beyond its introduction.
pub open spec fn is_leap_year(year: int) -> bool {
    year % 4 == 0 && (year % 100 != 0 || year % 400 == 0)
}

/// The number of days of a month.
pub open spec fn days_in_month(year: int, month: int) -> int {
    if month == 2 {
        if is_leap_year(year) {
            29
        } else {
            28
        }
    } else if month == 4 || month == 6 || month == 9 || month == 11 {
        30
    } else {
        31
    }
}

/// The day exists in the calendar and its year is one that chrono can hold.
pub open spec fn is_calendar_day(year: int, month: int, day: int) -> bool {
    &&& -262_143 <= year <= 262_142
    &&& 1 <= month <= 12
    &&& 1 <= day <= days_in_month(year, month)
}

/// The day that chrono makes of a year, a month and a day of the month.
pub uninterp spec fn naive_date_of(year: int, month: int, day: int) -> Option<NaiveDate>;

/// `NaiveDate::from_ymd_opt`: the day of the calendar, where it exists and
/// its year is within chrono's range.
#[verifier::external_body]
fn ymd_date(year: i32, month: u32, day: u32) -> (r: Option<NaiveDate>)
    ensures
        r == naive_date_of(year as int, month as int, day as int),
        r is Some <==> is_calendar_day(year as int, month as int, day as int),
{
    NaiveDate::from_ymd_opt(year, month, day)
}

/// `i32::to_string`: the number in decimal.
#[verifier::external_body]
fn i32_text(n: i32) -> (out: String)
    ensures
        out@ == decimal_text(n as int),
{
    n.to_string()
}

/// The text of the error for a number that does not have eight characters.
pub open spec fn bad_format_message(n: int) -> Seq<char> {
    "Invalid date format: "@ + decimal_text(n)
}

/// The text of the error for a number that writes no day of the calendar.
pub open spec fn bad_date_message(n: int) -> Seq<char> {
    "Invalid date: "@ + decimal_text(year_part(n)) + "-"@ + decimal_text(month_part(n)) + "-"@
        + decimal_text(day_part(n))
}

/// The day that a number of the form `YYYYMMDD` writes.
///
/// Fails where the number's decimal text does not have eight characters,
/// and where year, month and day are no day of the calendar.
pub fn int_to_naive_date(date_int: i32) -> (out: Result<NaiveDate, DataHubError>)
    ensures
        match out {
            Ok(d) => has_eight_chars(date_int as int) && is_calendar_day(
                year_part(date_int as int),
                month_part(date_int as int),
                day_part(date_int as int),
            ) && naive_date_of(
                year_part(date_int as int),
                month_part(date_int as int),
                day_part(date_int as int),
            ) == Some(d),
            Err(e) => if !has_eight_chars(date_int as int) {
                e@ == ErrorView::DataError(bad_format_message(date_int as int))
            } else {
                !is_calendar_day(
                    year_part(date_int as int),
                    month_part(date_int as int),
                    day_part(date_int as int),
                ) && e@ == ErrorView::DataError(bad_date_message(date_int as int))
            },
        },
{
    proof {
        lemma_eight_chars(date_int as int);
    }
    let positive = 10_000_000 <= date_int && date_int <= 99_999_999;
    let negative = -9_999_999 <= date_int && date_int <= -1_000_000;
    if !positive && !negative {
        let mut message = String::from_str("Invalid date format: ");
        message.append(i32_text(date_int).as_str());
        return Err(DataHubError::DataError(message));
    }
    let size: i32 = if positive {
        date_int
    } else {
        -date_int
    };
    let year: i32 = if positive {
        size / 10_000
    } else {
        -(size / 10_000)
    };
    let month: i32 = (size / 100) % 100;
    let day: i32 = size % 100;
    match ymd_date(year, month as u32, day as u32) {
        Some(date) => Ok(date),
        None => {
            let mut message = String::from_str("Invalid date: ");
            message.append(i32_text(year).as_str());
            message.append("-");
            message.append(i32_text(month).as_str());
            message.append("-");
            message.append(i32_text(day).as_str());
            Err(DataHubError::DataError(message))
        },
    }
}

/// The version that names the data of a day: year, month and day of the
/// month in decimal, month and day without leading zeros, with dots
/// between them.
pub open spec fn version_text(n: int) -> Seq<char> {
    decimal_text(year_part(n)) + "."@ + decimal_text(month_part(n)) + "."@ + decimal_text(
        day_part(n),
    )
}

/// The version that names the data of a day given as `YYYYMMDD`.
///
/// Fails where the number's decimal text does not have eight characters.
pub fn date_version(date_int: i32) -> (out: Result<String, DataHubError>)
    ensures
        match out {
            Ok(v) => has_eight_chars(date_int as int) && v@ == version_text(date_int as int),
            Err(e) => !has_eight_chars(date_int as int) && e@ == ErrorView::DataError(
                bad_format_message(date_int as int),
            ),
        },
{
    proof {
        lemma_eight_chars(date_int as int);
    }
    let positive = 10_000_000 <= date_int && date_int <= 99_999_999;
    let negative = -9_999_999 <= date_int && date_int <= -1_000_000;
    if !positive && !negative {
        let mut message = String::from_str("Invalid date format: ");
        message.append(i32_text(date_int).as_str());
        return Err(DataHubError::DataError(message));
    }
    let size: i32 = if positive {
        date_int
    } else {
        -date_int
    };
    let year: i32 = if positive {
        size / 10_000
    } else {
        -(size / 10_000)
    };
    let mut version = i32_text(year);
    version.append(".");
    version.append(i32_text((size / 100) % 100).as_str());
    version.append(".");
    version.append(i32_text(size % 100).as_str());
    Ok(version)
}

} // verus!
