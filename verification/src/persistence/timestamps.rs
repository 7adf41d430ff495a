//! UTC ISO-8601 timestamps of the form `YYYY-MM-DDTHH:MM:SSZ`.
//!
//! A point in time is held as whole seconds since the Unix epoch. The
//! calendar arithmetic is the proleptic Gregorian day-number algorithm,
//! which counts days in 400-year eras of 146 097 days, each year of an era
//! starting on the first of March.
use vstd::prelude::*;

use crate::text::{
    all_digits, decimal_value, is_digit, lemma_zero_padded, pow10, push_char, push_chars, trim, trim_str,
    zero_padded, zero_padded_string,
};
use vstd::utf8::encode_utf8;

verus! {

pub const SECONDS_PER_DAY: u64 = 86_400;

/// Days from 1970-01-01 to the given civil date.
pub open spec fn days_from_civil(year: int, month: int, day: int) -> int {
    let y = if month <= 2 {
        year - 1
    } else {
        year
    };
    let era = y / 400;
    let yoe = y - era * 400;
    let mp = if month > 2 {
        month - 3
    } else {
        month + 9
    };
    let doy = (153 * mp + 2) / 5 + day - 1;
    let doe = yoe * 365 + yoe / 4 - yoe / 100 + doy;
    era * 146_097 + doe - 719_468
}

/// Year of the era (counted from March) that holds day `doe` of the era.
pub open spec fn year_of_era(doe: int) -> int {
    (doe - doe / 1460 + doe / 36524 - doe / 146_096) / 365
}

/// Day of the March-based year that holds day `doe` of the era.
pub open spec fn day_of_year(doe: int) -> int {
    let yoe = year_of_era(doe);
    doe - (365 * yoe + yoe / 4 - yoe / 100)
}

/// Civil date `(year, month, day)` of the day `days` after 1970-01-01.
pub open spec fn civil_from_days(days: nat) -> (int, int, int) {
    let z = days + 719_468;
    let era = z / 146_097;
    let doe = (z % 146_097) as int;
    let yoe = year_of_era(doe);
    let doy = day_of_year(doe);
    let mp = (5 * doy + 2) / 153;
    let d = doy - (153 * mp + 2) / 5 + 1;
    let m = if mp < 10 {
        mp + 3
    } else {
        mp - 9
    };
    let y = yoe + era * 400;
    (if m <= 2 {
        y + 1
    } else {
        y
    }, m, d)
}

pub open spec fn is_leap_year(year: int) -> bool {
    (year % 4 == 0 && year % 100 != 0) || year % 400 == 0
}

/// Days in `month` (1 to 12) of `year`; 0 for any other month.
pub open spec fn days_in_month(year: int, month: int) -> int {
    if month == 1 || month == 3 || month == 5 || month == 7 || month == 8 || month == 10 || month
        == 12 {
        31
    } else if month == 4 || month == 6 || month == 9 || month == 11 {
        30
    } else if month == 2 {
        if is_leap_year(year) {
            29
        } else {
            28
        }
    } else {
        0
    }
}

/// The text of the instant `seconds` after the epoch.
pub open spec fn timestamp_text(seconds: nat) -> Seq<char> {
    let days = seconds / 86_400;
    let sod = seconds % 86_400;
    let (y, m, d) = civil_from_days(days);
    zero_padded(y as nat, 4) + seq!['-'] + zero_padded(m as nat, 2) + seq!['-'] + zero_padded(
        d as nat,
        2,
    ) + seq!['T'] + zero_padded(sod / 3600, 2) + seq![':'] + zero_padded((sod % 3600) / 60, 2)
        + seq![':'] + zero_padded(sod % 60, 2) + seq!['Z']
}

/// Bounds of the March-based calendar within one era.
proof fn lemma_era_bounds(doe: int)
    requires
        0 <= doe < 146_097,
    ensures
        0 <= year_of_era(doe) <= 399,
        0 <= day_of_year(doe) <= 365,
        365 * year_of_era(doe) + year_of_era(doe) / 4 - year_of_era(doe) / 100 >= 0,
{
}

/// Month and day bounds from a day of the March-based year.
proof fn lemma_month_day_bounds(doy: int)
    requires
        0 <= doy <= 365,
    ensures
        0 <= (5 * doy + 2) / 153 <= 11,
        (153 * ((5 * doy + 2) / 153) + 2) / 5 <= doy,
        1 <= doy - (153 * ((5 * doy + 2) / 153) + 2) / 5 + 1 <= 31,
{
}

/// Civil date of a day count, with its parts as machine integers.
fn civil_from_day_count(days: u64) -> (r: (u64, u64, u64))
    requires
        days <= u64::MAX / 86_400,
    ensures
        r.0 == civil_from_days(days as nat).0,
        r.1 == civil_from_days(days as nat).1,
        r.2 == civil_from_days(days as nat).2,
        1 <= r.1 <= 12,
        1 <= r.2 <= 31,
{
    let z = days + 719_468;
    let era = z / 146_097;
    let doe = z % 146_097;
    proof {
        lemma_era_bounds(doe as int);
    }
    let yoe = (doe - doe / 1460 + doe / 36524 - doe / 146_096) / 365;
    let doy = doe - (365 * yoe + yoe / 4 - yoe / 100);
    proof {
        lemma_month_day_bounds(doy as int);
    }
    let mp = (5 * doy + 2) / 153;
    let d = doy - (153 * mp + 2) / 5 + 1;
    let m = if mp < 10 {
        mp + 3
    } else {
        mp - 9
    };
    let y = yoe + era * 400;
    let year = if m <= 2 {
        y + 1
    } else {
        y
    };
    (year, m, d)
}

/// Formats `seconds` after the Unix epoch as `YYYY-MM-DDTHH:MM:SSZ`.
pub fn format_utc(seconds: u64) -> (r: String)
    ensures
        r@ == timestamp_text(seconds as nat),
{
    let days = seconds / SECONDS_PER_DAY;
    let sod = seconds % SECONDS_PER_DAY;
    let (y, m, d) = civil_from_day_count(days);
    let mut s = String::new();
    push_chars(&mut s, zero_padded_string(y, 4).as_slice());
    push_char(&mut s, '-');
    push_chars(&mut s, zero_padded_string(m, 2).as_slice());
    push_char(&mut s, '-');
    push_chars(&mut s, zero_padded_string(d, 2).as_slice());
    push_char(&mut s, 'T');
    push_chars(&mut s, zero_padded_string(sod / 3600, 2).as_slice());
    push_char(&mut s, ':');
    push_chars(&mut s, zero_padded_string((sod % 3600) / 60, 2).as_slice());
    push_char(&mut s, ':');
    push_chars(&mut s, zero_padded_string(sod % 60, 2).as_slice());
    push_char(&mut s, 'Z');
    proof {
        assert(s@ =~= timestamp_text(seconds as nat));
    }
    s
}

/// Why a timestamp was not accepted.
#[derive(Debug, Clone, PartialEq, Eq)]
pub enum TimestampParseError {
    WrongLength { value: String, actual: usize },
    MissingDateSeparator { value: String },
    MissingDateTimeSeparator { value: String },
    MissingTimeSeparator { value: String },
    MissingZuluSuffix { value: String },
    NonNumericField { value: String, field: &'static str },
    FieldOutOfRange { value: String, field: &'static str },
    BeforeUnixEpoch { value: String },
}

/// Whether every byte of `b` is an ASCII digit.
pub open spec fn all_digit_bytes(b: Seq<u8>) -> bool {
    forall|i: int| 0 <= i < b.len() ==> 48 <= #[trigger] b[i] <= 57
}

/// The number written in decimal by the ASCII digit bytes `b`.
pub open spec fn byte_decimal(b: Seq<u8>) -> nat
    decreases b.len(),
{
    if b.len() == 0 {
        0
    } else {
        byte_decimal(b.drop_last()) * 10 + (b.last() - 48) as nat
    }
}

/// First byte of field `f` of the 20-byte text: 0 year, 1 month, 2 day,
/// 3 hour, 4 minute, 5 second.
pub open spec fn field_start(f: int) -> int {
    if f == 0 {
        0
    } else {
        3 * f + 2
    }
}

/// One past the last byte of field `f`.
pub open spec fn field_end(f: int) -> int {
    if f == 0 {
        4
    } else {
        3 * f + 4
    }
}

pub open spec fn field_bytes(tb: Seq<u8>, f: int) -> Seq<u8> {
    tb.subrange(field_start(f), field_end(f))
}

pub open spec fn field_value(tb: Seq<u8>, f: int) -> int {
    byte_decimal(field_bytes(tb, f)) as int
}

/// The name an error gives to field `f`.
pub open spec fn field_name(f: int) -> Seq<char> {
    if f == 0 {
        "year"@
    } else if f == 1 {
        "month"@
    } else if f == 2 {
        "day"@
    } else if f == 3 {
        "hour"@
    } else if f == 4 {
        "minute"@
    } else {
        "second"@
    }
}

/// The first field, in text order, that holds a byte other than a digit.
pub open spec fn first_non_numeric_field(tb: Seq<u8>) -> Option<int> {
    if !all_digit_bytes(field_bytes(tb, 0)) {
        Some(0)
    } else if !all_digit_bytes(field_bytes(tb, 1)) {
        Some(1)
    } else if !all_digit_bytes(field_bytes(tb, 2)) {
        Some(2)
    } else if !all_digit_bytes(field_bytes(tb, 3)) {
        Some(3)
    } else if !all_digit_bytes(field_bytes(tb, 4)) {
        Some(4)
    } else if !all_digit_bytes(field_bytes(tb, 5)) {
        Some(5)
    } else {
        None
    }
}

/// The first of the values month, day, hour, minute, second that is out of
/// range, as a field number.
pub open spec fn out_of_range(y: int, m: int, d: int, h: int, mi: int, sec: int) -> Option<int> {
    if !(1 <= m <= 12) {
        Some(1)
    } else if d < 1 || d > days_in_month(y, m) {
        Some(2)
    } else if h > 23 {
        Some(3)
    } else if mi > 59 {
        Some(4)
    } else if sec > 59 {
        Some(5)
    } else {
        None
    }
}

/// Seconds since the epoch of a civil date and time of day.
pub open spec fn clock_seconds(y: int, m: int, d: int, h: int, mi: int, sec: int) -> int {
    days_from_civil(y, m, d) * 86_400 + h * 3600 + mi * 60 + sec
}

pub open spec fn out_of_range_field(tb: Seq<u8>) -> Option<int> {
    out_of_range(
        field_value(tb, 0),
        field_value(tb, 1),
        field_value(tb, 2),
        field_value(tb, 3),
        field_value(tb, 4),
        field_value(tb, 5),
    )
}

pub open spec fn field_seconds(tb: Seq<u8>) -> int {
    clock_seconds(
        field_value(tb, 0),
        field_value(tb, 1),
        field_value(tb, 2),
        field_value(tb, 3),
        field_value(tb, 4),
        field_value(tb, 5),
    )
}

/// The separators `-`, `-`, `T`, `:`, `:`, `Z` stand where they belong.
pub open spec fn separators_ok(tb: Seq<u8>) -> bool {
    tb[4] == 45 && tb[7] == 45 && tb[10] == 84 && tb[13] == 58 && tb[16] == 58 && tb[19] == 90
}

/// Seconds since the epoch that `parse_utc` reads `value` as, if it accepts it.
pub open spec fn parsed_utc(value: Seq<char>) -> Option<nat> {
    let tb = encode_utf8(trim(value));
    if tb.len() == 20 && separators_ok(tb) && first_non_numeric_field(tb) is None
        && out_of_range_field(tb) is None && field_seconds(tb) >= 0 {
        Some(field_seconds(tb) as nat)
    } else {
        None
    }
}

/// The value of the digits `b[from..to]`, or `None` if one is not a digit.
fn field_number(b: &[u8], from: usize, to: usize) -> (r: Option<u64>)
    requires
        from <= to <= b@.len(),
        to - from <= 4,
    ensures
        r == if all_digit_bytes(b@.subrange(from as int, to as int)) {
            Some(byte_decimal(b@.subrange(from as int, to as int)) as u64)
        } else {
            None::<u64>
        },
        r matches Some(v) ==> v < 10000 && v == byte_decimal(b@.subrange(from as int, to as int)),
{
    let mut value: u64 = 0;
    let mut i = from;
    while i < to
        invariant
            from <= i <= to <= b@.len(),
            to - from <= 4,
            all_digit_bytes(b@.subrange(from as int, i as int)),
            value == byte_decimal(b@.subrange(from as int, i as int)),
            value < pow10((i - from) as nat),
        decreases to - i,
    {
        let c = b[i];
        if c < 48 || c > 57 {
            proof {
                assert(b@.subrange(from as int, to as int)[i - from] == c);
            }
            return None;
        }
        proof {
            let p = b@.subrange(from as int, i + 1);
            assert(p.drop_last() =~= b@.subrange(from as int, i as int));
            reveal_with_fuel(pow10, 5);
            assert(pow10((i - from) as nat) <= 1000);
        }
        value = value * 10 + (c - 48) as u64;
        i += 1;
    }
    proof {
        assert(b@.subrange(from as int, i as int) =~= b@.subrange(from as int, to as int));
        reveal_with_fuel(pow10, 5);
    }
    Some(value)
}

/// Days from 1970-01-01 to a civil date of the years 0 to 9999.
fn day_number(year: u64, month: u64, day: u64) -> (r: i64)
    requires
        year <= 9999,
        1 <= month <= 12,
        1 <= day <= 31,
    ensures
        r == days_from_civil(year as int, month as int, day as int),
{
    let shifted: u64 = if month <= 2 {
        year + 399
    } else {
        year + 400
    };
    let era_plus_one = shifted / 400;
    let yoe = shifted % 400;
    let mp = if month > 2 {
        month - 3
    } else {
        month + 9
    };
    let doy = (153 * mp + 2) / 5 + day - 1;
    let doe = yoe * 365 + yoe / 4 - yoe / 100 + doy;
    proof {
        let y = shifted - 400;
        assert(y / 400 == era_plus_one - 1);
        assert(y - (y / 400) * 400 == yoe);
    }
    (era_plus_one as i64 - 1) * 146_097 + doe as i64 - 719_468
}

/// What `parse_utc(value)` returns.
pub open spec fn utc_result(r: Result<u64, TimestampParseError>, value: Seq<char>) -> bool {
            let tb = encode_utf8(trim(value));
            if tb.len() != 20 {
                r matches Err(TimestampParseError::WrongLength { value: v, actual }) && v@
                    == value && actual == tb.len()
            } else if tb[4] != 45 || tb[7] != 45 {
                r matches Err(TimestampParseError::MissingDateSeparator { value: v }) && v@
                    == value
            } else if tb[10] != 84 {
                r matches Err(TimestampParseError::MissingDateTimeSeparator { value: v }) && v@
                    == value
            } else if tb[13] != 58 || tb[16] != 58 {
                r matches Err(TimestampParseError::MissingTimeSeparator { value: v }) && v@
                    == value
            } else if tb[19] != 90 {
                r matches Err(TimestampParseError::MissingZuluSuffix { value: v }) && v@ == value
            } else if first_non_numeric_field(tb) is Some {
                r matches Err(TimestampParseError::NonNumericField { value: v, field }) && v@
                    == value && field@ == field_name(first_non_numeric_field(tb)->0)
            } else if out_of_range_field(tb) is Some {
                r matches Err(TimestampParseError::FieldOutOfRange { value: v, field }) && v@
                    == value && field@ == field_name(out_of_range_field(tb)->0)
            } else if field_seconds(tb) < 0 {
                r matches Err(TimestampParseError::BeforeUnixEpoch { value: v }) && v@ == value
            } else {
                r == Ok::<u64, TimestampParseError>(field_seconds(tb) as u64)
            }
        }

/// Parses a `YYYY-MM-DDTHH:MM:SSZ` timestamp (surrounding white space
/// ignored) into seconds since the Unix epoch.
pub fn parse_utc(value: &str) -> (r: Result<u64, TimestampParseError>)
    ensures
        utc_result(r, value@),
        r is Ok <==> parsed_utc(value@) is Some,
        r matches Ok(n) ==> n == parsed_utc(value@)->0,
{
    let trimmed = trim_str(value);
    let b = trimmed.as_bytes();
    let ghost tb = encode_utf8(trim(value@));
    proof {
        assert(b@ == tb);
    }
    if b.len() != 20 {
        return Err(TimestampParseError::WrongLength { value: value.to_owned(), actual: b.len() });
    }
    if b[4] != 45 || b[7] != 45 {
        return Err(TimestampParseError::MissingDateSeparator { value: value.to_owned() });
    }
    if b[10] != 84 {
        return Err(TimestampParseError::MissingDateTimeSeparator { value: value.to_owned() });
    }
    if b[13] != 58 || b[16] != 58 {
        return Err(TimestampParseError::MissingTimeSeparator { value: value.to_owned() });
    }
    if b[19] != 90 {
        return Err(TimestampParseError::MissingZuluSuffix { value: value.to_owned() });
    }
    let v = match read_fields(b) {
        Ok(v) => v,
        Err(f) => {
            return Err(
                TimestampParseError::NonNumericField { value: value.to_owned(), field: field_label(f) },
            )
        },
    };
    if let Some(f) = first_out_of_range(&v) {
        return Err(
            TimestampParseError::FieldOutOfRange { value: value.to_owned(), field: field_label(f) },
        );
    }
    let days = day_number(v[0], v[1], v[2]);
    let seconds = days * 86_400 + (v[3] * 3600 + v[4] * 60 + v[5]) as i64;
    if seconds < 0 {
        return Err(TimestampParseError::BeforeUnixEpoch { value: value.to_owned() });
    }
    Ok(seconds as u64)
}

/// The name of field `f`.
fn field_label(f: usize) -> (r: &'static str)
    requires
        f < 6,
    ensures
        r@ == field_name(f as int),
{
    if f == 0 {
        "year"
    } else if f == 1 {
        "month"
    } else if f == 2 {
        "day"
    } else if f == 3 {
        "hour"
    } else if f == 4 {
        "minute"
    } else {
        "second"
    }
}

/// The values of the six fields of the 20-byte text `b`, or the first field
/// that is not numeric.
fn read_fields(b: &[u8]) -> (r: Result<[u64; 6], usize>)
    requires
        b@.len() == 20,
    ensures
        match r {
            Ok(v) => first_non_numeric_field(b@) is None && forall|f: int|
                0 <= f < 6 ==> #[trigger] v[f] == field_value(b@, f) && v[f] < 10000,
            Err(f) => first_non_numeric_field(b@) == Some(f as int) && f < 6,
        },
{
    let mut v = [0u64; 6];
    let mut f: usize = 0;
    while f < 6
        invariant
            f <= 6,
            b@.len() == 20,
            forall|g: int| 0 <= g < f ==> all_digit_bytes(#[trigger] field_bytes(b@, g)),
            forall|g: int| 0 <= g < f ==> #[trigger] v[g] == field_value(b@, g) && v[g] < 10000,
        decreases 6 - f,
    {
        let from: usize = if f == 0 {
            0
        } else {
            3 * f + 2
        };
        let to: usize = if f == 0 {
            4
        } else {
            3 * f + 4
        };
        proof {
            assert(field_bytes(b@, f as int) == b@.subrange(from as int, to as int));
        }
        match field_number(b, from, to) {
            Some(n) => {
                let ghost prev = v;
                v[f] = n;
                proof {
                    assert forall|g: int| 0 <= g < f implies #[trigger] v[g] == prev[g] by {}
                }
            },
            None => {
                return Err(f);
            },
        }
        f += 1;
    }
    Ok(v)
}

/// The first field of `v` out of range, in the order month, day, hour,
/// minute, second.
fn first_out_of_range(v: &[u64; 6]) -> (r: Option<usize>)
    requires
        forall|f: int| 0 <= f < 6 ==> #[trigger] v[f] < 10000,
    ensures
        r matches Some(f) ==> f < 6,
        match r {
            Some(f) => out_of_range(v[0] as int, v[1] as int, v[2] as int, v[3] as int, v[4] as int, v[5] as int) == Some(f as int),
            None => out_of_range(v[0] as int, v[1] as int, v[2] as int, v[3] as int, v[4] as int, v[5] as int) is None,
        },
{
    if v[1] < 1 || v[1] > 12 {
        return Some(1);
    }
    let dim = month_length(v[0], v[1]);
    if v[2] < 1 || v[2] > dim {
        return Some(2);
    }
    if v[3] > 23 {
        return Some(3);
    }
    if v[4] > 59 {
        return Some(4);
    }
    if v[5] > 59 {
        return Some(5);
    }
    None
}

/// Whether `year` is a Gregorian leap year.
pub fn leap_year(year: u64) -> (r: bool)
    ensures
        r == is_leap_year(year as int),
{
    (year % 4 == 0 && year % 100 != 0) || year % 400 == 0
}

/// Days in `month` of `year` (0 for a month outside 1 to 12).
pub fn month_length(year: u64, month: u64) -> (r: u64)
    ensures
        r == days_in_month(year as int, month as int),
{
    if month == 1 || month == 3 || month == 5 || month == 7 || month == 8 || month == 10 || month
        == 12 {
        31
    } else if month == 4 || month == 6 || month == 9 || month == 11 {
        30
    } else if month == 2 {
        if leap_year(year) {
            29
        } else {
            28
        }
    } else {
        0
    }
}

/// Within one era, day 365 of a March-based year is the 29th of February
/// of a leap year.
proof fn lemma_last_day_is_leap(doe: int)
    requires
        0 <= doe < 146_097,
        day_of_year(doe) == 365,
    ensures
        (year_of_era(doe) + 1) % 4 == 0,
        (year_of_era(doe) + 1) % 100 != 0 || year_of_era(doe) == 399,
{
}

/// The civil date of a day count names that same day, and is a valid date.
#[verifier::spinoff_prover]
#[verifier::rlimit(80)]
pub proof fn lemma_civil_round_trip(days: nat)
    ensures
        ({
            let (y, m, d) = civil_from_days(days);
            &&& days_from_civil(y, m, d) == days
            &&& 1 <= m <= 12
            &&& 1 <= d <= days_in_month(y, m)
            &&& y >= 1970
            &&& days < 2_932_897 ==> y <= 9999
        }),
{
    let z = days + 719_468;
    let era = z / 146_097;
    let doe = z % 146_097;
    lemma_era_bounds(doe as int);
    let yoe = year_of_era(doe as int);
    let doy = day_of_year(doe as int);
    lemma_month_day_bounds(doy);
    let (y, m, d) = civil_from_days(days);
    let yy = yoe + era * 400;
    let ys = if m <= 2 {
        y - 1
    } else {
        y
    };
    assert(ys == yy);
    assert(ys / 400 == era);
    assert(ys - era * 400 == yoe);
    if doy == 365 {
        lemma_last_day_is_leap(doe as int);
        assert(y == yy + 1);
        assert(y % 4 == (yoe + 1) % 4);
        assert(y % 100 == (yoe + 1) % 100) by {
            assert(y == (yoe + 1) + era * 4 * 100);
        }
        assert(y % 400 == (yoe + 1) % 400) by {
            assert(y == (yoe + 1) + era * 400);
        }
        assert(is_leap_year(y));
    }
    if days < 2_932_897 {
        assert(era <= 24);
        if era == 24 && yoe == 399 {
            assert(doy < 306);
        }
    }
}

/// Digit bytes that encode the digit characters `c` have the same value.
proof fn lemma_byte_decimal_of_chars(c: Seq<char>, b: Seq<u8>)
    requires
        b.len() == c.len(),
        all_digits(c),
        forall|i: int| 0 <= i < c.len() ==> #[trigger] b[i] == c[i] as u8,
    ensures
        all_digit_bytes(b),
        byte_decimal(b) == decimal_value(c),
    decreases c.len(),
{
    assert forall|i: int| 0 <= i < b.len() implies 48 <= #[trigger] b[i] <= 57 by {
        assert(is_digit(c[i]));
    }
    if c.len() > 0 {
        lemma_byte_decimal_of_chars(c.drop_last(), b.drop_last());
        assert(is_digit(c.last()));
    }
}

/// Parsing the text of an instant gives the instant back, for every
/// instant before the year 10000.
pub proof fn lemma_format_then_parse_utc(seconds: nat)
    requires
        seconds < 253_402_300_800,
    ensures
        parsed_utc(timestamp_text(seconds)) == Some(seconds),
        timestamp_text(seconds).len() == 20,
        forall|i: int|
            0 <= i < 20 ==> #[trigger] timestamp_text(seconds)[i] != '\n' && !crate::text::is_ws(
                timestamp_text(seconds)[i],
            ),
{
    let days = seconds / 86_400;
    let sod = seconds % 86_400;
    lemma_civil_round_trip(days);
    let (y, m, d) = civil_from_days(days);
    let h = sod / 3600;
    let mi = (sod % 3600) / 60;
    let sec = sod % 60;
    reveal_with_fuel(pow10, 5);
    lemma_zero_padded(y as nat, 4);
    lemma_zero_padded(m as nat, 2);
    lemma_zero_padded(d as nat, 2);
    lemma_zero_padded(h, 2);
    lemma_zero_padded(mi, 2);
    lemma_zero_padded(sec, 2);
    let p0 = zero_padded(y as nat, 4);
    let p1 = zero_padded(m as nat, 2);
    let p2 = zero_padded(d as nat, 2);
    let p3 = zero_padded(h, 2);
    let p4 = zero_padded(mi, 2);
    let p5 = zero_padded(sec, 2);
    let t = timestamp_text(seconds);
    assert(t.len() == 20);
    assert(t.subrange(0, 4) =~= p0);
    assert(t.subrange(5, 7) =~= p1);
    assert(t.subrange(8, 10) =~= p2);
    assert(t.subrange(11, 13) =~= p3);
    assert(t.subrange(14, 16) =~= p4);
    assert(t.subrange(17, 19) =~= p5);
    assert(t[4] == '-' && t[7] == '-' && t[10] == 'T' && t[13] == ':' && t[16] == ':' && t[19]
        == 'Z');
    assert forall|i: int| 0 <= i < 20 implies #[trigger] t[i] != '\n' && !crate::text::is_ws(t[i]) by {
        if 0 <= i < 4 {
            assert(t[i] == p0[i]);
            assert(is_digit(p0[i]));
        } else if 5 <= i < 7 {
            assert(t[i] == p1[i - 5]);
            assert(is_digit(p1[i - 5]));
        } else if 8 <= i < 10 {
            assert(t[i] == p2[i - 8]);
            assert(is_digit(p2[i - 8]));
        } else if 11 <= i < 13 {
            assert(t[i] == p3[i - 11]);
            assert(is_digit(p3[i - 11]));
        } else if 14 <= i < 16 {
            assert(t[i] == p4[i - 14]);
            assert(is_digit(p4[i - 14]));
        } else if 17 <= i < 19 {
            assert(t[i] == p5[i - 17]);
            assert(is_digit(p5[i - 17]));
        }
    }
    assert(vstd::utf8::is_ascii_chars(t)) by {
        assert forall|i: int| 0 <= i < t.len() implies '\0' <= #[trigger] t[i] <= '\u{7f}' by {
            if 0 <= i < 4 {
                assert(t[i] == p0[i]);
            } else if 5 <= i < 7 {
                assert(t[i] == p1[i - 5]);
            } else if 8 <= i < 10 {
                assert(t[i] == p2[i - 8]);
            } else if 11 <= i < 13 {
                assert(t[i] == p3[i - 11]);
            } else if 14 <= i < 16 {
                assert(t[i] == p4[i - 14]);
            } else if 17 <= i < 19 {
                assert(t[i] == p5[i - 17]);
            }
        }
    }
    vstd::utf8::is_ascii_chars_encode_utf8(t);
    assert(is_digit(p0[0]));
    assert(t[0] == p0[0]);
    assert(crate::text::trim_end(t) == t);
    assert(crate::text::trim_start(t) == t);
    let tb = encode_utf8(t);
    assert forall|f: int| 0 <= f < 6 implies all_digit_bytes(#[trigger] field_bytes(tb, f))
        && field_value(tb, f) == decimal_value(t.subrange(field_start(f), field_end(f))) by {
        let c = t.subrange(field_start(f), field_end(f));
        let b = field_bytes(tb, f);
        assert(all_digits(c));
        lemma_byte_decimal_of_chars(c, b);
    }
    assert(field_value(tb, 0) == y);
    assert(field_value(tb, 1) == m);
    assert(field_value(tb, 2) == d);
    assert(field_value(tb, 3) == h);
    assert(field_value(tb, 4) == mi);
    assert(field_value(tb, 5) == sec);
}

} // verus!
