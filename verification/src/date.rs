//! Calendar-month partitioning: a start/end month range ("YYYY-MM") becomes
//! one bucket per calendar month, each bucket the pair of its first and last
//! day rendered as a midnight-UTC timestamp.
//!
//! Dates are modelled as plain year/month/day numbers; months are counted by
//! the index `year * 12 + month - 1`, under which consecutive buckets are
//! consecutive calendar months.

use vstd::prelude::*;

use crate::ReportError;
use crate::text::{
    all_digits, dec_val, digit_char, digit_to_str, lemma_dec_val_bound, pow10, parse_u128_range,
};

verus! {

/// Number of days in the given month of the given year, leap-year aware.
pub open spec fn spec_days_in_month(year: int, month: int) -> int {
    if month == 2 {
        if year % 4 == 0 && (year % 100 != 0 || year % 400 == 0) {
            29
        } else {
            28
        }
    } else if month == 4 || month == 6 || month == 9 || month == 11 {
        30
    } else {
        31
    }
}

/// Last calendar day of the given month, computed without consulting a
/// calendar crate: the month lengths and the leap-year rule are stated
/// directly.
pub fn last_day_of_month(year: u32, month: u32) -> (d: u32)
    requires
        1 <= month <= 12,
    ensures
        d == spec_days_in_month(year as int, month as int),
{
    if month == 2 {
        if year % 4 == 0 && (year % 100 != 0 || year % 400 == 0) {
            29
        } else {
            28
        }
    } else if month == 4 || month == 6 || month == 9 || month == 11 {
        30
    } else {
        31
    }
}

/// Months counted from the start of year 0: one number per calendar month.
pub open spec fn month_index(year: int, month: int) -> int {
    year * 12 + month - 1
}

pub open spec fn idx_year(i: int) -> int {
    i / 12
}

pub open spec fn idx_month(i: int) -> int {
    i % 12 + 1
}

/// Two decimal digits, zero padded.
pub open spec fn pad2(n: int) -> Seq<char> {
    seq![digit_char(n / 10 % 10), digit_char(n % 10)]
}

/// Four decimal digits, zero padded.
pub open spec fn pad4(n: int) -> Seq<char> {
    seq![
        digit_char(n / 1000 % 10),
        digit_char(n / 100 % 10),
        digit_char(n / 10 % 10),
        digit_char(n % 10),
    ]
}

pub open spec fn ts_suffix() -> Seq<char> {
    seq!['T', '0', '0', ':', '0', '0', ':', '0', '0', 'Z']
}

/// "YYYY-MM-DDT00:00:00Z" for the given calendar day.
pub open spec fn timestamp_chars(year: int, month: int, day: int) -> Seq<char> {
    pad4(year) + seq!['-'] + pad2(month) + seq!['-'] + pad2(day) + ts_suffix()
}

/// First day of the month with index `i`, as a timestamp.
pub open spec fn bucket_start_chars(i: int) -> Seq<char> {
    timestamp_chars(idx_year(i), idx_month(i), 1)
}

/// Last day of the month with index `i`, as a timestamp.
pub open spec fn bucket_end_chars(i: int) -> Seq<char> {
    timestamp_chars(idx_year(i), idx_month(i), spec_days_in_month(idx_year(i), idx_month(i)))
}

/// A well-formed "YYYY-MM" string: four digits, a dash, two digits naming a
/// month from 01 to 12.
pub open spec fn valid_year_month(s: Seq<char>) -> bool {
    &&& s.len() == 7
    &&& all_digits(s.subrange(0, 4))
    &&& s[4] == '-'
    &&& all_digits(s.subrange(5, 7))
    &&& 1 <= dec_val(s.subrange(5, 7)) <= 12
}

pub open spec fn ym_year(s: Seq<char>) -> nat {
    dec_val(s.subrange(0, 4))
}

pub open spec fn ym_month(s: Seq<char>) -> nat {
    dec_val(s.subrange(5, 7))
}

pub open spec fn ym_index(s: Seq<char>) -> int {
    month_index(ym_year(s) as int, ym_month(s) as int)
}

/// Reads a "YYYY-MM" string as a year and a month.
pub fn parse_year_month(s: &str) -> (r: Option<(u32, u32)>)
    ensures
        r is Some <==> valid_year_month(s@),
        r matches Some(p) ==> p.0 == ym_year(s@) && p.1 == ym_month(s@),
{
    if s.unicode_len() != 7 {
        return None;
    }
    if s.get_char(4) != '-' {
        return None;
    }
    let year = match parse_u128_range(s, 0, 4, 9999) {
        None => {
            proof {
                if all_digits(s@.subrange(0, 4)) {
                    lemma_dec_val_bound(s@.subrange(0, 4));
                    assert(pow10(0) == 1);
                    assert(pow10(1) == 10);
                    assert(pow10(2) == 100);
                    assert(pow10(3) == 1000);
                    assert(pow10(4) == 10000);
                }
            }
            return None;
        },
        Some(y) => y,
    };
    let month = match parse_u128_range(s, 5, 7, 99) {
        None => {
            proof {
                if all_digits(s@.subrange(5, 7)) {
                    lemma_dec_val_bound(s@.subrange(5, 7));
                    assert(pow10(0) == 1);
                    assert(pow10(1) == 10);
                    assert(pow10(2) == 100);
                }
            }
            return None;
        },
        Some(m) => m,
    };
    if month < 1 || month > 12 {
        return None;
    }
    Some((year as u32, month as u32))
}

/// Renders one calendar day as "YYYY-MM-DDT00:00:00Z".
pub fn format_day_timestamp(year: u32, month: u32, day: u32) -> (s: String)
    requires
        year <= 9999,
        month <= 99,
        day <= 99,
    ensures
        s@ == timestamp_chars(year as int, month as int, day as int),
{
    let mut s = String::new();
    s.append(digit_to_str((year / 1000) as u128));
    s.append(digit_to_str((year / 100 % 10) as u128));
    s.append(digit_to_str((year / 10 % 10) as u128));
    s.append(digit_to_str((year % 10) as u128));
    s.append("-");
    s.append(digit_to_str((month / 10 % 10) as u128));
    s.append(digit_to_str((month % 10) as u128));
    s.append("-");
    s.append(digit_to_str((day / 10 % 10) as u128));
    s.append(digit_to_str((day % 10) as u128));
    s.append("T00:00:00Z");
    proof {
        reveal_strlit("-");
        reveal_strlit("T00:00:00Z");
        assert(year / 1000 % 10 == year / 1000);
        assert(s@ =~= timestamp_chars(year as int, month as int, day as int));
    }
    s
}

/// Splits an inclusive "YYYY-MM" month range into one bucket per calendar
/// month, each bucket the timestamps of the month's first and last day.
/// Fails exactly when one of the bounds is not a well-formed year-month; a
/// start after the end yields an empty partition.
pub fn build_date_range(start_date: &str, end_date: &str) -> (r: Result<
    Vec<(String, String)>,
    ReportError,
>)
    ensures
        r is Ok <==> valid_year_month(start_date@) && valid_year_month(end_date@),
        r matches Err(e) ==> e == ReportError::InvalidDateFormat,
        r matches Ok(v) ==> {
            let si = ym_index(start_date@);
            let ei = ym_index(end_date@);
            &&& v@.len() == (if si <= ei {
                ei - si + 1
            } else {
                0
            })
            &&& forall|k: int|
                0 <= k < v@.len() ==> (#[trigger] v@[k]).0@ == bucket_start_chars(si + k)
                    && v@[k].1@ == bucket_end_chars(si + k)
        },
{
    let (start_year, start_month) = match parse_year_month(start_date) {
        None => {
            return Err(ReportError::InvalidDateFormat);
        },
        Some(p) => p,
    };
    let (end_year, end_month) = match parse_year_month(end_date) {
        None => {
            return Err(ReportError::InvalidDateFormat);
        },
        Some(p) => p,
    };
    let ghost si = ym_index(start_date@);
    let ghost ei = ym_index(end_date@);
    proof {
        lemma_dec_val_bound(start_date@.subrange(0, 4));
        lemma_dec_val_bound(end_date@.subrange(0, 4));
        assert(pow10(0) == 1);
        assert(pow10(1) == 10);
        assert(pow10(2) == 100);
        assert(pow10(3) == 1000);
        assert(pow10(4) == 10000);
    }
    let mut dates: Vec<(String, String)> = Vec::new();
    let mut y = start_year;
    let mut m = start_month;
    while y < end_year || (y == end_year && m <= end_month)
        invariant
            1 <= m <= 12,
            y <= 10000,
            end_year <= 9999,
            si == month_index(start_year as int, start_month as int),
            ei == month_index(end_year as int, end_month as int),
            1 <= end_month <= 12,
            month_index(y as int, m as int) - si == dates@.len(),
            si <= month_index(y as int, m as int) <= ei + 1 || dates@.len() == 0,
            forall|k: int|
                0 <= k < dates@.len() ==> (#[trigger] dates@[k]).0@ == bucket_start_chars(si + k)
                    && dates@[k].1@ == bucket_end_chars(si + k),
        decreases ei + 1 - month_index(y as int, m as int),
    {
        proof {
            let cur = month_index(y as int, m as int);
            assert(cur <= ei);
            assert(idx_year(cur) == y as int && idx_month(cur) == m as int) by (nonlinear_arith)
                requires
                    cur == y as int * 12 + m - 1,
                    1 <= m <= 12,
            ;
        }
        let d = last_day_of_month(y, m);
        let bucket_start = format_day_timestamp(y, m, 1);
        let bucket_end = format_day_timestamp(y, m, d);
        dates.push((bucket_start, bucket_end));
        if m == 12 {
            y = y + 1;
            m = 1;
        } else {
            m = m + 1;
        }
    }
    Ok(dates)
}

/// The partition is one bucket per calendar month, ascending with no gaps or
/// overlaps: the month of index `i + 1` is the calendar month right after the
/// month of index `i`, and each index is the index of its own year and month.
pub proof fn lemma_partition_months(i: int)
    requires
        i >= 0,
    ensures
        1 <= idx_month(i) <= 12,
        month_index(idx_year(i), idx_month(i)) == i,
        idx_month(i) == 12 ==> idx_year(i + 1) == idx_year(i) + 1 && idx_month(i + 1) == 1,
        idx_month(i) != 12 ==> idx_year(i + 1) == idx_year(i) && idx_month(i + 1) == idx_month(i)
            + 1,
{
    assert(idx_year(i) * 12 + i % 12 == i) by (nonlinear_arith)
        requires
            i >= 0,
    ;
    assert((i + 1) / 12 == if i % 12 == 11 {
        i / 12 + 1
    } else {
        i / 12
    }) by (nonlinear_arith)
        requires
            i >= 0,
    ;
    assert((i + 1) % 12 == if i % 12 == 11 {
        0
    } else {
        i % 12 + 1
    }) by (nonlinear_arith)
        requires
            i >= 0,
    ;
}

} // verus!
