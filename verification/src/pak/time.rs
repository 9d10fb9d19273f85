//! Calendar arithmetic for the timestamps that PAK entries carry: PopCap
//! entries store Windows FILETIME ticks, TV ZIP entries MS-DOS date and time.
use vstd::prelude::*;

use crate::text::{decimal_padded, push_decimal_padded, push_str, string_of_all};

verus! {

/// Gregorian leap years.
pub open spec fn is_leap(y: int) -> bool {
    y % 4 == 0 && (y % 100 != 0 || y % 400 == 0)
}

/// The length of month `m` of year `y`.
pub open spec fn days_in_month(y: int, m: int) -> int {
    if m == 2 {
        if is_leap(y) {
            29
        } else {
            28
        }
    } else if m == 4 || m == 6 || m == 9 || m == 11 {
        30
    } else {
        31
    }
}

/// `y-m-d` names a day of the proleptic Gregorian calendar.
pub open spec fn valid_date(y: int, m: int, d: int) -> bool {
    1 <= m <= 12 && 1 <= d <= days_in_month(y, m)
}

/// The number of days from 1970-01-01 to `y-m-d`, counted in 400-year eras of
/// 146097 days whose years run from March to February.
pub open spec fn days_from_civil(y: int, m: int, d: int) -> int {
    let yp = if m <= 2 {
        y - 1
    } else {
        y
    };
    let era = yp / 400;
    let yoe = yp - era * 400;
    let mp = if m > 2 {
        m - 3
    } else {
        m + 9
    };
    let doy = (153 * mp + 2) / 5 + d - 1;
    let doe = yoe * 365 + yoe / 4 - yoe / 100 + doy;
    era * 146097 + doe - 719468
}

/// The year of an era that the day of era `doe` falls in.
spec fn year_of_era(doe: int) -> int {
    (doe - doe / 1460 + doe / 36524 - doe / 146096) / 365
}

/// Days of an era before its year `yoe` (years running March to February).
spec fn era_days_before(yoe: int) -> int {
    365 * yoe + yoe / 4 - yoe / 100
}

/// `t` is a day of year `100c + 4q + k` of an era, which has 366 days when it
/// ends with a leap February.
spec fn day_fits_year(c: int, q: int, k: int, t: int) -> bool {
    0 <= t && (t <= 364 || (t == 365 && k == 3 && (q < 24 || c == 3)))
}

#[verifier::rlimit(50)]
proof fn lemma_year_of_era_case(c: int, q: int, k: int, t: int)
    requires
        0 <= c <= 3,
        0 <= q <= 24,
        0 <= k <= 3,
        day_fits_year(c, q, k, t),
    ensures
        year_of_era(36524 * c + 1461 * q + 365 * k + t) == 100 * c + 4 * q + k,
{
    if c == 0 {
        if k == 0 {
        } else if k == 1 {
        } else if k == 2 {
        } else {
        }
    } else if c == 1 {
        if k == 0 {
        } else if k == 1 {
        } else if k == 2 {
        } else {
        }
    } else if c == 2 {
        if k == 0 {
        } else if k == 1 {
        } else if k == 2 {
        } else {
        }
    } else {
        if k == 0 {
        } else if k == 1 {
        } else if k == 2 {
        } else {
        }
    }
}

/// The day of era `doe` lies in year `year_of_era(doe)`, at day `doe - era_days_before(..)`
/// of that year, and day 365 exists only in years that end with a leap February.
proof fn lemma_year_of_era(doe: int)
    requires
        0 <= doe <= 146096,
    ensures
        ({
            let yoe = year_of_era(doe);
            let doy = doe - era_days_before(yoe);
            &&& 0 <= yoe <= 399
            &&& 0 <= doy <= 365
            &&& doy == 365 ==> (yoe + 1) % 4 == 0 && ((yoe + 1) % 100 != 0 || yoe + 1 == 400)
        }),
{
    let c = if doe / 36524 < 3 {
        doe / 36524
    } else {
        3
    };
    let r1 = doe - 36524 * c;
    let q = if r1 / 1461 < 24 {
        r1 / 1461
    } else {
        24
    };
    let r2 = r1 - 1461 * q;
    let k = if r2 / 365 < 3 {
        r2 / 365
    } else {
        3
    };
    let t = r2 - 365 * k;
    assert(day_fits_year(c, q, k, t));
    lemma_year_of_era_case(c, q, k, t);
    let yoe = 100 * c + 4 * q + k;
    assert(era_days_before(yoe) == 36524 * c + 1461 * q + 365 * k);
}

proof fn lemma_era_shift(era: int, yoe: int)
    requires
        0 <= yoe < 400,
    ensures
        (era * 400 + yoe) / 400 == era,
        (era * 400 + yoe + 1) % 4 == (yoe + 1) % 4,
        (era * 400 + yoe + 1) % 100 == (yoe + 1) % 100,
        (era * 400 + yoe + 1) % 400 == (yoe + 1) % 400,
{
    assert((era * 400 + yoe) / 400 == era) by (nonlinear_arith)
        requires
            0 <= yoe < 400,
    ;
    assert((era * 400 + yoe + 1) % 4 == (yoe + 1) % 4) by (nonlinear_arith);
    assert((era * 400 + yoe + 1) % 100 == (yoe + 1) % 100) by (nonlinear_arith);
    assert((era * 400 + yoe + 1) % 400 == (yoe + 1) % 400) by (nonlinear_arith);
}

/// The calendar date `days` days after 1970-01-01, as `(year, month, day)`;
/// `None` when the count is too large for the date arithmetic.
pub fn civil_date_from_unix_days(days: i64) -> (r: Option<(i64, i64, i64)>)
    ensures
        days > i64::MAX - 719_468 ==> r is None,
        days <= i64::MAX - 719_468 ==> (r matches Some((y, m, d)) && valid_date(y as int, m as int, d as int)
            && days_from_civil(y as int, m as int, d as int) == days && (days >= -719_468 ==> y >= 0)),
{
    if days > i64::MAX - 719_468 {
        return None;
    }
    let shifted = days + 719_468;
    let era = (if shifted >= 0 {
        shifted
    } else {
        shifted - 146_096
    }) / 146_097;
    assert(era * 146097 <= shifted < era * 146097 + 146097) by (nonlinear_arith)
        requires
            shifted >= 0 ==> era == shifted / 146097,
            shifted < 0 ==> era == -((146096 - shifted) / 146097),
    ;
    let day_of_era = shifted - era * 146_097;
    let year_of_era = (day_of_era - day_of_era / 1_460 + day_of_era / 36_524 - day_of_era / 146_096) / 365;
    proof {
        lemma_year_of_era(day_of_era as int);
    }
    let mut year = year_of_era + era * 400;
    let day_of_year = day_of_era - (365 * year_of_era + year_of_era / 4 - year_of_era / 100);
    let month_prime = (5 * day_of_year + 2) / 153;
    let day = day_of_year - (153 * month_prime + 2) / 5 + 1;
    let month = month_prime + if month_prime < 10 {
        3
    } else {
        -9
    };
    if month <= 2 {
        year = year + 1;
    }
    proof {
        lemma_era_shift(era as int, year_of_era as int);
        let y = year as int;
        let yp = if month <= 2 {
            y - 1
        } else {
            y
        };
        assert(yp == era * 400 + year_of_era);
        if month <= 2 {
            assert(is_leap(y) <==> ((year_of_era + 1) % 4 == 0 && ((year_of_era + 1) % 100 != 0 || (
            year_of_era + 1) % 400 == 0)));
        }
        assert(valid_date(y, month as int, day as int));
        assert(days_from_civil(y, month as int, day as int) == days);
    }
    Some((year, month, day))
}

/// Ticks of a Windows FILETIME (100 ns since 1601-01-01) as whole seconds since 1970-01-01.
pub open spec fn filetime_unix_seconds(ticks: u64) -> int {
    ticks as int / 10_000_000 - 11_644_473_600
}

/// `YYYY-MM-DD hh:mm:ss`, each field zero-padded.
pub open spec fn timestamp_text(y: nat, mo: nat, d: nat, h: nat, mi: nat, s: nat) -> Seq<char> {
    decimal_padded(y, 4) + "-"@ + decimal_padded(mo, 2) + "-"@ + decimal_padded(d, 2) + " "@
        + decimal_padded(h, 2) + ":"@ + decimal_padded(mi, 2) + ":"@ + decimal_padded(s, 2)
}

fn timestamp_string(y: u64, mo: u64, d: u64, h: u64, mi: u64, s: u64) -> (out: String)
    ensures
        out@ == timestamp_text(y as nat, mo as nat, d as nat, h as nat, mi as nat, s as nat),
{
    let mut v: Vec<char> = Vec::new();
    push_decimal_padded(&mut v, y, 4);
    push_str(&mut v, "-");
    push_decimal_padded(&mut v, mo, 2);
    push_str(&mut v, "-");
    push_decimal_padded(&mut v, d, 2);
    push_str(&mut v, " ");
    push_decimal_padded(&mut v, h, 2);
    push_str(&mut v, ":");
    push_decimal_padded(&mut v, mi, 2);
    push_str(&mut v, ":");
    push_decimal_padded(&mut v, s, 2);
    assert(v@ =~= timestamp_text(y as nat, mo as nat, d as nat, h as nat, mi as nat, s as nat));
    string_of_all(&v)
}

/// `text` shows the FILETIME `ticks` as UTC calendar time.
pub open spec fn is_filetime_text(ticks: u64, text: Seq<char>) -> bool {
    exists|y: int, m: int, d: int|
        #![trigger days_from_civil(y, m, d)]
        {
            let secs = filetime_unix_seconds(ticks);
            let day = secs / 86400;
            let sod = secs % 86400;
            &&& y >= 0
            &&& valid_date(y, m, d)
            &&& days_from_civil(y, m, d) == day
            &&& text == timestamp_text(
                y as nat,
                m as nat,
                d as nat,
                (sod / 3600) as nat,
                (sod % 3600 / 60) as nat,
                (sod % 60) as nat,
            )
        }
}

/// A PopCap FILETIME timestamp as UTC calendar time.
pub fn format_filetime(ticks: u64) -> (out: Option<String>)
    ensures
        out matches Some(text) && is_filetime_text(ticks, text@),
{
    let unix_seconds: i64 = (ticks / 10_000_000) as i64 - 11_644_473_600;
    let days = if unix_seconds >= 0 {
        unix_seconds / 86_400
    } else {
        (unix_seconds - 86_399) / 86_400
    };
    let seconds = unix_seconds - days * 86_400;
    assert(days == unix_seconds as int / 86400 && seconds == unix_seconds as int % 86400) by (nonlinear_arith)
        requires
            unix_seconds >= 0 ==> days == unix_seconds / 86400,
            unix_seconds < 0 ==> days == -((86399 - unix_seconds) / 86400),
            seconds == unix_seconds - days * 86400,
    ;
    let (year, month, day) = match civil_date_from_unix_days(days) {
        Some(date) => date,
        None => {
            return None;
        },
    };
    // 1601-01-01, the earliest date a FILETIME expresses, lies after year 0.
    assert(days >= -134774);
    let hour = seconds / 3_600;
    let minute = (seconds % 3_600) / 60;
    let second = seconds % 60;
    let text = timestamp_string(
        year as u64,
        month as u64,
        day as u64,
        hour as u64,
        minute as u64,
        second as u64,
    );
    proof {
        assert(days_from_civil(year as int, month as int, day as int) == days);
    }
    Some(text)
}

/// The timestamp an entry of a PAK archive carries.
#[derive(Clone, Copy, Debug, PartialEq, Eq)]
pub enum PakTimestamp {
    /// No timestamp stored.
    Unset,
    /// Windows FILETIME ticks, as stored by PopCap flat archives.
    PopCap(u64),
    /// MS-DOS date and time words, as stored by ZIP archives.
    ZipMsDos { date: u16, time: u16 },
}

/// The fields of an MS-DOS date/time pair: years since 1980 in the top seven
/// bits of the date, then month and day; hours, minutes and two-second units
/// in the time.
pub open spec fn ms_dos_text(date: u16, time: u16) -> Seq<char> {
    timestamp_text(
        (1980 + (date >> 9u16)) as nat,
        ((date >> 5u16) & 0x0f) as nat,
        (date & 0x1f) as nat,
        (time >> 11u16) as nat,
        ((time >> 5u16) & 0x3f) as nat,
        ((time & 0x1f) * 2) as nat,
    )
}

/// How the inspector shows an entry timestamp.
pub fn timestamp_label(value: PakTimestamp) -> (out: String)
    ensures
        value is Unset ==> out@ == "\u{2014}"@,
        value matches PakTimestamp::PopCap(ticks) ==> is_filetime_text(ticks, out@),
        value matches PakTimestamp::ZipMsDos { date, time } ==> out@ == ms_dos_text(date, time),
{
    match value {
        PakTimestamp::Unset => {
            let mut v: Vec<char> = Vec::new();
            push_str(&mut v, "\u{2014}");
            string_of_all(&v)
        },
        PakTimestamp::PopCap(ticks) => match format_filetime(ticks) {
            Some(text) => text,
            None => {
                let mut v: Vec<char> = Vec::new();
                crate::text::push_decimal(&mut v, ticks);
                string_of_all(&v)
            },
        },
        PakTimestamp::ZipMsDos { date, time } => {
            let year: u64 = 1980 + (date >> 9u16) as u64;
            let month: u64 = ((date >> 5u16) & 0x0f) as u64;
            let day: u64 = (date & 0x1f) as u64;
            let hour: u64 = (time >> 11u16) as u64;
            let minute: u64 = ((time >> 5u16) & 0x3f) as u64;
            let second: u64 = ((time & 0x1f) as u64) * 2;
            timestamp_string(year, month, day, hour, minute, second)
        },
    }
}

} // verus!
