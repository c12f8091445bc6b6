use vstd::prelude::*;

use crate::codec::{digit_char, digit_str, push_digits, spec_digits};
use vstd::string::StringExecFns;

verus! {

/// A calendar date as plain values. The library's own model of a date: what
/// the calendar logic reads is held directly, and only the clock reading
/// itself comes from outside.
#[derive(Debug, Clone, Copy, PartialEq, Eq, Structural)]
pub struct Ymd {
    pub year: i32,
    pub month: u8,
    pub day: u8,
}

/// The dates the formatting and calendar logic is stated for: a four-digit
/// year and month and day in calendar range.
pub open spec fn ymd_valid(d: Ymd) -> bool {
    &&& 0 <= d.year <= 9999
    &&& 1 <= d.month <= 12
    &&& 1 <= d.day <= 31
}

impl Ymd {
    /// The date, when the parts are in the modelled calendar range.
    pub fn checked(year: i32, month: u32, day: u32) -> (r: Option<Ymd>)
        ensures
            match r {
                Some(d) => ymd_valid(d) && d.year == year && d.month == month && d.day == day,
                None => !(0 <= year <= 9999 && 1 <= month <= 12 && 1 <= day <= 31),
            },
    {
        if 0 <= year && year <= 9999 && 1 <= month && month <= 12 && 1 <= day && day <= 31 {
            Some(Ymd { year, month: month as u8, day: day as u8 })
        } else {
            None
        }
    }
}

pub open spec fn spec_is_leap_year(y: int) -> bool {
    (y % 4 == 0 && y % 100 != 0) || y % 400 == 0
}

/// The number of days of month `m` of year `y`.
pub open spec fn spec_days_in_month(y: int, m: int) -> int {
    if m == 2 {
        if spec_is_leap_year(y) {
            29
        } else {
            28
        }
    } else if m == 4 || m == 6 || m == 9 || m == 11 {
        30
    } else {
        31
    }
}

pub fn days_in_month(y: i32, m: u8) -> (d: u8)
    requires
        0 <= y,
        1 <= m <= 12,
    ensures
        d as int == spec_days_in_month(y as int, m as int),
        28 <= d <= 31,
{
    if m == 2 {
        if (y % 4 == 0 && y % 100 != 0) || y % 400 == 0 {
            29
        } else {
            28
        }
    } else if m == 4 || m == 6 || m == 9 || m == 11 {
        30
    } else {
        31
    }
}

/// The first and the last day of the month that `today` falls in.
pub fn first_and_last_day_of_month(today: Ymd) -> (r: (Ymd, Ymd))
    requires
        ymd_valid(today),
    ensures
        r.0 == (Ymd { year: today.year, month: today.month, day: 1 }),
        r.1 == (Ymd {
            year: today.year,
            month: today.month,
            day: spec_days_in_month(today.year as int, today.month as int) as u8,
        }),
        ymd_valid(r.0),
        ymd_valid(r.1),
    {
    let last = days_in_month(today.year, today.month);
    (
        Ymd { year: today.year, month: today.month, day: 1 },
        Ymd { year: today.year, month: today.month, day: last },
    )
}

/// The contribution of each month to the day-of-week formula.
pub open spec fn spec_month_key(m: int) -> int {
    if m == 1 {
        0
    } else if m == 2 {
        3
    } else if m == 3 {
        2
    } else if m == 4 {
        5
    } else if m == 5 {
        0
    } else if m == 6 {
        3
    } else if m == 7 {
        5
    } else if m == 8 {
        1
    } else if m == 9 {
        4
    } else if m == 10 {
        6
    } else if m == 11 {
        2
    } else {
        4
    }
}

/// Day of the week of a calendar date, 0 for Sunday through 6 for Saturday:
/// the year-shift formula over the Gregorian calendar.
pub open spec fn spec_day_of_week(y: int, m: int, d: int) -> int {
    let yy = if m < 3 {
        y - 1
    } else {
        y
    };
    (yy + yy / 4 - yy / 100 + yy / 400 + spec_month_key(m) + d) % 7
}

pub open spec fn spec_is_weekend(y: int, m: int, d: int) -> bool {
    spec_day_of_week(y, m, d) == 0 || spec_day_of_week(y, m, d) == 6
}

pub fn day_of_week(y: i32, m: u8, d: u8) -> (w: u8)
    requires
        1 <= y <= 9999,
        1 <= m <= 12,
        1 <= d <= 31,
    ensures
        w as int == spec_day_of_week(y as int, m as int, d as int),
        w < 7,
{
    let yy: u32 = if m < 3 {
        (y - 1) as u32
    } else {
        y as u32
    };
    let mk: u32 = match m {
        1 => 0,
        2 => 3,
        3 => 2,
        4 => 5,
        5 => 0,
        6 => 3,
        7 => 5,
        8 => 1,
        9 => 4,
        10 => 6,
        11 => 2,
        _ => 4,
    };
    let sum: u32 = yy + yy / 4 + yy / 400 + mk + d as u32 - yy / 100;
    proof {
        assert(yy >= yy / 100);
        assert(mk == spec_month_key(m as int));
        assert(sum == yy + yy / 4 - yy / 100 + yy / 400 + mk + d);
    }
    let w = (sum % 7) as u8;
    w
}

pub fn is_weekend(y: i32, m: u8, d: u8) -> (b: bool)
    requires
        1 <= y <= 9999,
        1 <= m <= 12,
        1 <= d <= 31,
    ensures
        b == spec_is_weekend(y as int, m as int, d as int),
{
    let w = day_of_week(y, m, d);
    w == 0 || w == 6
}

// ---------------------------------------------------------------------------
// Date formatting.
// ---------------------------------------------------------------------------

/// Two decimal digits, zero padded.
pub open spec fn two_digits(n: int) -> Seq<char> {
    seq![digit_char(n / 10), digit_char(n % 10)]
}

/// Four decimal digits, zero padded.
pub open spec fn four_digits(n: int) -> Seq<char> {
    two_digits(n / 100) + two_digits(n % 100)
}

pub fn push_two_digits(out: &mut String, n: u32)
    requires
        n < 100,
    ensures
        final(out)@ == old(out)@ + two_digits(n as int),
{
    let hi = digit_str((n / 10) as u64);
    let lo = digit_str((n % 10) as u64);
    out.append(hi);
    out.append(lo);
    assert(out@ =~= old(out)@ + two_digits(n as int));
}

pub fn push_four_digits(out: &mut String, n: u32)
    requires
        n < 10000,
    ensures
        final(out)@ == old(out)@ + four_digits(n as int),
{
    push_two_digits(out, n / 100);
    push_two_digits(out, n % 100);
    assert(out@ =~= old(out)@ + four_digits(n as int));
}

/// A date in the `MM/DD/YYYY` shape of the timelog sheet.
pub open spec fn mdy_of(d: Ymd) -> Seq<char> {
    two_digits(d.month as int) + "/"@ + two_digits(d.day as int) + "/"@ + four_digits(d.year as int)
}

pub fn format_mdy(d: Ymd) -> (r: String)
    requires
        ymd_valid(d),
    ensures
        r@ == mdy_of(d),
{
    let mut out = String::new();
    push_two_digits(&mut out, d.month as u32);
    out.append("/");
    push_two_digits(&mut out, d.day as u32);
    out.append("/");
    push_four_digits(&mut out, d.year as u32);
    assert(out@ =~= mdy_of(d));
    out
}

/// A date in the dashed `YYYY-MM-DD` shape of the task filter.
pub open spec fn ymd_dashed(d: Ymd) -> Seq<char> {
    four_digits(d.year as int) + "-"@ + two_digits(d.month as int) + "-"@ + two_digits(
        d.day as int,
    )
}

pub fn format_ymd_dashed(d: Ymd) -> (r: String)
    requires
        ymd_valid(d),
    ensures
        r@ == ymd_dashed(d),
{
    let mut out = String::new();
    push_four_digits(&mut out, d.year as u32);
    out.append("-");
    push_two_digits(&mut out, d.month as u32);
    out.append("-");
    push_two_digits(&mut out, d.day as u32);
    assert(out@ =~= ymd_dashed(d));
    out
}

/// The three-letter month name of the stand-up heading and sheet title.
pub open spec fn month_abbrev(m: int) -> Seq<char> {
    if m == 1 {
        "Jan"@
    } else if m == 2 {
        "Feb"@
    } else if m == 3 {
        "Mar"@
    } else if m == 4 {
        "Apr"@
    } else if m == 5 {
        "May"@
    } else if m == 6 {
        "Jun"@
    } else if m == 7 {
        "Jul"@
    } else if m == 8 {
        "Aug"@
    } else if m == 9 {
        "Sep"@
    } else if m == 10 {
        "Oct"@
    } else if m == 11 {
        "Nov"@
    } else {
        "Dec"@
    }
}

pub fn month_str(m: u8) -> (r: &'static str)
    requires
        1 <= m <= 12,
    ensures
        r@ == month_abbrev(m as int),
{
    match m {
        1 => "Jan",
        2 => "Feb",
        3 => "Mar",
        4 => "Apr",
        5 => "May",
        6 => "Jun",
        7 => "Jul",
        8 => "Aug",
        9 => "Sep",
        10 => "Oct",
        11 => "Nov",
        _ => "Dec",
    }
}

/// The day suffix of the stand-up heading: 1st, 2nd, 3rd, 4th, ...
pub open spec fn day_suffix(d: int) -> Seq<char> {
    if d == 1 || d == 21 || d == 31 {
        "st"@
    } else if d == 2 || d == 22 {
        "nd"@
    } else if d == 3 || d == 23 {
        "rd"@
    } else {
        "th"@
    }
}

pub fn day_suffix_str(d: u8) -> (r: &'static str)
    ensures
        r@ == day_suffix(d as int),
{
    match d {
        1 | 21 | 31 => "st",
        2 | 22 => "nd",
        3 | 23 => "rd",
        _ => "th",
    }
}

/// The stand-up heading's date: month name, zero-padded day and suffix.
pub open spec fn day_label_of(m: int, d: int) -> Seq<char> {
    month_abbrev(m) + " "@ + two_digits(d) + day_suffix(d)
}

/// The compute half of the heading: the caller supplies the clock reading.
pub fn day_label(m: u8, d: u8) -> (r: String)
    requires
        1 <= m <= 12,
        1 <= d <= 31,
    ensures
        r@ == day_label_of(m as int, d as int),
{
    let mut out = month_str(m).to_owned();
    out.append(" ");
    push_two_digits(&mut out, d as u32);
    out.append(day_suffix_str(d));
    assert(out@ =~= day_label_of(m as int, d as int));
    out
}

/// The sheet title of a month: the month name with the year in parentheses.
pub open spec fn sheet_name_of(y: int, m: int) -> Seq<char> {
    month_abbrev(m) + "("@ + spec_digits(y as nat) + ")"@
}

pub fn sheet_name_for(y: i32, m: u8) -> (r: String)
    requires
        0 <= y,
        1 <= m <= 12,
    ensures
        r@ == sheet_name_of(y as int, m as int),
{
    let mut out = month_str(m).to_owned();
    out.append("(");
    push_digits(&mut out, y as u64);
    out.append(")");
    assert(out@ =~= sheet_name_of(y as int, m as int));
    out
}

} // verus!
