//! The self-contained calendar conversion for the listing engine: an epoch
//! timestamp in seconds becomes `<month> <day> <hour>:<minute>`, computed by
//! integer division and an explicit year-by-year and month-by-month walk.
//!
//! The walk is deliberately simple and is specified exactly as implemented:
//! years are consumed from a fixed base year through a fixed final year with
//! the usual leap-year rule, while the month table never counts a leap day,
//! so during a leap year the day of month runs one ahead from March onward.
use vstd::prelude::*;

use crate::text::dec_spec;
use crate::text::digit_char;
use crate::text::pad_left_spec;
use crate::text::pad_left;
use crate::text::push_char;
use crate::text::u64_to_dec;

verus! {

/// The leap-year rule: divisible by 4 and not by 100, or divisible by 400.
pub open spec fn is_leap_year(y: int) -> bool {
    (y % 4 == 0 && y % 100 != 0) || y % 400 == 0
}

/// One pass of the year walk starting at year `y` with `rem` days left:
/// subtracts a year's worth of days while at least a year remains, stopping
/// after the final walked year. Returns the days left over.
pub open spec fn year_walk(y: int, rem: int) -> int
    decreases 2025 - y,
{
    if y > 2024 {
        rem
    } else {
        let rem2 = if is_leap_year(y) {
            if rem >= 366 {
                rem - 366
            } else {
                rem
            }
        } else {
            if rem >= 365 {
                rem - 365
            } else {
                rem
            }
        };
        if rem2 < 365 {
            rem2
        } else {
            year_walk(y + 1, rem2)
        }
    }
}

/// Days per month; February always counts 28.
pub open spec fn month_table(m: int) -> int {
    if m == 0 {
        31
    } else if m == 1 {
        28
    } else if m == 2 {
        31
    } else if m == 3 {
        30
    } else if m == 4 {
        31
    } else if m == 5 {
        30
    } else if m == 6 {
        31
    } else if m == 7 {
        31
    } else if m == 8 {
        30
    } else if m == 9 {
        31
    } else if m == 10 {
        30
    } else {
        31
    }
}

/// The month walk from month index `m`: finds the first month with more days
/// than remain and returns its index with the days left before it. If every
/// month is consumed the index reported stays zero, as the walk's original
/// formulation leaves it.
pub open spec fn month_walk(m: int, rem: int) -> (int, int)
    decreases 12 - m,
{
    if m >= 12 {
        (0, rem)
    } else if rem < month_table(m) {
        (m, rem)
    } else {
        month_walk(m + 1, rem - month_table(m))
    }
}

/// The abbreviated month names used in listings.
pub open spec fn month_name(m: int) -> Seq<char> {
    if m == 0 {
        "Jan"@
    } else if m == 1 {
        "Feb"@
    } else if m == 2 {
        "Mar"@
    } else if m == 3 {
        "Apr"@
    } else if m == 4 {
        "May"@
    } else if m == 5 {
        "June"@
    } else if m == 6 {
        "July"@
    } else if m == 7 {
        "Aug"@
    } else if m == 8 {
        "Sept"@
    } else if m == 9 {
        "Oct"@
    } else if m == 10 {
        "Nov"@
    } else {
        "Dec"@
    }
}

/// A number rendered with at least two digits, zero-padded.
pub open spec fn two_digit_spec(n: nat) -> Seq<char> {
    if n < 10 {
        seq!['0', digit_char(n)]
    } else {
        dec_spec(n)
    }
}

/// The full formatted timestamp for `total_secs` seconds since the epoch.
pub open spec fn time_string_spec(total_secs: nat) -> Seq<char> {
    let total_mins = total_secs / 60;
    let mins = total_mins % 60;
    let total_hours = total_mins / 60;
    let hours = total_hours % 24;
    let days = total_hours / 24;
    let rem = year_walk(1970, days as int);
    let mw = month_walk(0, rem);
    let day = (mw.1 + 1) as nat;
    month_name(mw.0) + " "@ + pad_left_spec(dec_spec(day), 2) + " "@ + two_digit_spec(hours) + ":"@
        + two_digit_spec(mins)
}

/// Whether `y` is a leap year.
fn leap_year(y: u64) -> (r: bool)
    ensures
        r == is_leap_year(y as int),
{
    (y % 4 == 0 && y % 100 != 0) || y % 400 == 0
}

/// Days of the month at index `m`.
fn month_len(m: usize) -> (r: u64)
    requires
        m < 12,
    ensures
        r as int == month_table(m as int),
{
    if m == 0 {
        31
    } else if m == 1 {
        28
    } else if m == 2 {
        31
    } else if m == 3 {
        30
    } else if m == 4 {
        31
    } else if m == 5 {
        30
    } else if m == 6 {
        31
    } else if m == 7 {
        31
    } else if m == 8 {
        30
    } else if m == 9 {
        31
    } else if m == 10 {
        30
    } else {
        31
    }
}

/// The abbreviated name of the month at index `m`.
fn month_name_str(m: usize) -> (r: &'static str)
    requires
        m < 12,
    ensures
        r@ == month_name(m as int),
{
    if m == 0 {
        "Jan"
    } else if m == 1 {
        "Feb"
    } else if m == 2 {
        "Mar"
    } else if m == 3 {
        "Apr"
    } else if m == 4 {
        "May"
    } else if m == 5 {
        "June"
    } else if m == 6 {
        "July"
    } else if m == 7 {
        "Aug"
    } else if m == 8 {
        "Sept"
    } else if m == 9 {
        "Oct"
    } else {
        if m == 10 {
            "Nov"
        } else {
            "Dec"
        }
    }
}

/// Formats a modification instant, given as whole seconds since the epoch,
/// as `<abbreviated month> <day> <hour>:<minute>`, hour and minute zero-padded
/// to two digits and the day right-aligned in a two-character field.
pub fn format_time(total_secs: u64) -> (r: String)
    ensures
        r@ == time_string_spec(total_secs as nat),
{
    let total_mins = total_secs / 60;
    let mins = total_mins % 60;
    let total_hours = total_mins / 60;
    let hours = total_hours % 24;
    let days = total_hours / 24;

    // Walk forward year by year from the base year.
    let mut rem = days;
    let mut y: u64 = 1970;
    while y <= 2024
        invariant_except_break
            1970 <= y <= 2025,
            rem <= days,
            year_walk(1970, days as int) == year_walk(y as int, rem as int),
        ensures
            rem <= days,
            rem as int == year_walk(1970, days as int),
        decreases 2025 - y,
    {
        if leap_year(y) {
            if rem >= 366 {
                rem = rem - 366;
            }
        } else {
            if rem >= 365 {
                rem = rem - 365;
            }
        }
        if rem < 365 {
            break ;
        }
        y = y + 1;
    }

    // Walk forward month by month through the fixed table.
    let mut mrem = rem;
    let mut month: usize = 0;
    let mut mi: usize = 0;
    while mi < 12
        invariant_except_break
            mi < 12,
            month == 0,
            mrem <= rem,
            month_walk(0, rem as int) == month_walk(mi as int, mrem as int),
        ensures
            mrem <= rem,
            month < 12,
            month as int == month_walk(0, rem as int).0,
            mrem as int == month_walk(0, rem as int).1,
        decreases 12 - mi,
    {
        let d = month_len(mi);
        if mrem < d {
            month = mi;
            break ;
        }
        mrem = mrem - d;
        if mi == 11 {
            proof {
                assert(month_walk(12, (mrem) as int) == (0int, mrem as int));
            }
            break ;
        }
        mi = mi + 1;
    }
    let day = mrem + 1;

    let mut s = String::from_str(month_name_str(month));
    s.append(" ");
    s.append(pad_left(u64_to_dec(day), 2).as_str());
    s.append(" ");
    if hours < 10 {
        push_char(&mut s, '0');
    }
    s.append(u64_to_dec(hours).as_str());
    s.append(":");
    if mins < 10 {
        push_char(&mut s, '0');
    }
    s.append(u64_to_dec(mins).as_str());
    proof {
        assert(s@ =~= time_string_spec(total_secs as nat));
    }
    s
}

} // verus!
