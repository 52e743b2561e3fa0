//! Timestamps as text, in the store's format `YYYY-MM-DD HH:MM:SS[.frac]`.
//!
//! The store orders timestamps lexicographically, which on this format
//! agrees with chronological order.  This module validates the shape,
//! reformats a timestamp for receipts, and computes the day-range and
//! days-back cutoffs the date filters compare against.

use vstd::prelude::*;

use crate::error::{AppError, AppResult};
use crate::text::{dec_padded, four_digits, two_digits};

verus! {

/// A decimal digit character.
pub open spec fn is_digit(c: char) -> bool {
    48 <= c as u32 <= 57
}

/// The value of the digit at position `i`.
pub open spec fn digit_at(s: Seq<char>, i: int) -> int {
    (s[i] as u32) - 48
}

/// The value of the two digits starting at position `i`.
pub open spec fn two_digit_val(s: Seq<char>, i: int) -> int {
    digit_at(s, i) * 10 + digit_at(s, i + 1)
}

/// The value of the four digits starting at position `i`.
pub open spec fn four_digit_val(s: Seq<char>, i: int) -> int {
    two_digit_val(s, i) * 100 + two_digit_val(s, i + 2)
}

/// A well-formed timestamp: `YYYY-MM-DD HH:MM:SS`, possibly followed by
/// fractional seconds, with all fields in range.
pub open spec fn wf_timestamp(s: Seq<char>) -> bool {
    &&& s.len() >= 19
    &&& is_digit(s[0]) && is_digit(s[1]) && is_digit(s[2]) && is_digit(s[3])
    &&& s[4] == '-'
    &&& is_digit(s[5]) && is_digit(s[6])
    &&& s[7] == '-'
    &&& is_digit(s[8]) && is_digit(s[9])
    &&& s[10] == ' '
    &&& is_digit(s[11]) && is_digit(s[12])
    &&& s[13] == ':'
    &&& is_digit(s[14]) && is_digit(s[15])
    &&& s[16] == ':'
    &&& is_digit(s[17]) && is_digit(s[18])
    &&& 1 <= two_digit_val(s, 5) <= 12
    &&& 1 <= two_digit_val(s, 8) <= 31
    &&& two_digit_val(s, 11) <= 23
    &&& two_digit_val(s, 14) <= 59
    &&& two_digit_val(s, 17) <= 59
}

fn digit_check(c: char) -> (r: bool)
    ensures
        r == is_digit(c),
{
    let u = c as u32;
    48 <= u && u <= 57
}

fn two_digit_exec(cs: &Vec<char>, i: usize) -> (r: u64)
    requires
        i + 2 <= cs@.len(),
        is_digit(cs@[i as int]),
        is_digit(cs@[i as int + 1]),
    ensures
        r == two_digit_val(cs@, i as int),
        r <= 99,
{
    let n = cs.len();
    assert(i + 2 <= n);
    let hi = (cs[i] as u32) - 48;
    let lo = (cs[i + 1] as u32) - 48;
    ((hi * 10 + lo) as u64)
}

/// Checks that a timestamp has the store's shape with all fields in range.
pub fn validate_timestamp(ts: &str) -> (r: bool)
    ensures
        r == wf_timestamp(ts@),
{
    let cs = crate::text::chars_of(ts);
    if cs.len() < 19 {
        return false;
    }
    // fixed separators
    if !(cs[4] == '-' && cs[7] == '-' && cs[10] == ' ' && cs[13] == ':' && cs[16] == ':') {
        return false;
    }
    if !(digit_check(cs[0]) && digit_check(cs[1]) && digit_check(cs[2]) && digit_check(cs[3])) {
        return false;
    }
    if !(digit_check(cs[5]) && digit_check(cs[6]) && digit_check(cs[8]) && digit_check(cs[9])) {
        return false;
    }
    if !(digit_check(cs[11]) && digit_check(cs[12]) && digit_check(cs[14]) && digit_check(
        cs[15],
    )) {
        return false;
    }
    if !(digit_check(cs[17]) && digit_check(cs[18])) {
        return false;
    }
    let month = two_digit_exec(&cs, 5);
    let day = two_digit_exec(&cs, 8);
    let hour = two_digit_exec(&cs, 11);
    let minute = two_digit_exec(&cs, 14);
    let second = two_digit_exec(&cs, 17);
    1 <= month && month <= 12 && 1 <= day && day <= 31 && hour <= 23 && minute <= 59
        && second <= 59
}

/// The receipt form of a timestamp: `DD/MM/YYYY HH:MM`.
pub open spec fn receipt_date_of(s: Seq<char>) -> Seq<char> {
    s.subrange(8, 10) + seq!['/'] + s.subrange(5, 7) + seq!['/'] + s.subrange(0, 4) + seq![' ']
        + s.subrange(11, 13) + seq![':'] + s.subrange(14, 16)
}

/// Reformats a stored timestamp for display on a receipt.  Fails
/// `ValidationError` exactly when the timestamp is malformed.
pub fn format_receipt_date(ts: &str) -> (r: AppResult<String>)
    ensures
        match r {
            Ok(s) => wf_timestamp(ts@) && s@ == receipt_date_of(ts@),
            Err(AppError::ValidationError(_)) => !wf_timestamp(ts@),
            Err(_) => false,
        },
{
    if !validate_timestamp(ts) {
        return Err(AppError::ValidationError("malformed timestamp".to_owned()));
    }
    let day = ts.substring_char(8, 10);
    let month = ts.substring_char(5, 7);
    let year = ts.substring_char(0, 4);
    let hour = ts.substring_char(11, 13);
    let minute = ts.substring_char(14, 16);
    proof {
        reveal_strlit("/");
        reveal_strlit(" ");
        reveal_strlit(":");
    }
    let r = day.to_owned().concat("/").concat(month).concat("/").concat(year).concat(" ").concat(
        hour,
    ).concat(":").concat(minute);
    proof {
        assert("/"@ =~= seq!['/'] && " "@ =~= seq![' '] && ":"@ =~= seq![':']);
        assert(r@ =~= receipt_date_of(ts@));
    }
    Ok(r)
}

/// The first instant of a timestamp's day.
pub open spec fn day_floor_of(s: Seq<char>) -> Seq<char> {
    s.subrange(0, 10) + " 00:00:00"@
}

/// The last whole second of a timestamp's day.
pub open spec fn day_ceil_of(s: Seq<char>) -> Seq<char> {
    s.subrange(0, 10) + " 23:59:59"@
}

/// The start-of-day cutoff for the given timestamp.
pub fn day_floor(ts: &str) -> (r: String)
    requires
        wf_timestamp(ts@),
    ensures
        r@ == day_floor_of(ts@),
{
    let date = ts.substring_char(0, 10);
    proof {
        reveal_strlit(" 00:00:00");
    }
    date.to_owned().concat(" 00:00:00")
}

/// The end-of-day cutoff for the given timestamp.
pub fn day_ceil(ts: &str) -> (r: String)
    requires
        wf_timestamp(ts@),
    ensures
        r@ == day_ceil_of(ts@),
{
    let date = ts.substring_char(0, 10);
    proof {
        reveal_strlit(" 23:59:59");
    }
    date.to_owned().concat(" 23:59:59")
}

/// The Gregorian leap-year rule.
pub open spec fn leap_year(y: int) -> bool {
    (y % 4 == 0 && y % 100 != 0) || y % 400 == 0
}

/// Days in a month of the Gregorian calendar.
pub open spec fn days_in_month(y: int, m: int) -> int {
    if m == 2 {
        if leap_year(y) {
            29
        } else {
            28
        }
    } else if m == 4 || m == 6 || m == 9 || m == 11 {
        30
    } else {
        31
    }
}

/// The calendar day before the given one; the first representable day
/// stays put.
pub open spec fn prev_day(y: int, m: int, d: int) -> (int, int, int) {
    if d > 1 {
        (y, m, d - 1)
    } else if m > 1 {
        (y, m - 1, days_in_month(y, m - 1))
    } else if y > 0 {
        (y - 1, 12, 31)
    } else {
        (y, m, d)
    }
}

/// The calendar day `n` days before the given one.
pub open spec fn back_days(y: int, m: int, d: int, n: nat) -> (int, int, int)
    decreases n,
{
    if n == 0 {
        (y, m, d)
    } else {
        let (py, pm, pd) = prev_day(y, m, d);
        back_days(py, pm, pd, (n - 1) as nat)
    }
}

/// A day triple within the representable calendar range.
pub open spec fn day_in_range(y: int, m: int, d: int) -> bool {
    0 <= y <= 9999 && 1 <= m <= 12 && 1 <= d <= 31
}

fn prev_day_exec(y: u64, m: u64, d: u64) -> (r: (u64, u64, u64))
    requires
        day_in_range(y as int, m as int, d as int),
    ensures
        (r.0 as int, r.1 as int, r.2 as int) == prev_day(y as int, m as int, d as int),
        day_in_range(r.0 as int, r.1 as int, r.2 as int),
{
    if d > 1 {
        (y, m, d - 1)
    } else if m > 1 {
        let pm = m - 1;
        let dim: u64 = if pm == 2 {
            let leap = (y % 4 == 0 && y % 100 != 0) || y % 400 == 0;
            if leap {
                29
            } else {
                28
            }
        } else if pm == 4 || pm == 6 || pm == 9 || pm == 11 {
            30
        } else {
            31
        };
        (y, pm, dim)
    } else if y > 0 {
        (y - 1, 12, 31)
    } else {
        (y, m, d)
    }
}

/// The rendered date of a day triple: `YYYY-MM-DD`.
pub open spec fn date_text(y: int, m: int, d: int) -> Seq<char> {
    dec_padded(y as nat, 4) + seq!['-'] + dec_padded(m as nat, 2) + seq!['-'] + dec_padded(
        d as nat,
        2,
    )
}

/// The timestamp `n` days before the given one, keeping its time of day.
pub open spec fn days_back_of(ts: Seq<char>, n: nat) -> Seq<char> {
    let back = back_days(four_digit_val(ts, 0), two_digit_val(ts, 5), two_digit_val(ts, 8), n);
    date_text(back.0, back.1, back.2) + ts.subrange(10, ts.len() as int)
}

/// The cutoff `n` days before the given timestamp, keeping its time of
/// day: the filter boundary for "last week" and "last month".
pub fn days_back(ts: &str, n: u64) -> (r: String)
    requires
        wf_timestamp(ts@),
    ensures
        r@ == days_back_of(ts@, n as nat),
{
    let cs = crate::text::chars_of(ts);
    let y0 = two_digit_exec(&cs, 0);
    let y1 = two_digit_exec(&cs, 2);
    let mut y: u64 = y0 * 100 + y1;
    let mut m: u64 = two_digit_exec(&cs, 5);
    let mut d: u64 = two_digit_exec(&cs, 8);
    let ghost gy = four_digit_val(ts@, 0);
    let ghost gm = two_digit_val(ts@, 5);
    let ghost gd = two_digit_val(ts@, 8);
    let mut k: u64 = 0;
    while k < n
        invariant
            k <= n,
            day_in_range(y as int, m as int, d as int),
            back_days(gy, gm, gd, n as nat) == back_days(y as int, m as int, d as int, (n - k) as nat),
        decreases n - k,
    {
        let (py, pm, pd) = prev_day_exec(y, m, d);
        proof {
            assert(back_days(y as int, m as int, d as int, (n - k) as nat) == back_days(
                py as int,
                pm as int,
                pd as int,
                (n - k - 1) as nat,
            ));
        }
        y = py;
        m = pm;
        d = pd;
        k = k + 1;
    }
    proof {
        assert(back_days(y as int, m as int, d as int, 0) == (y as int, m as int, d as int));
    }
    let ys = four_digits(y);
    let ms = two_digits(m);
    let ds = two_digits(d);
    let rest = ts.substring_char(10, ts.unicode_len());
    proof {
        reveal_strlit("-");
    }
    let r = ys.concat("-").concat(ms.as_str()).concat("-").concat(ds.as_str()).concat(rest);
    proof {
        assert("-"@ =~= seq!['-']);
        let back = back_days(gy, gm, gd, n as nat);
        assert(r@ =~= date_text(back.0, back.1, back.2) + ts@.subrange(10, ts@.len() as int));
    }
    r
}

} // verus!
