//! The civil calendar: the year and month of a timestamp, and its `YYYY-MM` label.
use vstd::prelude::*;

verus! {

pub const SECONDS_PER_DAY: u64 = 86400;

pub open spec fn is_leap(y: int) -> bool {
    (y % 4 == 0 && y % 100 != 0) || y % 400 == 0
}

pub open spec fn year_days(y: int) -> int {
    if is_leap(y) {
        366
    } else {
        365
    }
}

pub open spec fn month_days(y: int, m: int) -> int {
    if m == 2 {
        if is_leap(y) {
            29
        } else {
            28
        }
    } else if m == 4 || m == 6 || m == 9 || m == 11 {
        30
    } else {
        31
    }
}

/// The year in which day `d` falls, counting days from the first day of
/// year `y`, and the day within that year.
pub open spec fn year_and_day(d: int, y: int) -> (int, int)
    decreases d,
{
    if d < year_days(y) {
        (y, d)
    } else {
        year_and_day(d - year_days(y), y + 1)
    }
}

/// The month (from `m` on) in which day `d` of year `y` falls, counting
/// days from the first day of month `m`.
pub open spec fn month_in_year(d: int, y: int, m: int) -> int
    decreases 12 - m,
{
    if m >= 12 || d < month_days(y, m) {
        m
    } else {
        month_in_year(d - month_days(y, m), y, m + 1)
    }
}

/// Year and month (1 to 12) of a timestamp, in UTC.
pub open spec fn month_of(ts: u64) -> (int, int) {
    let (y, d) = year_and_day(ts as int / SECONDS_PER_DAY as int, 1970);
    (y, month_in_year(d, y, 1))
}

/// A month as one number: twelve per year, January zero.
pub open spec fn month_index(ts: u64) -> int {
    month_of(ts).0 * 12 + month_of(ts).1 - 1
}

pub open spec fn digit(n: int) -> char {
    if n == 0 {
        '0'
    } else if n == 1 {
        '1'
    } else if n == 2 {
        '2'
    } else if n == 3 {
        '3'
    } else if n == 4 {
        '4'
    } else if n == 5 {
        '5'
    } else if n == 6 {
        '6'
    } else if n == 7 {
        '7'
    } else if n == 8 {
        '8'
    } else {
        '9'
    }
}

/// The decimal digits of `n`.
pub open spec fn decimal(n: nat) -> Seq<char>
    decreases n,
{
    if n < 10 {
        seq![digit(n as int)]
    } else {
        decimal(n / 10).push(digit((n % 10) as int))
    }
}

/// `YYYY-MM` for the month with index `k` (twelve per year, January zero).
pub open spec fn month_label(k: nat) -> Seq<char> {
    let m = k % 12 + 1;
    decimal(k / 12) + seq!['-'] + (if m < 10 {
        seq!['0']
    } else {
        Seq::empty()
    }) + decimal(m)
}

fn is_leap_year(y: u64) -> (r: bool)
    ensures
        r == is_leap(y as int),
{
    (y % 4 == 0 && y % 100 != 0) || y % 400 == 0
}

fn year_length(y: u64) -> (r: u64)
    ensures
        r == year_days(y as int),
{
    if is_leap_year(y) {
        366
    } else {
        365
    }
}

fn days_of_month(y: u64, m: u64) -> (r: u64)
    ensures
        r == month_days(y as int, m as int),
{
    if m == 2 {
        if is_leap_year(y) {
            29
        } else {
            28
        }
    } else if m == 4 || m == 6 || m == 9 || m == 11 {
        30
    } else {
        31
    }
}

/// The month index of a timestamp.
pub fn month_index_of(ts: u64) -> (r: u64)
    ensures
        r as int == month_index(ts),
{
    let total = ts / SECONDS_PER_DAY;
    let mut d: u64 = total;
    let mut y: u64 = 1970;
    while d >= year_length(y)
        invariant
            year_and_day(d as int, y as int) == year_and_day(total as int, 1970),
            y >= 1970,
            (y - 1970) + d <= total,
            total <= u64::MAX / 86400,
        decreases d,
    {
        d = d - year_length(y);
        y = y + 1;
    }
    let mut m: u64 = 1;
    while m < 12 && d >= days_of_month(y, m)
        invariant
            1 <= m <= 12,
            month_in_year(d as int, y as int, m as int) == month_in_year(
                year_and_day(total as int, 1970).1,
                y as int,
                1,
            ),
            y as int == year_and_day(total as int, 1970).0,
            y <= 1970 + total,
            total <= u64::MAX / 86400,
        decreases 12 - m,
    {
        d = d - days_of_month(y, m);
        m = m + 1;
    }
    y * 12 + m - 1
}

fn digit_text(n: u64) -> (r: &'static str)
    requires
        n < 10,
    ensures
        r@ == seq![digit(n as int)],
{
    proof {
        reveal_strlit("0");
        reveal_strlit("1");
        reveal_strlit("2");
        reveal_strlit("3");
        reveal_strlit("4");
        reveal_strlit("5");
        reveal_strlit("6");
        reveal_strlit("7");
        reveal_strlit("8");
        reveal_strlit("9");
    }
    if n == 0 {
        "0"
    } else if n == 1 {
        "1"
    } else if n == 2 {
        "2"
    } else if n == 3 {
        "3"
    } else if n == 4 {
        "4"
    } else if n == 5 {
        "5"
    } else if n == 6 {
        "6"
    } else if n == 7 {
        "7"
    } else if n == 8 {
        "8"
    } else {
        "9"
    }
}

fn push_decimal(s: &mut String, n: u64)
    ensures
        final(s)@ == old(s)@ + decimal(n as nat),
    decreases n,
{
    if n >= 10 {
        push_decimal(s, n / 10);
    }
    s.append(digit_text(n % 10));
    assert(final(s)@ =~= old(s)@ + decimal(n as nat));
}

/// The `YYYY-MM` label of month index `k`.
pub fn month_text(k: u64) -> (r: String)
    ensures
        r@ == month_label(k as nat),
{
    let mut s = String::new();
    push_decimal(&mut s, k / 12);
    proof {
        reveal_strlit("-");
        reveal_strlit("0");
    }
    s.append("-");
    let m = k % 12 + 1;
    if m < 10 {
        s.append("0");
    }
    push_decimal(&mut s, m);
    assert(s@ =~= month_label(k as nat));
    s
}

} // verus!
