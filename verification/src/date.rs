//! Calendar arithmetic for session keys: Unix time → proleptic Gregorian date.
use vstd::prelude::*;

verus! {

/// Leap years of the Gregorian calendar.
pub open spec fn leap(y: nat) -> bool {
    (y % 4 == 0 && y % 100 != 0) || y % 400 == 0
}

/// Number of days of year `y`.
pub open spec fn days_in_year(y: nat) -> nat {
    if leap(y) {
        366
    } else {
        365
    }
}

/// Number of days of month `m` (1–12) in a year that is a leap year or not.
pub open spec fn days_in_month(m: nat, is_leap: bool) -> nat {
    if m == 2 {
        if is_leap {
            29
        } else {
            28
        }
    } else if m == 4 || m == 6 || m == 9 || m == 11 {
        30
    } else {
        31
    }
}

/// Starting at day `d` (0-based) of year `y`, the year and day of year that day
/// falls in.
pub open spec fn year_walk(d: nat, y: nat) -> (nat, nat)
    decreases d,
{
    if d < days_in_year(y) {
        (y, d)
    } else {
        year_walk((d - days_in_year(y)) as nat, y + 1)
    }
}

/// Starting at day `d` (0-based) of month `m`, the month and 0-based day of
/// month that day falls in.
pub open spec fn month_walk(d: nat, m: nat, is_leap: bool) -> (nat, nat)
    decreases 13 - m,
{
    if m >= 12 || d < days_in_month(m, is_leap) {
        (m, d)
    } else {
        month_walk((d - days_in_month(m, is_leap)) as nat, m + 1, is_leap)
    }
}

/// The (year, month, day) of the `days`-th day after 1970-01-01.
pub open spec fn civil_date(days: nat) -> (nat, nat, nat) {
    let (y, doy) = year_walk(days, 1970);
    let (m, d) = month_walk(doy, 1, leap(y));
    (y, m, d + 1)
}

/// The decimal digits of `n`.
pub open spec fn decimal(n: nat) -> Seq<char>
    decreases n,
{
    if n < 10 {
        seq![digit_char(n)]
    } else {
        decimal(n / 10).push(digit_char(n % 10))
    }
}

/// The ASCII digit of `d` (0–9).
pub open spec fn digit_char(d: nat) -> char {
    if d == 0 {
        '0'
    } else if d == 1 {
        '1'
    } else if d == 2 {
        '2'
    } else if d == 3 {
        '3'
    } else if d == 4 {
        '4'
    } else if d == 5 {
        '5'
    } else if d == 6 {
        '6'
    } else if d == 7 {
        '7'
    } else if d == 8 {
        '8'
    } else {
        '9'
    }
}

/// Zeros needed in front of `s` to reach width `w`.
pub open spec fn zeros(n: nat) -> Seq<char> {
    Seq::new(n, |i: int| '0')
}

/// Decimal of `n` zero-padded to width `w` (`format!("{n:0w$}")`).
pub open spec fn padded(n: nat, w: nat) -> Seq<char> {
    let s = decimal(n);
    if s.len() >= w {
        s
    } else {
        zeros((w - s.len()) as nat) + s
    }
}

/// `YYYY-MM-DD` of the `days`-th day after 1970-01-01.
pub open spec fn iso_date(days: nat) -> Seq<char> {
    let (y, m, d) = civil_date(days);
    padded(y, 4) + seq!['-'] + padded(m, 2) + seq!['-'] + padded(d, 2)
}

// ── Laws ─────────────────────────────────────────────────────────────────────

/// Every day lands on a real calendar date: its month is 1–12 and its day lies
/// within that month.
pub proof fn lemma_civil_date_valid(days: nat)
    ensures
        ({
            let (y, m, d) = civil_date(days);
            &&& y >= 1970
            &&& 1 <= m <= 12
            &&& 1 <= d <= days_in_month(m, leap(y))
        }),
{
    let (y, doy) = year_walk(days, 1970);
    lemma_year_walk(days, 1970);
    lemma_month_walk(doy, 1, leap(y));
}

proof fn lemma_year_walk(d: nat, y: nat)
    ensures
        year_walk(d, y).0 >= y,
        year_walk(d, y).1 < days_in_year(year_walk(d, y).0),
    decreases d,
{
    if d >= days_in_year(y) {
        lemma_year_walk((d - days_in_year(y)) as nat, y + 1);
    }
}

proof fn lemma_month_walk(d: nat, m: nat, is_leap: bool)
    requires
        1 <= m <= 12,
        d + month_days_before(m, is_leap) < (if is_leap {
            366nat
        } else {
            365nat
        }),
    ensures
        m <= month_walk(d, m, is_leap).0 <= 12,
        month_walk(d, m, is_leap).1 < days_in_month(month_walk(d, m, is_leap).0, is_leap),
    decreases 13 - m,
{
    if !(m >= 12 || d < days_in_month(m, is_leap)) {
        lemma_month_walk((d - days_in_month(m, is_leap)) as nat, m + 1, is_leap);
    } else if m == 12 {
        reveal_with_fuel(month_days_before, 12);
        assert(month_days_before(12, is_leap) == if is_leap {
            335nat
        } else {
            334nat
        });
    }
}

/// Days of the months before month `m`.
pub open spec fn month_days_before(m: nat, is_leap: bool) -> nat
    decreases m,
{
    if m <= 1 {
        0
    } else {
        month_days_before((m - 1) as nat, is_leap) + days_in_month((m - 1) as nat, is_leap)
    }
}

/// The calendar day after `(y, m, d)`.
pub open spec fn next_day(date: (nat, nat, nat)) -> (nat, nat, nat) {
    let (y, m, d) = date;
    if d < days_in_month(m, leap(y)) {
        (y, m, d + 1)
    } else if m < 12 {
        (y, m + 1, 1)
    } else {
        (y + 1, 1, 1)
    }
}

/// The day after day `d` of a year walk is the next day of the same year, or
/// the first day of the next year.
proof fn lemma_year_walk_succ(d: nat, y: nat)
    ensures
        ({
            let (yy, doy) = year_walk(d, y);
            year_walk(d + 1, y) == if doy + 1 < days_in_year(yy) {
                (yy, doy + 1)
            } else {
                (yy + 1, 0nat)
            }
        }),
    decreases d,
{
    if d >= days_in_year(y) {
        lemma_year_walk_succ((d - days_in_year(y)) as nat, y + 1);
        assert((d + 1 - days_in_year(y)) as nat == (d - days_in_year(y)) as nat + 1);
    } else if d + 1 == days_in_year(y) {
        assert(year_walk(0, y + 1) == (y + 1, 0nat));
    }
}

/// The days of the months before a month add up along a month walk.
proof fn lemma_month_walk_sum(d: nat, m: nat, is_leap: bool)
    requires
        m >= 1,
    ensures
        month_days_before(month_walk(d, m, is_leap).0, is_leap) + month_walk(d, m, is_leap).1
            == d + month_days_before(m, is_leap),
    decreases 13 - m,
{
    if !(m >= 12 || d < days_in_month(m, is_leap)) {
        lemma_month_walk_sum((d - days_in_month(m, is_leap)) as nat, m + 1, is_leap);
    }
}

/// Days before a month never decrease with the month.
proof fn lemma_month_days_before_monotone(a: nat, b: nat, is_leap: bool)
    requires
        a <= b,
    ensures
        month_days_before(a, is_leap) <= month_days_before(b, is_leap),
    decreases b,
{
    if a < b {
        lemma_month_days_before_monotone(a, (b - 1) as nat, is_leap);
    }
}

/// The day after a day of a month walk, within the year.
proof fn lemma_month_walk_succ(d: nat, m: nat, is_leap: bool)
    requires
        1 <= m <= 12,
        d + 1 + month_days_before(m, is_leap) < (if is_leap {
            366nat
        } else {
            365nat
        }),
    ensures
        ({
            let (mm, dm) = month_walk(d, m, is_leap);
            &&& dm + 1 == days_in_month(mm, is_leap) ==> mm < 12
            &&& month_walk(d + 1, m, is_leap) == if dm + 1 < days_in_month(mm, is_leap) {
                (mm, dm + 1)
            } else {
                (mm + 1, 0nat)
            }
        }),
    decreases 13 - m,
{
    if m >= 12 {
        reveal_with_fuel(month_days_before, 12);
        assert(month_days_before(12, is_leap) == if is_leap {
            335nat
        } else {
            334nat
        });
    } else if d < days_in_month(m, is_leap) {
        if d + 1 == days_in_month(m, is_leap) {
            assert(month_walk(0, m + 1, is_leap) == (m + 1, 0nat));
        }
    } else {
        lemma_month_walk_succ((d - days_in_month(m, is_leap)) as nat, m + 1, is_leap);
        assert((d + 1 - days_in_month(m, is_leap)) as nat == (d - days_in_month(m, is_leap)) as nat
            + 1);
    }
}

/// Day 0 is 1970-01-01; the seconds of one day all give that day's number;
/// and one day later is the next calendar day (the month and the year roll
/// over as the Gregorian calendar has it).
pub proof fn lemma_day_after(d: nat, r: nat)
    requires
        d + 1 < 0x1_0000_0000,
        r < 86400,
    ensures
        civil_date(0) == (1970nat, 1nat, 1nat),
        ((d * 86400 + r) / 86400) % 0x1_0000_0000 == d,
        (((d + 1) * 86400) / 86400) % 0x1_0000_0000 == d + 1,
        civil_date(d + 1) == next_day(civil_date(d)),
{
    assert(year_walk(0, 1970) == (1970nat, 0nat));
    assert(month_walk(0, 1, leap(1970)) == (1nat, 0nat));
    assert((d * 86400 + r) / 86400 == d) by (nonlinear_arith)
        requires
            r < 86400,
    ;
    assert(((d + 1) * 86400) / 86400 == d + 1) by (nonlinear_arith);
    let (y, doy) = year_walk(d, 1970);
    let lp = leap(y);
    lemma_year_walk(d, 1970);
    lemma_year_walk_succ(d, 1970);
    lemma_month_walk(doy, 1, lp);
    lemma_month_walk_sum(doy, 1, lp);
    let (m, dm) = month_walk(doy, 1, lp);
    if doy + 1 < days_in_year(y) {
        lemma_month_walk_succ(doy, 1, lp);
    } else {
        assert(month_walk(0, 1, leap(y + 1)) == (1nat, 0nat));
        reveal_with_fuel(month_days_before, 12);
        assert(month_days_before(12, lp) == if lp {
            335nat
        } else {
            334nat
        });
        if m < 12 {
            lemma_month_days_before_monotone(m + 1, 12, lp);
            assert(month_days_before(m + 1, lp) == month_days_before(m, lp) + days_in_month(m, lp));
            assert(false);
        }
    }
}

// ── Executable code ──────────────────────────────────────────────────────────

/// Gregorian leap year test.
pub fn is_leap_year(year: u32) -> (r: bool)
    ensures
        r == leap(year as nat),
{
    (year % 4 == 0 && year % 100 != 0) || (year % 400 == 0)
}

fn year_length(year: u32) -> (r: u32)
    ensures
        r == days_in_year(year as nat),
{
    if is_leap_year(year) {
        366
    } else {
        365
    }
}

fn month_length(m: u32, is_leap: bool) -> (r: u32)
    ensures
        r == days_in_month(m as nat, is_leap),
{
    if m == 2 {
        if is_leap {
            29
        } else {
            28
        }
    } else if m == 4 || m == 6 || m == 9 || m == 11 {
        30
    } else {
        31
    }
}

fn digit(d: u32) -> (c: char)
    requires
        d < 10,
    ensures
        c == digit_char(d as nat),
{
    if d == 0 {
        '0'
    } else if d == 1 {
        '1'
    } else if d == 2 {
        '2'
    } else if d == 3 {
        '3'
    } else if d == 4 {
        '4'
    } else if d == 5 {
        '5'
    } else if d == 6 {
        '6'
    } else if d == 7 {
        '7'
    } else if d == 8 {
        '8'
    } else {
        '9'
    }
}

/// Decimal digits of `n`.
pub fn decimal_chars(n: u32) -> (r: Vec<char>)
    ensures
        r@ == decimal(n as nat),
    decreases n,
{
    if n < 10 {
        let mut v: Vec<char> = Vec::new();
        v.push(digit(n));
        v
    } else {
        let mut v = decimal_chars(n / 10);
        v.push(digit(n % 10));
        v
    }
}

/// Decimal digits of `n`, zero-padded to at least `w` characters.
pub fn padded_chars(n: u32, w: usize) -> (r: Vec<char>)
    ensures
        r@ == padded(n as nat, w as nat),
{
    let s = decimal_chars(n);
    if s.len() >= w {
        return s;
    }
    let mut out: Vec<char> = Vec::new();
    let k = w - s.len();
    for i in 0..k
        invariant
            out@ == zeros(i as nat),
    {
        out.push('0');
        assert(out@ =~= zeros((i + 1) as nat));
    }
    for i in 0..s.len()
        invariant
            k == w - s.len(),
            out@ == zeros(k as nat) + s@.take(i as int),
    {
        out.push(s[i]);
        assert(s@.take(i + 1) =~= s@.take(i as int).push(s@[i as int]));
        assert(out@ =~= zeros(k as nat) + s@.take(i + 1));
    }
    assert(s@.take(s.len() as int) =~= s@);
    out
}

/// Convert a Unix timestamp (seconds since 1970-01-01 UTC) to `"YYYY-MM-DD"`
/// in the proleptic Gregorian calendar.  The day count is taken modulo 2³²,
/// as a 32-bit day counter holds it.
pub fn unix_secs_to_iso_date(secs: u64) -> (r: String)
    ensures
        r@ == iso_date(((secs / 86400) % 0x1_0000_0000) as nat),
{
    let total: u32 = ((secs / 86400) % 0x1_0000_0000) as u32;
    let mut days_remaining: u32 = total;
    let mut year: u32 = 1970;
    while days_remaining >= year_length(year)
        invariant
            year >= 1970,
            days_remaining <= total,
            (year - 1970) * 365 <= total - days_remaining,
            year_walk(total as nat, 1970) == year_walk(days_remaining as nat, year as nat),
        decreases days_remaining,
    {
        days_remaining = days_remaining - year_length(year);
        year = year + 1;
    }
    let is_leap = is_leap_year(year);
    proof {
        lemma_year_walk(days_remaining as nat, year as nat);
    }
    let ghost doy = days_remaining;
    let mut month: u32 = 1;
    while month < 12 && days_remaining >= month_length(month, is_leap)
        invariant
            1 <= month <= 12,
            days_remaining <= doy,
            month_walk(doy as nat, 1, is_leap) == month_walk(
                days_remaining as nat,
                month as nat,
                is_leap,
            ),
        decreases 12 - month,
    {
        days_remaining = days_remaining - month_length(month, is_leap);
        month = month + 1;
    }
    let day = days_remaining + 1;
    let mut out = padded_chars(year, 4);
    out.push('-');
    let mm = padded_chars(month, 2);
    crate::text::extend_chars(&mut out, &mm);
    out.push('-');
    let dd = padded_chars(day, 2);
    crate::text::extend_chars(&mut out, &dd);
    proof {
        assert(civil_date(total as nat) == (year as nat, month as nat, day as nat));
        assert(out@ =~= iso_date(total as nat));
    }
    crate::text::string_of(&out)
}


/// `HH:MM:SS` of the time of day `secs` seconds after midnight (taken
/// modulo one day).
pub open spec fn clock_text(secs: nat) -> Seq<char> {
    let local = secs % 86400;
    padded(local / 3600, 2) + seq![':'] + padded((local % 3600) / 60, 2) + seq![':'] + padded(
        local % 60,
        2,
    )
}

/// The `HH:MM:SS` label of a time of day given in seconds.
pub fn clock_label(secs: u64) -> (r: String)
    ensures
        r@ == clock_text(secs as nat),
{
    let local: u64 = secs % 86400;
    let hh: u32 = (local / 3600) as u32;
    let mm: u32 = ((local % 3600) / 60) as u32;
    let ss: u32 = (local % 60) as u32;
    let mut out = padded_chars(hh, 2);
    out.push(':');
    crate::text::extend_chars(&mut out, &padded_chars(mm, 2));
    out.push(':');
    crate::text::extend_chars(&mut out, &padded_chars(ss, 2));
    assert(out@ =~= clock_text(secs as nat));
    crate::text::string_of(&out)
}

} // verus!
