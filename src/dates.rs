//! UTC calendar formatting of epoch seconds, by proleptic Gregorian arithmetic.
use vstd::prelude::*;
use vstd::string::*;

verus! {

/// The decimal digit character for `d` (below ten).
pub open spec fn digit_char(d: nat) -> char {
    if d == 0 { '0' }
    else if d == 1 { '1' }
    else if d == 2 { '2' }
    else if d == 3 { '3' }
    else if d == 4 { '4' }
    else if d == 5 { '5' }
    else if d == 6 { '6' }
    else if d == 7 { '7' }
    else if d == 8 { '8' }
    else { '9' }
}

/// The decimal notation of `v`, without leading zeros.
pub open spec fn decimal(v: nat) -> Seq<char>
    decreases v,
{
    if v < 10 {
        seq![digit_char(v)]
    } else {
        decimal(v / 10).push(digit_char(v % 10))
    }
}

/// The decimal notation of `v`, with leading zeros up to `width` characters.
pub open spec fn padded(v: nat, width: nat) -> Seq<char> {
    let d = decimal(v);
    if d.len() >= width {
        d
    } else {
        Seq::new((width - d.len()) as nat, |i: int| '0') + d
    }
}

fn digit(d: u64) -> (c: char)
    requires
        d < 10,
    ensures
        c == digit_char(d as nat),
{
    if d == 0 { '0' }
    else if d == 1 { '1' }
    else if d == 2 { '2' }
    else if d == 3 { '3' }
    else if d == 4 { '4' }
    else if d == 5 { '5' }
    else if d == 6 { '6' }
    else if d == 7 { '7' }
    else if d == 8 { '8' }
    else { '9' }
}

/// Appends the decimal notation of `v`.
pub fn push_decimal(s: &mut String, v: u64)
    ensures
        final(s)@ == old(s)@ + decimal(v as nat),
    decreases v,
{
    if v >= 10 {
        push_decimal(s, v / 10);
    }
    s.push(digit(v % 10));
    proof {
        if v >= 10 {
            assert(decimal(v as nat) == decimal((v / 10) as nat).push(digit_char((v % 10) as nat)));
        }
    }
    assert(final(s)@ =~= old(s)@ + decimal(v as nat));
}

fn decimal_len(v: u64) -> (n: usize)
    ensures
        n == decimal(v as nat).len(),
    decreases v,
{
    if v < 10 {
        1
    } else {
        let k = decimal_len(v / 10);
        proof {
            lemma_decimal_len_bound(v as nat);
        }
        k + 1
    }
}

spec fn pow10(n: nat) -> nat
    decreases n,
{
    if n == 0 { 1 } else { 10 * pow10((n - 1) as nat) }
}

proof fn lemma_decimal_len_le(v: nat, n: nat)
    requires
        1 <= n,
        v < pow10(n),
    ensures
        decimal(v).len() <= n,
    decreases v,
{
    if v >= 10 {
        if n == 1 {
            assert(pow10(1) == 10 * pow10(0));
        }
        assert(pow10(n) == 10 * pow10((n - 1) as nat));
        lemma_decimal_len_le(v / 10, (n - 1) as nat);
    }
}

proof fn lemma_decimal_len_bound(v: nat)
    requires
        v <= u64::MAX,
    ensures
        decimal(v).len() <= 20,
{
    reveal_with_fuel(pow10, 21);
    assert(pow10(20) == 100000000000000000000nat);
    lemma_decimal_len_le(v, 20);
}

/// Appends `v` in decimal, zero-padded to `width` characters.
pub fn push_padded(s: &mut String, v: u64, width: usize)
    ensures
        final(s)@ == old(s)@ + padded(v as nat, width as nat),
{
    let n = decimal_len(v);
    let ghost start = s@;
    if n < width {
        let mut i: usize = n;
        while i < width
            invariant
                n <= i <= width,
                s@ == start + Seq::new((i - n) as nat, |k: int| '0'),
            decreases width - i,
        {
            s.push('0');
            i = i + 1;
            assert(s@ =~= start + Seq::new((i - n) as nat, |k: int| '0'));
        }
    }
    push_decimal(s, v);
    assert(s@ =~= start + padded(v as nat, width as nat));
}

/// A Gregorian leap year.
pub open spec fn is_leap(y: int) -> bool {
    y % 4 == 0 && (y % 100 != 0 || y % 400 == 0)
}

/// Days in year `y`.
pub open spec fn year_len(y: int) -> int {
    if is_leap(y) { 366 } else { 365 }
}

/// Days in month `m` (1 to 12) of year `y`.
pub open spec fn month_len(y: int, m: int) -> int {
    if m == 2 {
        if is_leap(y) { 29 } else { 28 }
    } else if m == 4 || m == 6 || m == 9 || m == 11 {
        30
    } else {
        31
    }
}

/// Leap years from year 1 through year `x`.
pub open spec fn leaps_through(x: int) -> int {
    x / 4 - x / 100 + x / 400
}

/// Days from 1970-01-01 to the first day of year `y` (from 1970 on).
pub open spec fn days_before_year(y: int) -> int {
    365 * (y - 1970) + leaps_through(y - 1) - leaps_through(1969)
}

/// Days from the start of year `y` to the first day of month `m`.
pub open spec fn days_before_month(y: int, m: int) -> int
    decreases m,
{
    if m <= 1 {
        0
    } else {
        days_before_month(y, m - 1) + month_len(y, m - 1)
    }
}

/// `(y, m, d)` is the calendar date that lies `days` days after 1970-01-01.
pub open spec fn is_date_of(days: int, y: int, m: int, d: int) -> bool {
    &&& 1970 <= y
    &&& 1 <= m <= 12
    &&& 1 <= d <= month_len(y, m)
    &&& days_before_year(y) + days_before_month(y, m) + d - 1 == days
}

/// The calendar date (year, month, day) of a day count from 1970-01-01.
pub open spec fn civil_from_days(days: int) -> (int, int, int) {
    choose|t: (int, int, int)| is_date_of(days, t.0, t.1, t.2)
}

proof fn lemma_year_step(y: int)
    requires
        1970 <= y,
    ensures
        days_before_year(y + 1) == days_before_year(y) + year_len(y),
{
    assert(leaps_through(y) - leaps_through(y - 1) == if is_leap(y) { 1int } else { 0int });
}

proof fn lemma_era(e: int)
    requires
        0 <= e,
    ensures
        days_before_year(1970 + 400 * e) == 146097 * e,
    decreases e,
{
    if e > 0 {
        lemma_era(e - 1);
        let x = 1969 + 400 * (e - 1);
        assert(leaps_through(x + 400) == leaps_through(x) + 97);
    }
}

proof fn lemma_months_fill_year(y: int)
    ensures
        days_before_month(y, 13) == year_len(y),
{
    reveal_with_fuel(days_before_month, 13);
}

proof fn lemma_month_mono(y: int, m1: int, m2: int)
    requires
        1 <= m1 <= m2,
    ensures
        days_before_month(y, m1) <= days_before_month(y, m2),
    decreases m2 - m1,
{
    if m1 < m2 {
        lemma_month_mono(y, m1, m2 - 1);
    }
}

proof fn lemma_year_mono(y1: int, y2: int)
    requires
        1970 <= y1 <= y2,
    ensures
        days_before_year(y1) <= days_before_year(y2),
    decreases y2 - y1,
{
    if y1 < y2 {
        lemma_year_mono(y1, y2 - 1);
        lemma_year_step(y2 - 1);
    }
}

proof fn lemma_offset_in_year(y: int, m: int, d: int)
    requires
        1 <= m <= 12,
        1 <= d <= month_len(y, m),
    ensures
        0 <= days_before_month(y, m) + d - 1 < year_len(y),
{
    lemma_month_mono(y, 1, m);
    lemma_month_mono(y, m + 1, 13);
    lemma_months_fill_year(y);
}

/// A day count has one calendar date.
proof fn lemma_date_unique(days: int, y1: int, m1: int, d1: int, y2: int, m2: int, d2: int)
    requires
        is_date_of(days, y1, m1, d1),
        is_date_of(days, y2, m2, d2),
    ensures
        y1 == y2 && m1 == m2 && d1 == d2,
{
    lemma_offset_in_year(y1, m1, d1);
    lemma_offset_in_year(y2, m2, d2);
    if y1 < y2 {
        lemma_year_step(y1);
        lemma_year_mono(y1 + 1, y2);
    } else if y2 < y1 {
        lemma_year_step(y2);
        lemma_year_mono(y2 + 1, y1);
    }
    if m1 < m2 {
        lemma_month_mono(y1, m1 + 1, m2);
    } else if m2 < m1 {
        lemma_month_mono(y1, m2 + 1, m1);
    }
}

/// Epoch seconds clamped at zero: instants before 1970 are shown as its start.
pub open spec fn clamped(ts: i64) -> nat {
    if ts < 0 { 0 } else { ts as nat }
}

/// The calendar date of a day count as `Y-M-D`, fields zero-padded.
pub open spec fn date_text(days: nat) -> Seq<char> {
    let (y, m, d) = civil_from_days(days as int);
    padded(y as nat, 4) + seq!['-'] + padded(m as nat, 2) + seq!['-'] + padded(d as nat, 2)
}

/// A time of day in seconds as `h:m:s`, fields zero-padded.
pub open spec fn time_text(tod: nat) -> Seq<char> {
    padded(tod / 3600, 2) + seq![':'] + padded((tod % 3600) / 60, 2) + seq![':'] + padded(tod % 60, 2)
}

/// The date and time of `secs` as `Y-M-D{sep}h:m:s`, fields zero-padded.
pub open spec fn datetime_text(secs: nat, sep: char) -> Seq<char> {
    date_text(secs / 86400) + seq![sep] + time_text(secs % 86400)
}

/// ISO 8601 UTC text of epoch seconds: `YYYY-MM-DDTHH:MM:SSZ`.
pub open spec fn iso_date_text(ts: i64) -> Seq<char> {
    datetime_text(clamped(ts), 'T') + seq!['Z']
}

fn leap(y: u64) -> (r: bool)
    ensures
        r == is_leap(y as int),
{
    y % 4 == 0 && (y % 100 != 0 || y % 400 == 0)
}

fn year_days(y: u64) -> (r: u64)
    ensures
        r == year_len(y as int),
{
    if leap(y) { 366 } else { 365 }
}

fn month_days(y: u64, m: u64) -> (r: u64)
    ensures
        r == month_len(y as int, m as int),
{
    if m == 2 {
        if leap(y) { 29 } else { 28 }
    } else if m == 4 || m == 6 || m == 9 || m == 11 {
        30
    } else {
        31
    }
}

fn civil(days: u64) -> (r: (u64, u64, u64))
    requires
        days <= 106751991167300,
    ensures
        is_date_of(days as int, r.0 as int, r.1 as int, r.2 as int),
        civil_from_days(days as int) == (r.0 as int, r.1 as int, r.2 as int),
        r.0 < 0x1_0000_0000_0000 && r.1 <= 12 && r.2 <= 31,
{
    let era: u64 = days / 146097;
    let rem0: u64 = days % 146097;
    let mut rem: u64 = rem0;
    let y0: u64 = 1970 + 400 * era;
    let mut y: u64 = y0;
    proof {
        lemma_era(era as int);
    }
    while rem >= year_days(y)
        invariant
            y0 == 1970 + 400 * era,
            era <= 730692561,
            y0 <= y,
            rem <= rem0,
            rem0 < 146097,
            rem + 365 * (y - y0) <= rem0,
            days_before_year(y as int) + rem == days,
        decreases rem,
    {
        proof {
            lemma_year_step(y as int);
        }
        rem = rem - year_days(y);
        y = y + 1;
    }
    let ry: u64 = rem;
    let mut m: u64 = 1;
    proof {
        lemma_months_fill_year(y as int);
    }
    while rem >= month_days(y, m)
        invariant
            1 <= m <= 12,
            days_before_month(y as int, m as int) + rem == ry,
            ry < year_len(y as int),
            days_before_month(y as int, 13) == year_len(y as int),
        decreases rem,
    {
        proof {
            if m == 12 {
                assert(days_before_month(y as int, 13) == days_before_month(y as int, 12) + month_len(y as int, 12));
            }
        }
        rem = rem - month_days(y, m);
        m = m + 1;
    }
    let d = rem + 1;
    proof {
        let t = (y as int, m as int, d as int);
        assert(is_date_of(days as int, t.0, t.1, t.2));
        let c = civil_from_days(days as int);
        lemma_date_unique(days as int, c.0, c.1, c.2, t.0, t.1, t.2);
    }
    (y, m, d)
}

fn push_date(s: &mut String, days: u64)
    requires
        days <= 106751991167300,
    ensures
        final(s)@ == old(s)@ + date_text(days as nat),
{
    let ghost start = s@;
    let (y, m, d) = civil(days);
    push_padded(s, y, 4);
    s.push('-');
    push_padded(s, m, 2);
    s.push('-');
    push_padded(s, d, 2);
    assert(s@ =~= start + date_text(days as nat));
}

fn push_time(s: &mut String, tod: u64)
    ensures
        final(s)@ == old(s)@ + time_text(tod as nat),
{
    let ghost start = s@;
    push_padded(s, tod / 3600, 2);
    s.push(':');
    push_padded(s, (tod % 3600) / 60, 2);
    s.push(':');
    push_padded(s, tod % 60, 2);
    assert(s@ =~= start + time_text(tod as nat));
}

/// Appends the date and time of `secs` in the form `datetime_text` gives.
fn push_datetime(s: &mut String, secs: u64, sep: char)
    requires
        secs <= 0x7fff_ffff_ffff_ffff,
    ensures
        final(s)@ == old(s)@ + datetime_text(secs as nat, sep),
{
    let ghost start = s@;
    push_date(s, secs / 86400);
    s.push(sep);
    push_time(s, secs % 86400);
    assert(s@ =~= start + datetime_text(secs as nat, sep));
}

/// Formats epoch seconds as ISO 8601 UTC, `YYYY-MM-DDTHH:MM:SSZ`; a negative
/// instant is shown as the epoch itself.
pub fn format_iso_date(ts: i64) -> (r: String)
    ensures
        r@ == iso_date_text(ts),
{
    let secs: u64 = if ts < 0 { 0 } else { ts as u64 };
    let mut r = String::new();
    push_datetime(&mut r, secs, 'T');
    r.push('Z');
    assert(r@ =~= iso_date_text(ts));
    r
}

/// Text of a sync time for people: `YYYY-MM-DD HH:MM:SS UTC`, or `never` for
/// an instant that is not after the epoch.
pub open spec fn timestamp_text(ts: i64) -> Seq<char> {
    if ts <= 0 {
        "never"@
    } else {
        datetime_text(ts as nat, ' ') + " UTC"@
    }
}

/// Formats a sync time for display.
pub fn format_timestamp(ts: i64) -> (r: String)
    ensures
        r@ == timestamp_text(ts),
{
    if ts <= 0 {
        return String::from_str("never");
    }
    let mut r = String::new();
    push_datetime(&mut r, ts as u64, ' ');
    r.push_str(" UTC");
    r
}

} // verus!
