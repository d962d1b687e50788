//! The text of the log: line stamps, the daily file name and the start
//! banner.

use vstd::prelude::*;
use crate::text::{
    decimal, zero_pad, push_padded_decimal, lemma_decimal_round_trip, lemma_zero_pad_value,
    all_digits, decimal_value,
};
use crate::calendar::{
    civil_date, civil_from_days, lemma_civil_date_bounds, law_civil_date_injective,
    law_civil_date_counts_back, days_in_month, span, month_offset,
};

verus! {

/// `n` written with at least two digits, as `{:02}` does.
pub open spec fn two_digits(n: nat) -> Seq<char> {
    zero_pad(decimal(n), 2)
}

/// The time of day of `secs` seconds since the epoch, as `HH:MM:SS`.
pub open spec fn clock_text(secs: u64) -> Seq<char> {
    let d = secs % 86400;
    two_digits((d / 3600) as nat) + ":"@ + two_digits(((d % 3600) / 60) as nat) + ":"@
        + two_digits((d % 60) as nat)
}

/// The text of a date: the year with at least four digits, then the month
/// and the day with two.
pub open spec fn ymd_text(y: int, m: int, d: int) -> Seq<char> {
    zero_pad(decimal(y as nat), 4) + "-"@ + two_digits(m as nat) + "-"@ + two_digits(d as nat)
}

/// The calendar date (UTC, proleptic Gregorian) of `secs` seconds since the
/// epoch, as `YYYY-MM-DD`.
pub open spec fn date_text(secs: u64) -> Seq<char> {
    let (y, m, d) = civil_date((secs / 86400) as int);
    ymd_text(y, m, d)
}

proof fn lemma_two_digits_len(n: nat)
    requires
        n < 100,
    ensures
        two_digits(n).len() == 2,
{
    if n >= 10 {
        assert(decimal(n / 10) == seq![crate::text::digit_char(n / 10)]);
        assert(decimal(n).len() == 2);
    } else {
        assert(decimal(n).len() == 1);
    }
}

/// Every log stamp has the shape `HH:MM:SS`: eight characters with colons
/// at the third and sixth places.
pub proof fn law_clock_text_shape(secs: u64)
    ensures
        clock_text(secs).len() == 8,
        clock_text(secs)[2] == ':',
        clock_text(secs)[5] == ':',
{
    let d = secs % 86400;
    assert(d / 3600 < 24) by (nonlinear_arith)
        requires
            d < 86400,
    ;
    assert((d % 3600) / 60 < 60) by (nonlinear_arith)
        requires
            d % 3600 < 3600,
    ;
    let a = two_digits((d / 3600) as nat);
    let b = two_digits(((d % 3600) / 60) as nat);
    let c = two_digits((d % 60) as nat);
    lemma_two_digits_len((d / 3600) as nat);
    lemma_two_digits_len(((d % 3600) / 60) as nat);
    lemma_two_digits_len((d % 60) as nat);
    assert(clock_text(secs) == a + ":"@ + b + ":"@ + c);
    reveal_strlit(":");
    assert((a + ":"@ + b + ":"@ + c)[2] == ':');
    assert((a + ":"@ + b + ":"@ + c)[5] == ':');
}

proof fn lemma_two_digits_value(n: nat)
    requires
        n < 100,
    ensures
        two_digits(n).len() == 2,
        all_digits(two_digits(n)),
        decimal_value(two_digits(n)) == n,
{
    lemma_two_digits_len(n);
    lemma_decimal_round_trip(n);
    lemma_zero_pad_value(decimal(n), 2);
}

/// Every log stamp reads back as the time of day of its instant: its
/// first two digits are the hours, the two after the first colon the
/// minutes and the last two the seconds, with hours below 24 and minutes
/// and seconds below 60, and hours * 3600 + minutes * 60 + seconds is the
/// number of seconds since midnight (UTC).
pub proof fn law_clock_text_reads_back(secs: u64)
    ensures
        clock_text(secs).len() == 8,
        clock_text(secs)[2] == ':',
        clock_text(secs)[5] == ':',
        all_digits(clock_text(secs).subrange(0, 2)),
        all_digits(clock_text(secs).subrange(3, 5)),
        all_digits(clock_text(secs).subrange(6, 8)),
        decimal_value(clock_text(secs).subrange(0, 2)) < 24,
        decimal_value(clock_text(secs).subrange(3, 5)) < 60,
        decimal_value(clock_text(secs).subrange(6, 8)) < 60,
        decimal_value(clock_text(secs).subrange(0, 2)) * 3600 + decimal_value(
            clock_text(secs).subrange(3, 5),
        ) * 60 + decimal_value(clock_text(secs).subrange(6, 8)) == secs % 86400,
{
    law_clock_text_shape(secs);
    let d = secs % 86400;
    let h = d / 3600;
    let m = (d % 3600) / 60;
    let s = d % 60;
    assert(h < 24 && m < 60 && s < 60 && h * 3600 + m * 60 + s == d) by (nonlinear_arith)
        requires
            d < 86400,
            h == d / 3600,
            m == (d % 3600) / 60,
            s == d % 60,
    ;
    lemma_two_digits_value(h as nat);
    lemma_two_digits_value(m as nat);
    lemma_two_digits_value(s as nat);
    let t = clock_text(secs);
    let a = two_digits(h as nat);
    let b = two_digits(m as nat);
    let c = two_digits(s as nat);
    assert(t == a + ":"@ + b + ":"@ + c);
    reveal_strlit(":");
    assert(t.subrange(0, 2) =~= a);
    assert(t.subrange(3, 5) =~= b);
    assert(t.subrange(6, 8) =~= c);
}

/// Formats the time of day of `secs` seconds since the epoch as `HH:MM:SS`.
pub fn format_datetime(secs: u64) -> (r: String)
    ensures
        r@ == clock_text(secs),
{
    let d = secs % 86400;
    let mut r = String::new();
    push_padded_decimal(&mut r, d / 3600, 2);
    r.append(":");
    push_padded_decimal(&mut r, (d % 3600) / 60, 2);
    r.append(":");
    push_padded_decimal(&mut r, d % 60, 2);
    r
}

/// Formats the date of `secs` seconds since the epoch as `YYYY-MM-DD`.
pub fn format_timestamp(secs: u64) -> (r: String)
    ensures
        r@ == date_text(secs),
{
    let (y, m, d) = civil_from_days(secs / 86400);
    let mut r = String::new();
    push_padded_decimal(&mut r, y, 4);
    r.append("-");
    push_padded_decimal(&mut r, m, 2);
    r.append("-");
    push_padded_decimal(&mut r, d, 2);
    r
}

/// Different days give different dates, so each day has a log file of its
/// own.
pub proof fn law_one_log_file_per_day(secs1: u64, secs2: u64)
    requires
        secs1 / 86400 != secs2 / 86400,
    ensures
        date_text(secs1) != date_text(secs2),
{
    let n1 = (secs1 / 86400) as int;
    let n2 = (secs2 / 86400) as int;
    lemma_civil_date_bounds(n1);
    lemma_civil_date_bounds(n2);
    let (y1, m1, d1) = civil_date(n1);
    let (y2, m2, d2) = civil_date(n2);
    if date_text(secs1) == date_text(secs2) {
        lemma_ymd_text_injective(y1, m1, d1, y2, m2, d2);
        law_civil_date_injective(n1, n2);
    }
}

/// Every log file date reads back as the calendar date of its day: a year
/// of at least four digits, a dash, two digits of month, a dash, two
/// digits of day; the month is from 1 to 12, the day within the month's
/// length, and counting the days of the years from 1970 and of the months
/// before it, plus the day less one, gives the day `secs / 86400`.
pub proof fn law_date_text_reads_back(secs: u64)
    ensures
        date_text(secs).len() >= 10,
        ({
            let t = date_text(secs);
            let k = t.len() - 6;
            let y = decimal_value(t.take(k)) as int;
            let m = decimal_value(t.subrange(k + 1, k + 3)) as int;
            let d = decimal_value(t.subrange(k + 4, k + 6)) as int;
            &&& t[k] == '-'
            &&& t[k + 3] == '-'
            &&& all_digits(t.take(k))
            &&& all_digits(t.subrange(k + 1, k + 3))
            &&& all_digits(t.subrange(k + 4, k + 6))
            &&& y >= 1970
            &&& 1 <= m <= 12
            &&& 1 <= d <= days_in_month(m, y)
            &&& secs / 86400 == span(1970, (y - 1970) as nat) + month_offset(m, y) + d - 1
        }),
{
    let n = (secs / 86400) as int;
    law_civil_date_counts_back(n);
    let (y, m, d) = civil_date(n);
    let ya = zero_pad(decimal(y as nat), 4);
    let ma = two_digits(m as nat);
    let da = two_digits(d as nat);
    lemma_two_digits_value(m as nat);
    lemma_two_digits_value(d as nat);
    lemma_decimal_round_trip(y as nat);
    lemma_zero_pad_value(decimal(y as nat), 4);
    assert(ya.len() >= 4);
    reveal_strlit("-");
    let t = date_text(secs);
    assert(t == ya + "-"@ + ma + "-"@ + da);
    let k = ya.len() as int;
    assert(t.len() == k + 6);
    assert(t.take(k) =~= ya);
    assert(t.subrange(k + 1, k + 3) =~= ma);
    assert(t.subrange(k + 4, k + 6) =~= da);
}

proof fn lemma_ymd_text_injective(y1: int, m1: int, d1: int, y2: int, m2: int, d2: int)
    requires
        y1 >= 0,
        y2 >= 0,
        1 <= m1 <= 12,
        1 <= m2 <= 12,
        1 <= d1 <= 31,
        1 <= d2 <= 31,
        ymd_text(y1, m1, d1) == ymd_text(y2, m2, d2),
    ensures
        y1 == y2 && m1 == m2 && d1 == d2,
{
    let ya = zero_pad(decimal(y1 as nat), 4);
    let yb = zero_pad(decimal(y2 as nat), 4);
    let ma = two_digits(m1 as nat);
    let mb = two_digits(m2 as nat);
    let da = two_digits(d1 as nat);
    let db = two_digits(d2 as nat);
    lemma_two_digits_len(m1 as nat);
    lemma_two_digits_len(m2 as nat);
    lemma_two_digits_len(d1 as nat);
    lemma_two_digits_len(d2 as nat);
    reveal_strlit("-");
    let t1 = ya + "-"@ + ma + "-"@ + da;
    let t2 = yb + "-"@ + mb + "-"@ + db;
    assert(t1 == t2);
    assert("-"@.len() == 1);
    assert(t1.len() == ya.len() + 6);
    assert(t2.len() == yb.len() + 6);
    assert(ya.len() == yb.len());
    let k = ya.len() as int;
    assert(ya =~= t1.take(k));
    assert(yb =~= t2.take(k));
    assert(ma =~= t1.subrange(k + 1, k + 3));
    assert(mb =~= t2.subrange(k + 1, k + 3));
    assert(da =~= t1.subrange(k + 4, k + 6));
    assert(db =~= t2.subrange(k + 4, k + 6));
    lemma_decimal_round_trip(y1 as nat);
    lemma_decimal_round_trip(y2 as nat);
    lemma_decimal_round_trip(m1 as nat);
    lemma_decimal_round_trip(m2 as nat);
    lemma_decimal_round_trip(d1 as nat);
    lemma_decimal_round_trip(d2 as nat);
    lemma_zero_pad_value(decimal(y1 as nat), 4);
    lemma_zero_pad_value(decimal(y2 as nat), 4);
    lemma_zero_pad_value(decimal(m1 as nat), 2);
    lemma_zero_pad_value(decimal(m2 as nat), 2);
    lemma_zero_pad_value(decimal(d1 as nat), 2);
    lemma_zero_pad_value(decimal(d2 as nat), 2);
}

/// One line of the log: `[HH:MM:SS] message` and a line feed.
pub fn log_line(secs: u64, msg: &str) -> (r: String)
    ensures
        r@ == "["@ + clock_text(secs) + "] "@ + msg@ + "\n"@,
{
    let mut r = String::from_str("[");
    let stamp = format_datetime(secs);
    r.append(stamp.as_str());
    r.append("] ");
    r.append(msg);
    r.append("\n");
    r
}

/// The name of the day's log file: `YYYY-MM-DD.log`.
pub fn log_file_name(secs: u64) -> (r: String)
    ensures
        r@ == date_text(secs) + ".log"@,
{
    let mut r = format_timestamp(secs);
    r.append(".log");
    r
}

/// The banner written to the log when the application starts, with its
/// line feed.
pub fn startup_banner(secs: u64) -> (r: String)
    ensures
        r@ == "\n=== DualLink started at "@ + clock_text(secs) + " ===\n"@,
{
    let mut r = String::from_str("\n=== DualLink started at ");
    let stamp = format_datetime(secs);
    r.append(stamp.as_str());
    r.append(" ===\n");
    r
}

} // verus!
