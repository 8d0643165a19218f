//! Wall-clock stamping of a trace run.
//!
//! A run is named after the moment it was launched, in UTC, so that the newest
//! of several names is the greatest one.

use vstd::prelude::*;
use vstd::string::StringExecFns;
use crate::text;

verus! {

// ---- the civil calendar --------------------------------------------------

/// The Gregorian leap-year rule.
pub open spec fn is_leap(year: int) -> bool {
    year % 4 == 0 && (year % 100 != 0 || year % 400 == 0)
}

/// The number of days of a year.
pub open spec fn days_in_year(year: int) -> int {
    if is_leap(year) {
        366
    } else {
        365
    }
}

/// The number of days of a month, January being 1.
pub open spec fn days_in_month(year: int, month: int) -> int {
    if month == 2 {
        if is_leap(year) {
            29
        } else {
            28
        }
    } else if month == 4 || month == 6 || month == 9 || month == 11 {
        30
    } else {
        31
    }
}

/// How many days lie between 1970-01-01 and the first day of `year`.
pub open spec fn days_before_year(year: int) -> int
    decreases year - 1970,
{
    if year <= 1970 {
        0
    } else {
        days_before_year(year - 1) + days_in_year(year - 1)
    }
}

/// How many days of `year` lie before the first of `month`.
pub open spec fn days_before_month(year: int, month: int) -> int
    decreases month,
{
    if month <= 1 {
        0
    } else {
        days_before_month(year, month - 1) + days_in_month(year, month - 1)
    }
}

/// A UTC civil date and time of day.
pub struct Civil {
    pub year: int,
    pub month: int,
    pub day: int,
    pub hour: int,
    pub min: int,
    pub sec: int,
}

/// Whether `c` is a date of the calendar, from 1970 on, and a time of day.
pub open spec fn is_date(c: Civil) -> bool {
    &&& 1970 <= c.year
    &&& 1 <= c.month <= 12
    &&& 1 <= c.day <= days_in_month(c.year, c.month)
    &&& 0 <= c.hour < 24
    &&& 0 <= c.min < 60
    &&& 0 <= c.sec < 60
}

/// How many days lie between 1970-01-01 and the date `c`.
pub open spec fn day_number(c: Civil) -> int {
    days_before_year(c.year) + days_before_month(c.year, c.month) + c.day - 1
}

/// How many seconds lie between the Unix epoch and `c`, leap seconds not counted.
pub open spec fn unix_seconds(c: Civil) -> int {
    day_number(c) * 86_400 + c.hour * 3_600 + c.min * 60 + c.sec
}

/// The civil date and time of day of a number of seconds since the Unix epoch.
pub open spec fn civil_at(secs: int) -> Civil {
    choose|c: Civil| #[trigger] is_date(c) && unix_seconds(c) == secs
}

/// `a` is the earlier of two dates: it is smaller in the first component, from
/// the year down, in which the two differ.
pub open spec fn earlier(a: Civil, b: Civil) -> bool {
    ||| a.year < b.year
    ||| a.year == b.year && a.month < b.month
    ||| a.year == b.year && a.month == b.month && a.day < b.day
    ||| a.year == b.year && a.month == b.month && a.day == b.day && (a.hour * 3_600 + a.min * 60
        + a.sec < b.hour * 3_600 + b.min * 60 + b.sec)
}

/// The sortable name of a run launched at `c`: `YYYY-MM-DD-HHMMSS`.
pub open spec fn run_name(c: Civil) -> Seq<char> {
    text::padded(c.year as nat, 4) + "-"@ + text::padded(c.month as nat, 2) + "-"@ + text::padded(c.day as nat, 2)
        + "-"@ + text::padded(c.hour as nat, 2) + text::padded(c.min as nat, 2) + text::padded(c.sec as nat, 2)
}

/// The readable label of a run launched at `c`: `YYYY-MM-DD HH:MM:SS UTC`.
pub open spec fn run_label(c: Civil) -> Seq<char> {
    text::padded(c.year as nat, 4) + "-"@ + text::padded(c.month as nat, 2) + "-"@ + text::padded(c.day as nat, 2)
        + " "@ + text::padded(c.hour as nat, 2) + ":"@ + text::padded(c.min as nat, 2) + ":"@ + text::padded(
        c.sec as nat,
        2,
    ) + " UTC"@
}

// ---- reading the clock ---------------------------------------------------

/// A point of the system clock.
#[verifier::external_type_specification]
#[verifier::external_body]
pub struct ExSystemTime(std::time::SystemTime);

/// What is returned where the earlier point turns out to be the later one.
#[verifier::external_type_specification]
#[verifier::external_body]
pub struct ExSystemTimeError(std::time::SystemTimeError);

/// `SystemTime::now`. Nothing is claimed of the time that it reads.
#[verifier::external_body]
fn system_now() -> (now: std::time::SystemTime) {
    std::time::SystemTime::now()
}

/// How long after the Unix epoch a point of the clock lies, or by how much before.
pub uninterp spec fn after_epoch(now: std::time::SystemTime) -> Result<
    std::time::Duration,
    std::time::SystemTimeError,
>;

/// How many whole seconds a span holds.
pub uninterp spec fn seconds_in(span: std::time::Duration) -> u64;

/// `SystemTime::duration_since`, from the Unix epoch: the span is named after the
/// point of the clock alone.
#[verifier::external_body]
fn since_epoch(now: std::time::SystemTime) -> (span: Result<
    std::time::Duration,
    std::time::SystemTimeError,
>)
    ensures
        span == after_epoch(now),
{
    now.duration_since(std::time::UNIX_EPOCH)
}

/// `Duration::as_secs`: the count is named after the span alone.
#[verifier::external_body]
fn whole_seconds(span: std::time::Duration) -> (secs: u64)
    ensures
        secs == seconds_in(span),
{
    span.as_secs()
}

/// The seconds since the Unix epoch that a point of the clock counts as: none
/// where it lies before the epoch.
pub open spec fn unix_time(now: std::time::SystemTime) -> u64 {
    match after_epoch(now) {
        Ok(span) => seconds_in(span),
        Err(_) => 0,
    }
}

/// `(run_dir, wall_start)` for the current launch:
/// - `run_dir` = `YYYY-MM-DD-HHMMSS` (sortable name)
/// - `wall_start` = `YYYY-MM-DD HH:MM:SS UTC` (header label)
///
/// A clock that stands before 1970 counts as standing at the epoch.
pub fn launch_stamp() -> (stamp: (String, String))
    ensures
        exists|now: std::time::SystemTime| #![trigger unix_time(now)]
            stamp.0@ == run_name(civil_at(unix_time(now) as int)) && stamp.1@ == run_label(
                civil_at(unix_time(now) as int),
            ),
{
    let now = system_now();
    let secs: u64 = match since_epoch(now) {
        Ok(span) => whole_seconds(span),
        Err(_) => 0,
    };
    assert(secs == unix_time(now));
    stamp_at(secs)
}

/// The name and the label of a run launched `secs` seconds after the Unix epoch.
pub fn stamp_at(secs: u64) -> (stamp: (String, String))
    ensures
        stamp.0@ == run_name(civil_at(secs as int)),
        stamp.1@ == run_label(civil_at(secs as int)),
{
    let (y, mo, d, h, mi, s) = civil_from_unix(secs);
    let mut name = String::new();
    text::push_padded(&mut name, y as u64, 4);
    name.append("-");
    text::push_padded(&mut name, mo as u64, 2);
    name.append("-");
    text::push_padded(&mut name, d as u64, 2);
    name.append("-");
    text::push_padded(&mut name, h as u64, 2);
    text::push_padded(&mut name, mi as u64, 2);
    text::push_padded(&mut name, s as u64, 2);

    let mut label = String::new();
    text::push_padded(&mut label, y as u64, 4);
    label.append("-");
    text::push_padded(&mut label, mo as u64, 2);
    label.append("-");
    text::push_padded(&mut label, d as u64, 2);
    label.append(" ");
    text::push_padded(&mut label, h as u64, 2);
    label.append(":");
    text::push_padded(&mut label, mi as u64, 2);
    label.append(":");
    text::push_padded(&mut label, s as u64, 2);
    label.append(" UTC");
    (name, label)
}

/// The components of a civil date as machine integers.
pub open spec fn civil_parts(t: (i64, u32, u32, u32, u32, u32)) -> Civil {
    Civil {
        year: t.0 as int,
        month: t.1 as int,
        day: t.2 as int,
        hour: t.3 as int,
        min: t.4 as int,
        sec: t.5 as int,
    }
}

/// Converts Unix seconds to a UTC civil `(year, month, day, hour, min, sec)`:
/// the one date of the calendar that lies `secs` seconds after the epoch.
///
/// The year is taken to begin in March, so that the leap day is its last one
/// and a cycle of 400 years has a fixed length.
pub fn civil_from_unix(secs: u64) -> (t: (i64, u32, u32, u32, u32, u32))
    ensures
        civil_parts(t) == civil_at(secs as int),
        is_date(civil_parts(t)),
        unix_seconds(civil_parts(t)) == secs,
{
    let days: u64 = secs / 86_400;
    let rem: u32 = (secs % 86_400) as u32;
    let hour: u32 = rem / 3600;
    let min: u32 = (rem % 3600) / 60;
    let sec: u32 = rem % 60;

    // Days since 0000-03-01.
    let z: u64 = days + 719_468;
    let era: u64 = z / 146_097;
    let doe: u64 = z % 146_097;
    proof {
        lemma_year_of_era(
            doe as int,
            (doe as int - doe as int / 1460 + doe as int / 36_524 - doe as int / 146_096) / 365,
        );
    }
    let yoe: u64 = (doe - doe / 1460 + doe / 36_524 - doe / 146_096) / 365;
    let doy: u64 = doe - (365 * yoe + yoe / 4 - yoe / 100);
    let mp: u64 = (5 * doy + 2) / 153;
    let day: u32 = (doy - (153 * mp + 2) / 5 + 1) as u32;
    let month: u32 = if mp < 10 {
        (mp + 3) as u32
    } else {
        (mp - 9) as u32
    };
    let march_year: u64 = yoe + era * 400;
    let year: u64 = if month <= 2 {
        march_year + 1
    } else {
        march_year
    };
    let t = (year as i64, month, day, hour, min, sec);
    proof {
        lemma_date_of_day(days as int, era as int, yoe as int, doy as int, mp as int);
        lemma_civil_at(civil_parts(t));
    }
    t
}

// ---- laws ----------------------------------------------------------------

/// Later seconds are later dates.
pub proof fn law_later_seconds_are_later_dates(a: Civil, b: Civil)
    requires
        is_date(a),
        is_date(b),
        unix_seconds(a) < unix_seconds(b),
    ensures
        earlier(a, b),
{
    if !earlier(a, b) {
        if b.year < a.year {
            lemma_year_of_day(b);
            lemma_year_of_day(a);
            lemma_years_grow(b.year + 1, a.year);
            assert(day_number(b) < day_number(a));
        } else if b.month < a.month {
            lemma_month_of_day(b);
            lemma_month_of_day(a);
            lemma_months_grow(b.year, b.month + 1, a.month);
            assert(day_number(b) < day_number(a));
        }
        assert(false);
    }
}

/// A moment has one date: two dates that lie equally far from the epoch are the
/// same.
pub proof fn law_date_is_unique(a: Civil, b: Civil)
    requires
        is_date(a),
        is_date(b),
        unix_seconds(a) == unix_seconds(b),
    ensures
        a == b,
{
    if b.year < a.year {
        lemma_year_of_day(b);
        lemma_year_of_day(a);
        lemma_years_grow(b.year + 1, a.year);
    } else if a.year < b.year {
        lemma_year_of_day(b);
        lemma_year_of_day(a);
        lemma_years_grow(a.year + 1, b.year);
    } else if b.month < a.month {
        lemma_month_of_day(b);
        lemma_month_of_day(a);
        lemma_months_grow(b.year, b.month + 1, a.month);
    } else if a.month < b.month {
        lemma_month_of_day(b);
        lemma_month_of_day(a);
        lemma_months_grow(b.year, a.month + 1, b.month);
    }
}

/// Run names sort as the moments do: of two runs the later one has the greater
/// name, up to the year 9999.
pub proof fn law_run_names_sort(a: Civil, b: Civil)
    requires
        is_date(a),
        is_date(b),
        unix_seconds(a) < unix_seconds(b),
        b.year <= 9999,
    ensures
        text::before(run_name(a), run_name(b)),
{
    law_later_seconds_are_later_dates(a, b);
    lemma_small_powers();
    let (time_a, time_b) = (time_text(a), time_text(b));
    let (day_a, day_b) = (day_text(a), day_text(b));
    let (month_a, month_b) = (month_text(a), month_text(b));
    lemma_run_name_split(a);
    lemma_run_name_split(b);
    if a.year < b.year {
        lemma_field_decides(a.year, b.year, 4, "-"@ + month_a, "-"@ + month_b);
    } else {
        if a.month < b.month {
            lemma_field_decides(a.month, b.month, 2, "-"@ + day_a, "-"@ + day_b);
        } else {
            if a.day < b.day {
                lemma_field_decides(a.day, b.day, 2, "-"@ + time_a, "-"@ + time_b);
            } else {
                lemma_times_sort(a, b);
                lemma_field_passes(a.day, 2, time_a, time_b);
            }
            lemma_field_passes(a.month, 2, day_a, day_b);
        }
        lemma_field_passes(a.year, 4, month_a, month_b);
    }
}

spec fn time_text(c: Civil) -> Seq<char> {
    text::padded(c.hour as nat, 2) + (text::padded(c.min as nat, 2) + text::padded(c.sec as nat, 2))
}

spec fn day_text(c: Civil) -> Seq<char> {
    text::padded(c.day as nat, 2) + ("-"@ + time_text(c))
}

spec fn month_text(c: Civil) -> Seq<char> {
    text::padded(c.month as nat, 2) + ("-"@ + day_text(c))
}

proof fn lemma_run_name_split(c: Civil)
    ensures
        run_name(c) == text::padded(c.year as nat, 4) + ("-"@ + month_text(c)),
{
    let dash = "-"@;
    let year = text::padded(c.year as nat, 4);
    let month = text::padded(c.month as nat, 2);
    let day = text::padded(c.day as nat, 2);
    let hour = text::padded(c.hour as nat, 2);
    let min = text::padded(c.min as nat, 2);
    let sec = text::padded(c.sec as nat, 2);
    lemma_regroup(year + dash + month + dash + day + dash, hour, min, sec);
    lemma_regroup(year + dash + month + dash, day, dash, hour + (min + sec));
    lemma_regroup(year + dash, month, dash, day + (dash + (hour + (min + sec))));
    let rest = month + (dash + (day + (dash + (hour + (min + sec)))));
    assert(year + dash + rest =~= year + (dash + rest));
}

proof fn lemma_regroup(a: Seq<char>, b: Seq<char>, c: Seq<char>, d: Seq<char>)
    ensures
        a + b + c + d == a + (b + (c + d)),
{
    assert(a + b + c + d =~= a + (b + (c + d)));
}

proof fn lemma_small_powers()
    ensures
        text::ten_to(2) == 100,
        text::ten_to(4) == 10_000,
{
    reveal_with_fuel(text::ten_to, 5);
}

proof fn lemma_times_sort(a: Civil, b: Civil)
    requires
        is_date(a),
        is_date(b),
        a.hour * 3_600 + a.min * 60 + a.sec < b.hour * 3_600 + b.min * 60 + b.sec,
    ensures
        text::before(time_text(a), time_text(b)),
{
    lemma_small_powers();
    let (a4, b4) = (text::padded(a.min as nat, 2), text::padded(b.min as nat, 2));
    let (a5, b5) = (text::padded(a.sec as nat, 2), text::padded(b.sec as nat, 2));
    if a.hour < b.hour {
        lemma_field_decides(a.hour, b.hour, 2, a4 + a5, b4 + b5);
    } else {
        if a.min < b.min {
            lemma_field_decides(a.min, b.min, 2, a5, b5);
        } else {
            text::lemma_padded_order(a.sec as nat, b.sec as nat, 2);
            text::lemma_before_prefix(a4, a5, b5);
        }
        text::lemma_before_prefix(text::padded(a.hour as nat, 2), a4 + a5, b4 + b5);
    }
}

proof fn lemma_field_passes(n: int, width: nat, s: Seq<char>, t: Seq<char>)
    requires
        text::before(s, t),
    ensures
        text::before(
            text::padded(n as nat, width) + ("-"@ + s),
            text::padded(n as nat, width) + ("-"@ + t),
        ),
{
    text::lemma_before_prefix("-"@, s, t);
    text::lemma_before_prefix(text::padded(n as nat, width), "-"@ + s, "-"@ + t);
}

/// A run name up to the year 9999 has seventeen characters.
pub proof fn law_run_name_shape(c: Civil)
    requires
        is_date(c),
        c.year <= 9999,
    ensures
        run_name(c).len() == 17,
{
    lemma_small_powers();
    reveal_strlit("-");
    text::lemma_padded_len(c.year as nat, 4);
    text::lemma_padded_len(c.month as nat, 2);
    text::lemma_padded_len(c.day as nat, 2);
    text::lemma_padded_len(c.hour as nat, 2);
    text::lemma_padded_len(c.min as nat, 2);
    text::lemma_padded_len(c.sec as nat, 2);
}

proof fn lemma_field_decides(m: int, n: int, width: nat, s: Seq<char>, t: Seq<char>)
    requires
        0 <= m < n,
        n < text::ten_to(width),
        width > 0,
    ensures
        text::before(text::padded(m as nat, width) + s, text::padded(n as nat, width) + t),
{
    text::lemma_padded_len(m as nat, width);
    text::lemma_padded_len(n as nat, width);
    text::lemma_padded_order(m as nat, n as nat, width);
    text::lemma_before_suffix(text::padded(m as nat, width), text::padded(n as nat, width), s, t);
}

proof fn lemma_civil_at(c: Civil)
    requires
        is_date(c),
    ensures
        civil_at(unix_seconds(c)) == c,
{
    let other = civil_at(unix_seconds(c));
    assert(is_date(other) && unix_seconds(other) == unix_seconds(c));
    law_date_is_unique(other, c);
}

proof fn lemma_year_of_day(c: Civil)
    requires
        is_date(c),
    ensures
        days_before_year(c.year) <= day_number(c) < days_before_year(c.year + 1),
{
    lemma_days_before_month(c.year, c.month);
}

proof fn lemma_month_of_day(c: Civil)
    requires
        is_date(c),
    ensures
        days_before_year(c.year) + days_before_month(c.year, c.month) <= day_number(c)
            < days_before_year(c.year) + days_before_month(c.year, c.month + 1),
{
}

proof fn lemma_years_grow(from: int, to: int)
    requires
        1970 <= from <= to,
    ensures
        days_before_year(from) <= days_before_year(to),
    decreases to - from,
{
    if from < to {
        lemma_years_grow(from, to - 1);
    }
}

proof fn lemma_months_grow(year: int, from: int, to: int)
    requires
        1 <= from <= to,
    ensures
        days_before_month(year, from) <= days_before_month(year, to),
    decreases to - from,
{
    if from < to {
        lemma_months_grow(year, from, to - 1);
    }
}

// ---- closed forms --------------------------------------------------------

/// The leap years among the years 1 to `year - 1`.
spec fn leaps_before(year: int) -> int {
    (year - 1) / 4 - (year - 1) / 100 + (year - 1) / 400
}

proof fn lemma_days_before_year(year: int)
    requires
        year >= 1970,
    ensures
        days_before_year(year) == 365 * (year - 1970) + leaps_before(year) - 477,
    decreases year,
{
    if year > 1970 {
        lemma_days_before_year(year - 1);
        lemma_leap_step(year - 1);
    }
}

proof fn lemma_leap_step(year: int)
    ensures
        leaps_before(year + 1) - leaps_before(year) == days_in_year(year) - 365,
{
    lemma_multiple_step(year, 4);
    lemma_multiple_step(year, 100);
    lemma_multiple_step(year, 400);
    if year % 100 == 0 {
        lemma_digits(year, 4, 25 * (year / 100), 0);
    }
    if year % 400 == 0 {
        lemma_digits(year, 100, 4 * (year / 400), 0);
    }
}

/// Quotient and remainder are the one way to write a number as a multiple of
/// `m` and a rest.
proof fn lemma_digits(n: int, m: int, q: int, r: int)
    requires
        m == 4 || m == 100 || m == 400,
        n == m * q + r,
        0 <= r < m,
    ensures
        n / m == q,
        n % m == r,
{
    vstd::arithmetic::div_mod::lemma_fundamental_div_mod_converse(n, m, q, r);
}

/// Division by `m` steps up exactly at the multiples of `m`.
proof fn lemma_multiple_step(n: int, m: int)
    requires
        m == 4 || m == 100 || m == 400,
    ensures
        n / m - (n - 1) / m == (if n % m == 0 {
            1int
        } else {
            0int
        }),
{
    let (q, r) = (n / m, n % m);
    if r == 0 {
        lemma_digits(n - 1, m, q - 1, m - 1);
    } else {
        lemma_digits(n - 1, m, q, r - 1);
    }
}

/// The days of the year before a month, counted from the first of March.
spec fn march_days(mp: int) -> int {
    (153 * mp + 2) / 5
}

proof fn lemma_days_before_month(year: int, month: int)
    requires
        1 <= month <= 12,
    ensures
        month >= 3 ==> days_before_month(year, month) == march_days(month - 3) + (if is_leap(year) {
            60int
        } else {
            59int
        }),
        month == 1 ==> days_before_month(year, month) == 0,
        month == 2 ==> days_before_month(year, month) == 31,
{
    reveal_with_fuel(days_before_month, 13);
}

proof fn lemma_year_of_era(doe: int, yoe: int)
    requires
        0 <= doe <= 146_096,
        yoe == (doe - doe / 1460 + doe / 36_524 - doe / 146_096) / 365,
    ensures
        0 <= yoe <= 399,
        0 <= doe - (365 * yoe + yoe / 4 - yoe / 100),
        doe - (365 * yoe + yoe / 4 - yoe / 100) <= 365,
        doe - (365 * yoe + yoe / 4 - yoe / 100) == 365 ==> (yoe + 1) % 4 == 0 && ((yoe + 1) % 100 != 0
            || (yoe + 1) % 400 == 0),
{
}

/// The date that the March-based count of `days` arrives at.
proof fn lemma_date_of_day(days: int, era: int, yoe: int, doy: int, mp: int)
    requires
        days >= 0,
        era == (days + 719_468) / 146_097,
        yoe == ({
            let doe = (days + 719_468) % 146_097;
            (doe - doe / 1460 + doe / 36_524 - doe / 146_096) / 365
        }),
        doy == (days + 719_468) % 146_097 - (365 * yoe + yoe / 4 - yoe / 100),
        mp == (5 * doy + 2) / 153,
    ensures
        ({
            let month = if mp < 10 {
                mp + 3
            } else {
                mp - 9
            };
            let year = era * 400 + yoe + (if month <= 2 {
                1int
            } else {
                0int
            });
            let day = doy - (153 * mp + 2) / 5 + 1;
            &&& 0 <= mp <= 11
            &&& 1970 <= year
            &&& 1 <= day <= days_in_month(year, month)
            &&& days_before_year(year) + days_before_month(year, month) + day - 1 == days
        }),
{
    let z = days + 719_468;
    let doe = z % 146_097;
    lemma_year_of_era(doe, yoe);
    lemma_march_month(doy, mp);
    let month = if mp < 10 {
        mp + 3
    } else {
        mp - 9
    };
    let y = era * 400 + yoe;
    let year = y + (if month <= 2 {
        1int
    } else {
        0int
    });
    assert(z == era * 146_097 + doe);
    lemma_cycle(era, yoe);
    if month <= 2 {
        assert(doy >= 306);
    }
    assert(year >= 1970) by {
        if era <= 4 {
            assert(doe >= 719_468 - 4 * 146_097);
        }
    }
    lemma_days_before_year(year);
    lemma_days_before_month(year, month);
    if month <= 2 {
        assert(leaps_before(year) == era * 97 + yoe / 4 - yoe / 100);
        assert(is_leap(year) == ((yoe + 1) % 4 == 0 && ((yoe + 1) % 100 != 0 || (yoe + 1) % 400
            == 0)));
    } else {
        lemma_leap_step(year);
        assert(leaps_before(year + 1) == era * 97 + yoe / 4 - yoe / 100);
    }
}

/// The month of a day of the March-based year.
proof fn lemma_march_month(doy: int, mp: int)
    requires
        0 <= doy <= 365,
        mp == (5 * doy + 2) / 153,
    ensures
        0 <= mp <= 11,
        march_days(mp) <= doy < march_days(mp + 1),
        mp >= 10 <==> doy >= 306,
        march_days(10) == 306,
        march_days(11) == 337,
{
}

/// Counting leap years through whole cycles of 400 years.
proof fn lemma_cycle(era: int, yoe: int)
    requires
        0 <= yoe <= 399,
    ensures
        (era * 400 + yoe) / 4 == era * 100 + yoe / 4,
        (era * 400 + yoe) / 100 == era * 4 + yoe / 100,
        (era * 400 + yoe) / 400 == era,
        (era * 400 + yoe + 1) % 4 == (yoe + 1) % 4,
        (era * 400 + yoe + 1) % 100 == (yoe + 1) % 100,
        (era * 400 + yoe + 1) % 400 == (yoe + 1) % 400,
{
    let n = era * 400 + yoe;
    lemma_digits(n, 4, era * 100 + yoe / 4, yoe % 4);
    lemma_digits(n, 100, era * 4 + yoe / 100, yoe % 100);
    lemma_digits(n, 400, era, yoe);
    lemma_digits(n + 1, 4, era * 100 + (yoe + 1) / 4, (yoe + 1) % 4);
    lemma_digits(n + 1, 100, era * 4 + (yoe + 1) / 100, (yoe + 1) % 100);
    lemma_digits(n + 1, 400, era + (yoe + 1) / 400, (yoe + 1) % 400);
}

// ---- what the calendar and the names stand for ------------------------------

/// Leap years are those divisible by four, but of the centuries only those divisible
/// by four hundred; only their February is longer.
pub proof fn law_the_lengths_of_months(year: int, month: int)
    ensures
        year % 400 == 0 ==> is_leap(year),
        year % 400 != 0 && year % 100 == 0 ==> !is_leap(year),
        year % 100 != 0 && year % 4 == 0 ==> is_leap(year),
        year % 4 != 0 ==> !is_leap(year),
        is_leap(year) ==> days_in_year(year) == 366 && days_in_month(year, 2) == 29,
        !is_leap(year) ==> days_in_year(year) == 365 && days_in_month(year, 2) == 28,
        month == 1 || month == 3 || month == 5 || month == 7 || month == 8 || month == 10 || month
            == 12 ==> days_in_month(year, month) == 31,
        month == 4 || month == 6 || month == 9 || month == 11 ==> days_in_month(year, month) == 30,
{
    if year % 400 == 0 {
        lemma_digits(year, 4, 100 * (year / 400), 0);
        lemma_digits(year, 100, 4 * (year / 400), 0);
    }
    if year % 4 != 0 && year % 100 == 0 {
        lemma_digits(year, 4, 25 * (year / 100), 0);
    }
}

/// The epoch is the first moment of 1970, and time goes on from there: a second, a
/// minute, an hour and a day are as long as ever, the first of a month follows the
/// last day of the month before, and the first of a year the last of December.
pub proof fn law_seconds_are_counted_from_the_epoch(c: Civil)
    ensures
        unix_seconds(
            Civil { year: 1970, month: 1, day: 1, hour: 0, min: 0, sec: 0 },
        ) == 0,
        unix_seconds(Civil { sec: c.sec + 1, ..c }) == unix_seconds(c) + 1,
        unix_seconds(Civil { min: c.min + 1, ..c }) == unix_seconds(c) + 60,
        unix_seconds(Civil { hour: c.hour + 1, ..c }) == unix_seconds(c) + 3_600,
        unix_seconds(Civil { day: c.day + 1, ..c }) == unix_seconds(c) + 86_400,
        1 <= c.month < 12 ==> unix_seconds(Civil { month: c.month + 1, day: 1, ..c })
            == unix_seconds(Civil { day: days_in_month(c.year, c.month) + 1, ..c }),
        c.year >= 1970 ==> unix_seconds(Civil { year: c.year + 1, month: 1, day: 1, ..c })
            == unix_seconds(Civil { month: 12, day: 32, ..c }),
{
    if c.year >= 1970 {
        lemma_days_before_month(c.year, 12);
        assert(days_before_month(c.year, 12) + 31 == days_in_year(c.year));
    }
}

/// A moment's date is a date of the calendar that lies as far from the epoch as the
/// moment does.
pub proof fn law_a_moment_has_its_date(c: Civil)
    requires
        is_date(c),
    ensures
        civil_at(unix_seconds(c)) == c,
{
    lemma_civil_at(c);
}

/// Which dates there are: those from 1970 on, with a month from 1 to 12, a day of that
/// month and a time of day.
pub proof fn law_which_dates_there_are(c: Civil)
    ensures
        is_date(c) <==> c.year >= 1970 && 1 <= c.month <= 12 && 1 <= c.day <= days_in_month(
            c.year,
            c.month,
        ) && 0 <= c.hour <= 23 && 0 <= c.min <= 59 && 0 <= c.sec <= 59,
{
}

proof fn lemma_fields(c: Civil)
    requires
        is_date(c),
        c.year <= 9999,
    ensures
        text::padded(c.year as nat, 4).len() == 4,
        text::padded(c.month as nat, 2).len() == 2,
        text::padded(c.day as nat, 2).len() == 2,
        text::padded(c.hour as nat, 2).len() == 2,
        text::padded(c.min as nat, 2).len() == 2,
        text::padded(c.sec as nat, 2).len() == 2,
{
    lemma_small_powers();
    text::lemma_padded_len(c.year as nat, 4);
    text::lemma_padded_len(c.month as nat, 2);
    text::lemma_padded_len(c.day as nat, 2);
    text::lemma_padded_len(c.hour as nat, 2);
    text::lemma_padded_len(c.min as nat, 2);
    text::lemma_padded_len(c.sec as nat, 2);
}

/// Where each part of the date stands in the name of a run, up to the year 9999.
pub proof fn law_names_tell_the_date(c: Civil)
    requires
        is_date(c),
        c.year <= 9999,
    ensures
        ({
            let name = run_name(c);
            &&& name.len() == 17
            &&& name.subrange(0, 4) == text::padded(c.year as nat, 4)
            &&& name[4] == '-'
            &&& name.subrange(5, 7) == text::padded(c.month as nat, 2)
            &&& name[7] == '-'
            &&& name.subrange(8, 10) == text::padded(c.day as nat, 2)
            &&& name[10] == '-'
            &&& name.subrange(11, 13) == text::padded(c.hour as nat, 2)
            &&& name.subrange(13, 15) == text::padded(c.min as nat, 2)
            &&& name.subrange(15, 17) == text::padded(c.sec as nat, 2)
        }),
{
    lemma_fields(c);
    reveal_strlit("-");
    let name = run_name(c);
    assert(name.subrange(0, 4) =~= text::padded(c.year as nat, 4));
    assert(name.subrange(5, 7) =~= text::padded(c.month as nat, 2));
    assert(name.subrange(8, 10) =~= text::padded(c.day as nat, 2));
    assert(name.subrange(11, 13) =~= text::padded(c.hour as nat, 2));
    assert(name.subrange(13, 15) =~= text::padded(c.min as nat, 2));
    assert(name.subrange(15, 17) =~= text::padded(c.sec as nat, 2));
}

/// Where each part of the date stands in the label of a run, up to the year 9999.
pub proof fn law_labels_tell_the_date(c: Civil)
    requires
        is_date(c),
        c.year <= 9999,
    ensures
        ({
            let label = run_label(c);
            &&& label.len() == 23
            &&& label.subrange(0, 4) == text::padded(c.year as nat, 4)
            &&& label[4] == '-'
            &&& label.subrange(5, 7) == text::padded(c.month as nat, 2)
            &&& label[7] == '-'
            &&& label.subrange(8, 10) == text::padded(c.day as nat, 2)
            &&& label[10] == ' '
            &&& label.subrange(11, 13) == text::padded(c.hour as nat, 2)
            &&& label[13] == ':'
            &&& label.subrange(14, 16) == text::padded(c.min as nat, 2)
            &&& label[16] == ':'
            &&& label.subrange(17, 19) == text::padded(c.sec as nat, 2)
            &&& label.subrange(19, 23) == " UTC"@
        }),
{
    lemma_fields(c);
    reveal_strlit("-");
    reveal_strlit(" ");
    reveal_strlit(":");
    reveal_strlit(" UTC");
    let label = run_label(c);
    assert(label.subrange(0, 4) =~= text::padded(c.year as nat, 4));
    assert(label.subrange(5, 7) =~= text::padded(c.month as nat, 2));
    assert(label.subrange(8, 10) =~= text::padded(c.day as nat, 2));
    assert(label.subrange(11, 13) =~= text::padded(c.hour as nat, 2));
    assert(label.subrange(14, 16) =~= text::padded(c.min as nat, 2));
    assert(label.subrange(17, 19) =~= text::padded(c.sec as nat, 2));
    assert(label.subrange(19, 23) =~= " UTC"@);
}

/// A clock behind the epoch counts its whole seconds, one before it counts none.
pub proof fn law_clocks_before_the_epoch_count_none(now: std::time::SystemTime)
    ensures
        after_epoch(now) matches Ok(span) ==> unix_time(now) == seconds_in(span),
        after_epoch(now) is Err ==> unix_time(now) == 0,
{
}

/// The components of a date stand in the order year, month, day, hour, minute,
/// second.
pub proof fn law_components_in_order(t: (i64, u32, u32, u32, u32, u32))
    ensures
        civil_parts(t).year == t.0,
        civil_parts(t).month == t.1,
        civil_parts(t).day == t.2,
        civil_parts(t).hour == t.3,
        civil_parts(t).min == t.4,
        civil_parts(t).sec == t.5,
{
}

}
