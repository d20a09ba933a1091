//! Calendar dates as the shop writes them (`YYYY-MM-DD` and
//! `YYYY-MM-DD HH:MM:SS`), the clock readings they come from, and the
//! check that a text is such a date.
use chrono::{Datelike, Timelike};
use vstd::prelude::*;
use vstd::string::*;
use crate::text::{decimal_digits, digit_char, push_zero_padded, zero_pad};

verus! {

/// Smallest year that a chrono date can hold.
pub open spec fn min_year() -> int {
    -262143
}

/// Largest year that a chrono date can hold.
pub open spec fn max_year() -> int {
    262142
}

/// Fields of a calendar date as chrono hands them out.
pub open spec fn date_fields_ok(y: int, m: int, d: int) -> bool {
    &&& min_year() <= y <= max_year()
    &&& 1 <= m <= 12
    &&& 1 <= d <= 31
}

/// Fields of a time of day as chrono hands them out.
pub open spec fn time_fields_ok(h: int, mi: int, s: int) -> bool {
    &&& 0 <= h <= 23
    &&& 0 <= mi <= 59
    &&& 0 <= s <= 59
}

/// How chrono's `%Y` writes a year: four digits, zero padded, between 0 and
/// 9999; otherwise a sign and at least four digits.
pub open spec fn year_text(y: int) -> Seq<char> {
    if 0 <= y <= 9999 {
        zero_pad(decimal_digits(y as nat), 4)
    } else if y < 0 {
        seq!['-'] + zero_pad(decimal_digits((-y) as nat), 4)
    } else {
        seq!['+'] + zero_pad(decimal_digits(y as nat), 4)
    }
}

/// A number below 100 in two digits, as `%m`, `%d`, `%H`, `%M` and `%S` write it.
pub open spec fn two_digits(n: nat) -> Seq<char> {
    zero_pad(decimal_digits(n), 2)
}

/// The date written as `%Y-%m-%d`.
pub open spec fn ymd_text(y: int, m: nat, d: nat) -> Seq<char> {
    year_text(y) + seq!['-'] + two_digits(m) + seq!['-'] + two_digits(d)
}

/// The date and time written as `%Y-%m-%d %H:%M:%S`.
pub open spec fn ymdhms_text(y: int, m: nat, d: nat, h: nat, mi: nat, s: nat) -> Seq<char> {
    ymd_text(y, m, d) + seq![' '] + two_digits(h) + seq![':'] + two_digits(mi) + seq![':']
        + two_digits(s)
}

/// Whether chrono's `NaiveDate::parse_from_str(text, fmt)` reads `text` as
/// a date in the format `fmt`.
pub uninterp spec fn chrono_reads_date(text: Seq<char>, fmt: Seq<char>) -> bool;

/// Today's date in the machine's time zone: chrono's
/// `DateTime<Local>::from(SystemTime::now())`, taken apart with `Datelike`.
/// That conversion handles clock readings before 1970 as well as after; it
/// panics only for a reading beyond chrono's range of some 262,000 years.
/// chrono documents the month as 1 to 12 and the day as 1 to 31, and its
/// dates stay within its year range; a `NaiveDate` is kept as a year and a
/// day of that year, so its month and day always make a day of the
/// calendar. Which date comes back depends on the clock and the time zone.
#[verifier::external_body]
fn local_today() -> (r: (i32, u32, u32))
    ensures
        date_fields_ok(r.0 as int, r.1 as int, r.2 as int),
        is_calendar_date(r.0 as int, r.1 as int, r.2 as int),
{
    let now = chrono::DateTime::<chrono::Local>::from(std::time::SystemTime::now()).date_naive();
    (now.year(), now.month(), now.day())
}

/// The present date and time in UTC: chrono's
/// `DateTime<Utc>::from(SystemTime::now())`, taken apart with `Datelike` and
/// `Timelike`. That conversion handles clock readings before 1970 as well as
/// after; it panics only for a reading beyond chrono's range of some 262,000
/// years. chrono documents the ranges below; its date is kept as a year and
/// a day of that year, so month and day make a day of the calendar; a time
/// read from the system clock is never a leap second. Which instant comes
/// back depends on the clock.
#[verifier::external_body]
fn utc_now() -> (r: (i32, u32, u32, u32, u32, u32))
    ensures
        date_fields_ok(r.0 as int, r.1 as int, r.2 as int),
        is_calendar_date(r.0 as int, r.1 as int, r.2 as int),
        time_fields_ok(r.3 as int, r.4 as int, r.5 as int),
{
    let now = chrono::DateTime::<chrono::Utc>::from(std::time::SystemTime::now());
    (now.year(), now.month(), now.day(), now.hour(), now.minute(), now.second())
}

/// The value of a decimal digit character.
pub open spec fn digit_value(c: char) -> int {
    c as int - '0' as int
}

/// The year of a text of the shape `YYYY-MM-DD`.
pub open spec fn ymd_year(t: Seq<char>) -> int {
    1000 * digit_value(t[0]) + 100 * digit_value(t[1]) + 10 * digit_value(t[2]) + digit_value(t[3])
}

/// The month of a text of the shape `YYYY-MM-DD`.
pub open spec fn ymd_month(t: Seq<char>) -> int {
    10 * digit_value(t[5]) + digit_value(t[6])
}

/// The day of a text of the shape `YYYY-MM-DD`.
pub open spec fn ymd_day(t: Seq<char>) -> int {
    10 * digit_value(t[8]) + digit_value(t[9])
}

/// Leap years of the proleptic Gregorian calendar that chrono follows.
pub open spec fn is_leap_year(y: int) -> bool {
    (y % 4 == 0 && y % 100 != 0) || y % 400 == 0
}

/// Days in month `m` of year `y`.
pub open spec fn days_in_month(y: int, m: int) -> int {
    if m == 2 {
        if is_leap_year(y) {
            29
        } else {
            28
        }
    } else if m == 4 || m == 6 || m == 9 || m == 11 {
        30
    } else {
        31
    }
}

/// Whether month `m` and day `d` make a day of the calendar in year `y`.
pub open spec fn is_calendar_date(y: int, m: int, d: int) -> bool {
    1 <= m <= 12 && 1 <= d <= days_in_month(y, m)
}

/// Whether a text of the shape `YYYY-MM-DD` names a day of the calendar.
pub open spec fn names_calendar_date(t: Seq<char>) -> bool {
    is_calendar_date(ymd_year(t), ymd_month(t), ymd_day(t))
}

/// Whether chrono's `NaiveDate::parse_from_str(text, fmt)` succeeds; it
/// depends on the two texts alone, and in general what it accepts (signs,
/// digit counts, calendar validity) is left to the name `chrono_reads_date`.
/// For the format `%Y-%m-%d` and a text of four digits, a dash, two digits,
/// a dash and two digits, chrono's source reads the three numbers (the year
/// needs no sign below 10000), refuses a month outside 1 to 12 or a day
/// outside 1 to 31, and then builds the date with `from_ymd_opt`, which
/// refuses a day past the end of its month (leap years by the Gregorian
/// rule); so it succeeds exactly for a day of the calendar.
#[verifier::external_body]
pub(crate) fn chrono_parses_date(text: &str, fmt: &str) -> (ok: bool)
    ensures
        ok == chrono_reads_date(text@, fmt@),
        fmt@ == "%Y-%m-%d"@ && has_ymd_shape(text@) ==> (ok <==> names_calendar_date(text@)),
{
    chrono::NaiveDate::parse_from_str(text, fmt).is_ok()
}

proof fn lemma_digit_char_value(n: nat)
    requires
        n < 10,
    ensures
        digit_value(digit_char(n)) == n,
        is_ascii_digit(digit_char(n)),
{
}

proof fn lemma_two_digits_of(n: nat)
    requires
        n < 100,
    ensures
        two_digits(n) == seq![digit_char(n / 10), digit_char(n % 10)],
{
    if n < 10 {
        assert(two_digits(n) =~= seq![digit_char(n / 10), digit_char(n % 10)]);
    } else {
        assert(decimal_digits((n / 10) as nat) == seq![digit_char((n / 10) as nat)]);
        assert(two_digits(n) =~= seq![digit_char(n / 10), digit_char(n % 10)]);
    }
}

proof fn lemma_four_digits_of(n: nat)
    requires
        n < 10000,
    ensures
        year_text(n as int) == seq![
            digit_char(n / 1000),
            digit_char((n / 100) % 10),
            digit_char((n / 10) % 10),
            digit_char(n % 10),
        ],
{
    let want = seq![
        digit_char(n / 1000),
        digit_char((n / 100) % 10),
        digit_char((n / 10) % 10),
        digit_char(n % 10),
    ];
    let a = (n / 10) as nat;
    let b = (a / 10) as nat;
    let c = (b / 10) as nat;
    assert(b == n / 100 && c == n / 1000);
    if n < 10 {
        assert(year_text(n as int) =~= want);
    } else if n < 100 {
        assert(decimal_digits(a) == seq![digit_char(a)]);
        assert(year_text(n as int) =~= want);
    } else if n < 1000 {
        assert(decimal_digits(b) == seq![digit_char(b)]);
        assert(decimal_digits(a) == seq![digit_char(b), digit_char(a % 10)]);
        assert(year_text(n as int) =~= want);
    } else {
        assert(decimal_digits(c) == seq![digit_char(c)]);
        assert(decimal_digits(b) == seq![digit_char(c), digit_char(b % 10)]);
        assert(decimal_digits(a) == seq![digit_char(c), digit_char(b % 10), digit_char(a % 10)]);
        assert(year_text(n as int) =~= want);
    }
}

proof fn lemma_year_digits_sum(n: nat)
    requires
        n < 10000,
    ensures
        1000 * (n / 1000) + 100 * ((n / 100) % 10) + 10 * ((n / 10) % 10) + n % 10 == n,
{
    let a = n / 10;
    let b = a / 10;
    assert(b == n / 100);
    assert(b / 10 == n / 1000);
    assert(n == 10 * a + n % 10);
    assert(a == 10 * b + a % 10);
    assert(b == 10 * (b / 10) + b % 10);
}

/// A date of the years 0 to 9999 written as `YYYY-MM-DD` has that shape
/// and reads back as the same year, month and day; so it is accepted as a
/// closure date exactly when it is a day of the calendar, and two different
/// dates are never written alike.
#[verifier::spinoff_prover]
pub proof fn lemma_ymd_text_reads_back(y: int, m: nat, d: nat)
    requires
        0 <= y <= 9999,
        1 <= m <= 12,
        1 <= d <= 31,
    ensures
        has_ymd_shape(ymd_text(y, m, d)),
        ymd_year(ymd_text(y, m, d)) == y,
        ymd_month(ymd_text(y, m, d)) == m,
        ymd_day(ymd_text(y, m, d)) == d,
        names_calendar_date(ymd_text(y, m, d)) <==> is_calendar_date(y, m as int, d as int),
{
    let n = y as nat;
    lemma_four_digits_of(n);
    lemma_two_digits_of(m);
    lemma_two_digits_of(d);
    let t = ymd_text(y, m, d);
    assert(t =~= seq![
        digit_char(n / 1000),
        digit_char((n / 100) % 10),
        digit_char((n / 10) % 10),
        digit_char(n % 10),
        '-',
        digit_char(m / 10),
        digit_char(m % 10),
        '-',
        digit_char(d / 10),
        digit_char(d % 10),
    ]);
    lemma_digit_char_value(n / 1000);
    lemma_digit_char_value((n / 100) % 10);
    lemma_digit_char_value((n / 10) % 10);
    lemma_digit_char_value(n % 10);
    lemma_digit_char_value(m / 10);
    lemma_digit_char_value(m % 10);
    lemma_digit_char_value(d / 10);
    lemma_digit_char_value(d % 10);
    lemma_year_digits_sum(n);
    assert(ymd_year(t) == y);
    assert(ymd_month(t) == m);
    assert(ymd_day(t) == d);
}

/// A date and time of the years 0 to 9999 written as
/// `YYYY-MM-DD HH:MM:SS` begins with the text of a date exactly when that
/// date is its own day: the pattern of a day picks the times of that day
/// and no other.
pub proof fn lemma_timestamp_begins_with_its_day(
    y: int,
    m: nat,
    d: nat,
    h: nat,
    mi: nat,
    sec: nat,
    y2: int,
    m2: nat,
    d2: nat,
)
    requires
        0 <= y <= 9999,
        1 <= m <= 12,
        1 <= d <= 31,
        0 <= y2 <= 9999,
        1 <= m2 <= 12,
        1 <= d2 <= 31,
    ensures
        ymdhms_text(y, m, d, h, mi, sec).take(10) == ymd_text(y, m, d),
        ymdhms_text(y, m, d, h, mi, sec).take(10) == ymd_text(y2, m2, d2) <==> (y == y2 && m == m2
            && d == d2),
{
    lemma_ymd_text_reads_back(y, m, d);
    lemma_ymd_text_reads_back(y2, m2, d2);
    let t = ymdhms_text(y, m, d, h, mi, sec);
    assert(t.take(10) =~= ymd_text(y, m, d));
}

/// Whether `c` is one of the ASCII digits `0` to `9`.
pub open spec fn is_ascii_digit(c: char) -> bool {
    '0' <= c && c <= '9'
}

/// Whether `text` has the shape `YYYY-MM-DD`: four digits, a dash, two
/// digits, a dash, two digits.
pub open spec fn has_ymd_shape(text: Seq<char>) -> bool {
    &&& text.len() == 10
    &&& text[4] == '-'
    &&& text[7] == '-'
    &&& forall|k: int| 0 <= k < 10 && k != 4 && k != 7 ==> is_ascii_digit(#[trigger] text[k])
}

/// Whether `text` has the shape `YYYY-MM-DD`.
pub fn ymd_shape(text: &str) -> (b: bool)
    ensures
        b == has_ymd_shape(text@),
{
    let n = text.unicode_len();
    if n != 10 {
        return false;
    }
    let mut k: usize = 0;
    while k < 10
        invariant
            n == 10,
            text@.len() == 10,
            k <= 10,
            forall|j: int| 0 <= j < k && j != 4 && j != 7 ==> is_ascii_digit(#[trigger] text@[j]),
            k > 4 ==> text@[4] == '-',
            k > 7 ==> text@[7] == '-',
        decreases 10 - k,
    {
        let c = text.get_char(k);
        if k == 4 || k == 7 {
            if c != '-' {
                return false;
            }
        } else if !('0' <= c && c <= '9') {
            return false;
        }
        k = k + 1;
    }
    true
}

/// Appends a year as `%Y` writes it.
fn push_year(out: &mut String, y: i32)
    requires
        min_year() <= y <= max_year(),
    ensures
        final(out)@ == old(out)@ + year_text(y as int),
{
    if 0 <= y && y <= 9999 {
        push_zero_padded(out, y as u64, 4);
    } else if y < 0 {
        out.append("-");
        let m: u64 = (-(y as i64)) as u64;
        push_zero_padded(out, m, 4);
        proof {
            reveal_strlit("-");
        }
    } else {
        out.append("+");
        push_zero_padded(out, y as u64, 4);
        proof {
            reveal_strlit("+");
        }
    }
    proof {
        assert(final(out)@ =~= old(out)@ + year_text(y as int));
    }
}

/// The date written as `YYYY-MM-DD`, the way chrono's `%Y-%m-%d` writes it.
pub fn format_ymd(y: i32, m: u32, d: u32) -> (s: String)
    requires
        date_fields_ok(y as int, m as int, d as int),
    ensures
        s@ == ymd_text(y as int, m as nat, d as nat),
{
    let mut s = String::new();
    push_year(&mut s, y);
    s.append("-");
    push_zero_padded(&mut s, m as u64, 2);
    s.append("-");
    push_zero_padded(&mut s, d as u64, 2);
    proof {
        reveal_strlit("-");
        assert(s@ =~= ymd_text(y as int, m as nat, d as nat));
    }
    s
}

/// The date and time written as `YYYY-MM-DD HH:MM:SS`, the way chrono's
/// `%Y-%m-%d %H:%M:%S` writes it.
pub fn format_ymdhms(y: i32, m: u32, d: u32, h: u32, mi: u32, sec: u32) -> (s: String)
    requires
        date_fields_ok(y as int, m as int, d as int),
        time_fields_ok(h as int, mi as int, sec as int),
    ensures
        s@ == ymdhms_text(y as int, m as nat, d as nat, h as nat, mi as nat, sec as nat),
{
    let mut s = format_ymd(y, m, d);
    s.append(" ");
    push_zero_padded(&mut s, h as u64, 2);
    s.append(":");
    push_zero_padded(&mut s, mi as u64, 2);
    s.append(":");
    push_zero_padded(&mut s, sec as u64, 2);
    proof {
        reveal_strlit(" ");
        reveal_strlit(":");
        assert(s@ =~= ymdhms_text(y as int, m as nat, d as nat, h as nat, mi as nat, sec as nat));
    }
    s
}

/// Today's date in the machine's time zone, as `YYYY-MM-DD`.
pub fn today_ymd() -> (s: String)
    ensures
        exists|y: int, m: nat, d: nat|
            date_fields_ok(y, m as int, d as int) && is_calendar_date(y, m as int, d as int) && s@
                == ymd_text(y, m, d),
{
    let (y, m, d) = local_today();
    let s = format_ymd(y, m, d);
    proof {
        assert(date_fields_ok(y as int, m as nat as int, d as nat as int) && is_calendar_date(
            y as int,
            m as nat as int,
            d as nat as int,
        ) && s@ == ymd_text(y as int, m as nat, d as nat));
    }
    s
}

/// The present UTC date and time, as `YYYY-MM-DD HH:MM:SS`.
pub fn now_ymdhms() -> (s: String)
    ensures
        exists|y: int, m: nat, d: nat, h: nat, mi: nat, sec: nat|
            date_fields_ok(y, m as int, d as int) && is_calendar_date(y, m as int, d as int)
                && time_fields_ok(h as int, mi as int, sec as int) && s@ == ymdhms_text(
                y,
                m,
                d,
                h,
                mi,
                sec,
            ),
{
    let (y, m, d, h, mi, sec) = utc_now();
    let s = format_ymdhms(y, m, d, h, mi, sec);
    proof {
        assert(date_fields_ok(y as int, m as nat as int, d as nat as int) && is_calendar_date(
            y as int,
            m as nat as int,
            d as nat as int,
        ) && time_fields_ok(
            h as nat as int,
            mi as nat as int,
            sec as nat as int,
        ) && s@ == ymdhms_text(y as int, m as nat, d as nat, h as nat, mi as nat, sec as nat));
    }
    s
}

/// The date asked for, or today's date when none was given.
pub fn date_or_today(date_ymd: Option<String>) -> (s: String)
    ensures
        date_ymd matches Some(given) ==> s == given,
        date_ymd is None ==> exists|y: int, m: nat, d: nat|
            date_fields_ok(y, m as int, d as int) && is_calendar_date(y, m as int, d as int) && s@
                == ymd_text(y, m, d),
{
    match date_ymd {
        Some(given) => given,
        None => today_ymd(),
    }
}

} // verus!
