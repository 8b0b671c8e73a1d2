//! Homework deadlines: Learn sends either a millisecond timestamp or a local date text.
use vstd::prelude::*;
use crate::text::{digit_char, string_of, trim, trim_range};

verus! {

broadcast use vstd::string::group_string_axioms;

// ---------------------------------------------------------------------------
// Decimal integers (`i64::from_str`)
// ---------------------------------------------------------------------------

pub open spec fn is_digit(c: char) -> bool {
    '0' <= c && c <= '9'
}

pub open spec fn all_digits(s: Seq<char>) -> bool {
    forall|i: int| 0 <= i < s.len() ==> is_digit(#[trigger] s[i])
}

/// The value of a run of decimal digits.
pub open spec fn digits_value(s: Seq<char>) -> int
    decreases s.len(),
{
    if s.len() == 0 {
        0
    } else {
        digits_value(s.drop_last()) * 10 + (s.last() as int - '0' as int)
    }
}

/// `i64::from_str`: an optional `+` or `-`, then one or more decimal digits, the value
/// within range.
pub open spec fn parse_i64_spec(s: Seq<char>) -> Option<i64> {
    let neg = s.len() > 0 && s[0] == '-';
    let d = if s.len() > 0 && (s[0] == '-' || s[0] == '+') {
        s.drop_first()
    } else {
        s
    };
    if d.len() == 0 || !all_digits(d) {
        None
    } else {
        let v = if neg {
            -digits_value(d)
        } else {
            digits_value(d)
        };
        if i64::MIN <= v <= i64::MAX {
            Some(v as i64)
        } else {
            None
        }
    }
}

proof fn lemma_digits_value_grows(s: Seq<char>, k: int)
    requires
        all_digits(s),
        0 <= k <= s.len(),
    ensures
        0 <= digits_value(s.take(k)) <= digits_value(s),
    decreases s.len() - k,
{
    if k < s.len() {
        lemma_digits_value_grows(s, k + 1);
        assert(s.take(k + 1).drop_last() == s.take(k));
        assert(s.take(k + 1).last() == s[k]);
        assert(is_digit(s[k]));
    } else {
        assert(s.take(k) == s);
        lemma_digits_value_nonneg(s);
    }
}

proof fn lemma_digits_value_nonneg(s: Seq<char>)
    requires
        all_digits(s),
    ensures
        digits_value(s) >= 0,
    decreases s.len(),
{
    if s.len() > 0 {
        assert(is_digit(s.last()));
        lemma_digits_value_nonneg(s.drop_last());
    }
}

/// Parses a decimal `i64` as `str::parse::<i64>` does.
pub fn parse_i64(s: &[char]) -> (r: Option<i64>)
    ensures
        r == parse_i64_spec(s@),
{
    let mut start: usize = 0;
    let mut neg = false;
    if s.len() > 0 && (s[0] == '-' || s[0] == '+') {
        neg = s[0] == '-';
        start = 1;
    }
    let ghost d = if s@.len() > 0 && (s@[0] == '-' || s@[0] == '+') {
        s@.drop_first()
    } else {
        s@
    };
    assert(d == s@.skip(start as int));
    if start == s.len() {
        return None;
    }
    let mut acc: u128 = 0;
    let mut k = start;
    while k < s.len()
        invariant
            start <= k <= s.len(),
            start <= 1,
            start < s.len(),
            d == s@.skip(start as int),
            d == (if s@.len() > 0 && (s@[0] == '-' || s@[0] == '+') {
                s@.drop_first()
            } else {
                s@
            }),
            neg == (s@.len() > 0 && s@[0] == '-'),
            acc as int == digits_value(d.take(k - start)),
            acc <= 9223372036854775808,
            all_digits(d.take(k - start)),
        decreases s.len() - k,
    {
        let c = s[k];
        assert(d.take(k + 1 - start).drop_last() == d.take(k - start));
        assert(d.take(k + 1 - start).last() == c);
        if !('0' <= c && c <= '9') {
            proof {
                assert(d[k - start] == c);
            }
            return None;
        }
        let dv: u128 = ((c as u32) - ('0' as u32)) as u128;
        acc = acc * 10 + dv;
        assert(all_digits(d.take(k + 1 - start)));
        if acc > 9223372036854775808 {
            proof {
                if all_digits(d) {
                    lemma_digits_value_grows(d, k + 1 - start);
                }
            }
            return None;
        }
        k += 1;
    }
    assert(d.take(s.len() - start) == d);
    if neg {
        if acc == 9223372036854775808 {
            Some(i64::MIN)
        } else {
            Some(-(acc as i64))
        }
    } else if acc > 9223372036854775807 {
        None
    } else {
        Some(acc as i64)
    }
}

// ---------------------------------------------------------------------------
// chrono
// ---------------------------------------------------------------------------

/// What `chrono::NaiveDateTime::parse_from_str(s, fmt)` yields, as year, month, day,
/// hour, minute, second and nanosecond.
pub uninterp spec fn chrono_datetime_parse(s: Seq<char>, fmt: Seq<char>) -> Option<
    (i32, u32, u32, u32, u32, u32, u32),
>;

/// What `chrono::NaiveDate::parse_from_str(s, fmt)` yields, as year, month and day.
pub uninterp spec fn chrono_date_parse(s: Seq<char>, fmt: Seq<char>) -> Option<(i32, u32, u32)>;

/// `chrono::NaiveDateTime::parse_from_str`. chrono's format grammar is not restated
/// here; the result is named by `chrono_datetime_parse` and depends on the two texts only.
#[verifier::external_body]
fn parse_naive_datetime(s: &str, fmt: &str) -> (r: Option<(i32, u32, u32, u32, u32, u32, u32)>)
    ensures
        r == chrono_datetime_parse(s@, fmt@),
{
    chrono::NaiveDateTime::parse_from_str(s, fmt).ok().map(
        |d| {
            (
                chrono::Datelike::year(&d),
                chrono::Datelike::month(&d),
                chrono::Datelike::day(&d),
                chrono::Timelike::hour(&d),
                chrono::Timelike::minute(&d),
                chrono::Timelike::second(&d),
                chrono::Timelike::nanosecond(&d),
            )
        },
    )
}

/// `chrono::NaiveDate::parse_from_str`, named by `chrono_date_parse`.
#[verifier::external_body]
fn parse_naive_date(s: &str, fmt: &str) -> (r: Option<(i32, u32, u32)>)
    ensures
        r == chrono_date_parse(s@, fmt@),
{
    chrono::NaiveDate::parse_from_str(s, fmt).ok().map(
        |d| (chrono::Datelike::year(&d), chrono::Datelike::month(&d), chrono::Datelike::day(&d)),
    )
}

/// Milliseconds since the epoch that chrono can hold as a date and time: about 253,000
/// years either way, well inside the years chrono accepts (-262,143 to 262,142).
pub open spec fn representable_millis(ms: int) -> bool {
    -8_000_000_000_000_000 <= ms <= 8_000_000_000_000_000
}

/// `Local.timestamp_millis_opt(ms).single()`, read back with `timestamp_millis()`.
/// chrono's source builds the UTC date and time (`DateTime::from_timestamp_millis`, which
/// fails only outside chrono's years) and then always gives a single local time; the
/// read-back round-trips, as its documentation promises. So the result is the same
/// instant, and it is there whenever the instant is representable. Not stated: chrono
/// panics instead when the machine's time-zone data yields no usable offset.
#[verifier::external_body]
fn local_instant_millis(ms: i64) -> (r: Option<i64>)
    ensures
        r matches Some(x) ==> x == ms,
        representable_millis(ms as int) ==> r == Some(ms),
{
    chrono::TimeZone::timestamp_millis_opt(&chrono::Local, ms).single().map(|t| t.timestamp_millis())
}

/// Days from 1970-01-01 to a date of the proleptic Gregorian calendar.
pub open spec fn days_from_civil(y: int, m: int, d: int) -> int {
    let yy = if m <= 2 {
        y - 1
    } else {
        y
    };
    let era = yy / 400;
    let yoe = yy - era * 400;
    let mp = if m > 2 {
        m - 3
    } else {
        m + 9
    };
    let doy = (153 * mp + 2) / 5 + d - 1;
    let doe = yoe * 365 + yoe / 4 - yoe / 100 + doy;
    era * 146097 + doe - 719468
}

/// The milliseconds since the epoch of a date and time read as UTC.
pub open spec fn utc_reading_millis(y: int, mo: int, d: int, h: int, mi: int, s: int, ns: int) -> int {
    days_from_civil(y, mo, d) * 86_400_000 + h * 3_600_000 + mi * 60_000 + s * 1000 + ns / 1_000_000
}

/// The instant (milliseconds since the epoch) of a local date and time, through
/// `Local.from_local_datetime(..).single()`; nothing when the date or time is invalid or
/// the local time is skipped or repeated. Which instant depends on the machine's time
/// zone; chrono's offsets are under a day (`FixedOffset::east_opt`), so the instant lies
/// within a day of the same date and time read as UTC.
#[verifier::external_body]
fn local_datetime_millis(y: i32, mo: u32, d: u32, h: u32, mi: u32, s: u32, ns: u32) -> (r: Option<i64>)
    ensures
        r matches Some(x) ==> -86_400_000 < x - utc_reading_millis(
            y as int,
            mo as int,
            d as int,
            h as int,
            mi as int,
            s as int,
            ns as int,
        ) < 86_400_000,
{
    let n = chrono::NaiveDate::from_ymd_opt(y, mo, d)?.and_hms_nano_opt(h, mi, s, ns)?;
    chrono::TimeZone::from_local_datetime(&chrono::Local, &n).single().map(|t| t.timestamp_millis())
}

pub open spec fn is_ascii_digit(c: char) -> bool {
    '0' <= c && c <= '9'
}

/// The shape of `YYYY-MM-DD HH:MM`: sixteen characters, digits but for the two dashes,
/// the space and the colon.
pub open spec fn minute_text_shape(t: Seq<char>) -> bool {
    &&& t.len() == 16
    &&& t[4] == '-' && t[7] == '-' && t[10] == ' ' && t[13] == ':'
    &&& forall|i: int|
        0 <= i < 16 && i != 4 && i != 7 && i != 10 && i != 13 ==> is_ascii_digit(#[trigger] t[i])
}

/// Instants from 0000-01-02 to before 9999-12-31 (UTC): whatever the time zone (an offset
/// is under a day), their local year lies within 0 to 9999.
pub open spec fn four_digit_year_millis(ms: int) -> bool {
    -62_167_132_800_000 <= ms < 253_402_214_400_000
}

/// The date (year, month, day) of the proleptic Gregorian calendar that lies `z` days
/// after 1970-01-01.
pub open spec fn civil_from_days(z: int) -> (int, int, int) {
    let zz = z + 719468;
    let era = zz / 146097;
    let doe = zz - era * 146097;
    let yoe = (doe - doe / 1460 + doe / 36524 - doe / 146096) / 365;
    let doy = doe - (365 * yoe + yoe / 4 - yoe / 100);
    let mp = (5 * doy + 2) / 153;
    let d = doy - (153 * mp + 2) / 5 + 1;
    let m = if mp < 10 {
        mp + 3
    } else {
        mp - 9
    };
    let y = yoe + era * 400;
    (
        if m <= 2 {
            y + 1
        } else {
            y
        },
        m,
        d,
    )
}

/// Two decimal digits of `n` (0 to 99), zero-padded.
pub open spec fn two_digits(n: int) -> Seq<char> {
    seq![digit_char(n / 10), digit_char(n % 10)]
}

/// Four decimal digits of `n` (0 to 9999), zero-padded.
pub open spec fn four_digits(n: int) -> Seq<char> {
    seq![digit_char(n / 1000), digit_char((n / 100) % 10), digit_char((n / 10) % 10), digit_char(n % 10)]
}

/// `YYYY-MM-DD HH:MM` of the UTC calendar minute holding the instant `ms` (milliseconds
/// since the epoch).
pub open spec fn utc_minute_text(ms: int) -> Seq<char> {
    let (y, m, d) = civil_from_days(ms / 86_400_000);
    let t = ms % 86_400_000;
    four_digits(y) + seq!['-'] + two_digits(m) + seq!['-'] + two_digits(d) + seq![' ']
        + two_digits(t / 3_600_000) + seq![':'] + two_digits((t % 3_600_000) / 60_000)
}

/// `t` is how a local clock shows the instant `ms` to the minute: `YYYY-MM-DD HH:MM`,
/// the UTC minute of an instant less than a day away from `ms` (the zone's offset).
pub open spec fn local_minute_text(ms: int, t: Seq<char>) -> bool {
    &&& minute_text_shape(t)
    &&& exists|x: int| ms - 86_400_000 < x < ms + 86_400_000 && t == #[trigger] utc_minute_text(x)
}

/// A local instant formatted as `YYYY-MM-DD HH:MM` in the machine's time zone
/// (`Local.timestamp_millis_opt(ms)` then `format("%Y-%m-%d %H:%M")`); empty when chrono
/// cannot represent the instant. chrono formats the instant plus the zone's offset, which
/// `FixedOffset::east_opt` keeps under a day; which offset depends on the machine and is
/// not stated. For a year within 0 to 9999 its formatter writes four zero-padded digits,
/// and the month, day, hour and minute as two zero-padded digits each; for such instants
/// the local time exists (chrono panics instead on unusable time-zone data).
#[verifier::external_body]
pub(crate) fn format_local_minute(ms: i64) -> (r: String)
    ensures
        four_digit_year_millis(ms as int) ==> local_minute_text(ms as int, r@),
{
    match chrono::TimeZone::timestamp_millis_opt(&chrono::Local, ms).single() {
        Some(t) => t.format("%Y-%m-%d %H:%M").to_string(),
        None => String::new(),
    }
}

// ---------------------------------------------------------------------------
// Deadlines
// ---------------------------------------------------------------------------

/// How a raw deadline text is to be read.
#[derive(Debug, Clone, Copy, PartialEq, Eq, Structural)]
pub enum DeadlinePlan {
    /// No deadline can be read from the text.
    NoDeadline,
    /// A millisecond timestamp.
    Timestamp(i64),
    /// A local date and time: year, month, day, hour, minute, second, nanosecond.
    LocalTime(i32, u32, u32, u32, u32, u32, u32),
}

/// The date formats tried in order: with seconds, with minutes, date only.
pub open spec fn deadline_format(i: int) -> Seq<char> {
    if i == 0 {
        seq!['%', 'Y', '-', '%', 'm', '-', '%', 'd', ' ', '%', 'H', ':', '%', 'M', ':', '%', 'S']
    } else if i == 1 {
        seq!['%', 'Y', '-', '%', 'm', '-', '%', 'd', ' ', '%', 'H', ':', '%', 'M']
    } else {
        seq!['%', 'Y', '-', '%', 'm', '-', '%', 'd']
    }
}

fn deadline_format_exec(i: usize) -> (r: Vec<char>)
    requires
        i < 3,
    ensures
        r@ == deadline_format(i as int),
{
    if i == 0 {
        vec!['%', 'Y', '-', '%', 'm', '-', '%', 'd', ' ', '%', 'H', ':', '%', 'M', ':', '%', 'S']
    } else if i == 1 {
        vec!['%', 'Y', '-', '%', 'm', '-', '%', 'd', ' ', '%', 'H', ':', '%', 'M']
    } else {
        vec!['%', 'Y', '-', '%', 'm', '-', '%', 'd']
    }
}

/// Tries the formats from the `i`-th on: a full date and time as given, or a date alone,
/// which is due at 23:59 that day.
pub open spec fn plan_from_formats(t: Seq<char>, i: int) -> DeadlinePlan
    decreases 3 - i,
{
    if i < 0 || i >= 3 {
        DeadlinePlan::NoDeadline
    } else {
        match chrono_datetime_parse(t, deadline_format(i)) {
            Some(p) => DeadlinePlan::LocalTime(p.0, p.1, p.2, p.3, p.4, p.5, p.6),
            None => match chrono_date_parse(t, deadline_format(i)) {
                Some(d) => DeadlinePlan::LocalTime(d.0, d.1, d.2, 23, 59, 0, 0),
                None => plan_from_formats(t, i + 1),
            },
        }
    }
}

/// How a raw deadline is read: trimmed; empty means none; an integer above 10^12 is a
/// millisecond timestamp; otherwise the date formats in order.
pub open spec fn deadline_plan_spec(raw: Seq<char>) -> DeadlinePlan {
    let t = trim(raw);
    if t.len() == 0 {
        DeadlinePlan::NoDeadline
    } else if parse_i64_spec(t) is Some && parse_i64_spec(t)->0 > 1_000_000_000_000 {
        DeadlinePlan::Timestamp(parse_i64_spec(t)->0)
    } else {
        plan_from_formats(t, 0)
    }
}

/// What holds of a parsed deadline whatever the time zone: none for no deadline; for a
/// timestamp, that same instant, which is always there when chrono can represent it; for
/// a local date and time, if any instant, one within a day of that date and time read as
/// UTC.
pub open spec fn deadline_outcome(plan: DeadlinePlan, d: Option<i64>) -> bool {
    match plan {
        DeadlinePlan::NoDeadline => d is None,
        DeadlinePlan::Timestamp(ms) => if representable_millis(ms as int) {
            d == Some(ms)
        } else {
            d is None || d == Some(ms)
        },
        DeadlinePlan::LocalTime(y, mo, dd, h, mi, s, ns) => d matches Some(x) ==> -86_400_000 < x
            - utc_reading_millis(
            y as int,
            mo as int,
            dd as int,
            h as int,
            mi as int,
            s as int,
            ns as int,
        ) < 86_400_000,
    }
}

pub fn deadline_plan(raw: &str) -> (r: DeadlinePlan)
    ensures
        r == deadline_plan_spec(raw@),
{
    let v = crate::text::chars_of(raw);
    let t = trim_range(&v, 0, v.len());
    assert(v@.subrange(0, v@.len() as int) == v@);
    if t.len() == 0 {
        return DeadlinePlan::NoDeadline;
    }
    match parse_i64(&t) {
        Some(ms) => {
            if ms > 1_000_000_000_000 {
                return DeadlinePlan::Timestamp(ms);
            }
        },
        None => {},
    }
    let ts = string_of(&t);
    let mut i: usize = 0;
    while i < 3
        invariant
            i <= 3,
            ts@ == trim(raw@),
            deadline_plan_spec(raw@) == plan_from_formats(trim(raw@), 0),
            plan_from_formats(trim(raw@), 0) == plan_from_formats(trim(raw@), i as int),
        decreases 3 - i,
    {
        let f = string_of(&deadline_format_exec(i));
        match parse_naive_datetime(ts.as_str(), f.as_str()) {
            Some(p) => return DeadlinePlan::LocalTime(p.0, p.1, p.2, p.3, p.4, p.5, p.6),
            None => {},
        }
        match parse_naive_date(ts.as_str(), f.as_str()) {
            Some(d) => return DeadlinePlan::LocalTime(d.0, d.1, d.2, 23, 59, 0, 0),
            None => {},
        }
        i += 1;
    }
    DeadlinePlan::NoDeadline
}

/// The instant a plan names, in milliseconds since the epoch.
pub fn deadline_from_plan(plan: DeadlinePlan) -> (r: Option<i64>)
    ensures
        deadline_outcome(plan, r),
{
    match plan {
        DeadlinePlan::NoDeadline => None,
        DeadlinePlan::Timestamp(ms) => local_instant_millis(ms),
        DeadlinePlan::LocalTime(y, mo, d, h, mi, s, ns) => local_datetime_millis(y, mo, d, h, mi, s, ns),
    }
}

/// Parses a Learn deadline as local time from a millisecond timestamp or a common date
/// text.
pub fn parse_deadline(raw: &str) -> (r: Option<i64>)
    ensures
        deadline_outcome(deadline_plan_spec(raw@), r),
{
    deadline_from_plan(deadline_plan(raw))
}

} // verus!
