//! Timestamps of the sync files: when a file was last synced, and whether
//! that lies more than a given number of hours in the past.
use vstd::prelude::*;

verus! {

/// What `chrono::NaiveDateTime::parse_from_str(text, format)` gives, read as
/// UTC: seconds since 1970-01-01 00:00 and nanoseconds past that second;
/// `None` when the text does not parse.
pub uninterp spec fn naive_datetime_parse(text: Seq<char>, format: Seq<char>) -> Option<(i64, u32)>;

/// Calls `chrono::NaiveDateTime::parse_from_str` and reads the result as UTC
/// (`and_utc().timestamp()`, `timestamp_subsec_nanos()`). The result is named
/// `naive_datetime_parse` of the arguments; nothing more is stated.
#[verifier::external_body]
fn parse_naive_datetime(text: &str, format: &str) -> (r: Option<(i64, u32)>)
    ensures
        r == naive_datetime_parse(text@, format@),
{
    match chrono::NaiveDateTime::parse_from_str(text, format) {
        Ok(dt) => Some((dt.and_utc().timestamp(), dt.and_utc().timestamp_subsec_nanos())),
        Err(_) => None,
    }
}

/// A moment as `chrono::Utc::now()` gives it on the desktop platforms
/// Rustique runs on (it reads the system clock as a duration since the Unix
/// epoch and stops on a clock set before it): seconds since 1970-01-01 00:00
/// UTC, and nanoseconds past that second.
pub open spec fn clock_moment(t: (i64, u32)) -> bool {
    t.0 >= 0 && t.1 < 1_000_000_000
}

/// Calls `chrono::Utc::now()`: seconds since 1970-01-01 00:00 UTC and
/// nanoseconds past that second. Which moment is that of the call and is not
/// stated; stated is what holds of every moment it gives (`clock_moment`).
#[verifier::external_body]
fn now_utc() -> (r: (i64, u32))
    ensures
        clock_moment(r),
{
    let now = chrono::Utc::now();
    (now.timestamp(), now.timestamp_subsec_nanos())
}

/// A decimal digit.
pub open spec fn is_digit(c: char) -> bool {
    '0' <= c && c <= '9'
}

/// The number written by the two digits of `s` at `i` and `i + 1`.
pub open spec fn two_digit_value(s: Seq<char>, i: int) -> int {
    (s[i] as int - '0' as int) * 10 + (s[i + 1] as int - '0' as int)
}

/// A year as chrono's `%Y` writes it: at least four characters, all digits
/// except that the first may be a sign (years before 0 or after 9999).
pub open spec fn year_text(y: Seq<char>) -> bool {
    &&& y.len() >= 4
    &&& is_digit(y[0]) || y[0] == '+' || y[0] == '-'
    &&& forall|i: int| 1 <= i < y.len() ==> is_digit(#[trigger] y[i])
}

/// A time to the minute as `%Y-%m-%d %H:%M` writes it: the year, then
/// `-MM-DD HH:MM` with a month 01..12, a day 01..31, an hour 00..23 and a
/// minute 00..59, each of two digits.
pub open spec fn minute_stamp(s: Seq<char>) -> bool {
    let n = s.len() as int;
    &&& n >= 16
    &&& year_text(s.take(n - 12))
    &&& s[n - 12] == '-' && s[n - 9] == '-' && s[n - 6] == ' ' && s[n - 3] == ':'
    &&& is_digit(s[n - 11]) && is_digit(s[n - 10]) && is_digit(s[n - 8]) && is_digit(s[n - 7])
    &&& is_digit(s[n - 5]) && is_digit(s[n - 4]) && is_digit(s[n - 2]) && is_digit(s[n - 1])
    &&& 1 <= two_digit_value(s, n - 11) <= 12
    &&& 1 <= two_digit_value(s, n - 8) <= 31
    &&& two_digit_value(s, n - 5) <= 23
    &&& two_digit_value(s, n - 2) <= 59
}

/// Calls `chrono::Utc::now().format(format).to_string()`. Which time it
/// shows is that of the call and is not stated; stated is the shape that
/// chrono's formatting gives every time under the library's one format
/// (`%Y` padded to four digits, with a sign outside 0..9999; `%m`, `%d`,
/// `%H`, `%M` as two zero-padded digits). Only that format is admitted, as
/// an invalid one makes `to_string` panic.
#[verifier::external_body]
fn format_now_utc(format: &str) -> (r: String)
    requires
        format@ == "%Y-%m-%d %H:%M"@,
    ensures
        minute_stamp(r@),
{
    chrono::Utc::now().format(format).to_string()
}

/// The current UTC time as `YYYY-MM-DD HH:MM`.
pub fn get_current_time() -> (r: String)
    ensures
        minute_stamp(r@),
{
    format_now_utc("%Y-%m-%d %H:%M")
}

/// The largest number of hours that `chrono::Duration::hours` accepts.
pub open spec fn max_hours() -> int {
    2562047788015
}

/// More than `num_hours` hours lie between `then` and `now`, each given as
/// seconds and nanoseconds since 1970-01-01 00:00 UTC.
pub open spec fn elapsed_exceeds(num_hours: int, then: (i64, u32), now: (i64, u32)) -> bool {
    (now.0 - then.0) * 1_000_000_000 + (now.1 - then.1) > num_hours * 3600 * 1_000_000_000
}

/// The time a sync timestamp stands for; a text that does not parse stands
/// for 1970-01-01 00:00.
pub open spec fn sync_time_of(timestamp: Seq<char>) -> (i64, u32) {
    match naive_datetime_parse(timestamp, "%Y-%m-%d %H:%M"@) {
        Some(t) => t,
        None => (0, 0),
    }
}

/// Compares the time elapsed between two instants with a number of hours.
pub fn elapsed_more_than(num_hours: i64, then: (i64, u32), now: (i64, u32)) -> (r: bool)
    requires
        -max_hours() <= num_hours <= max_hours(),
    ensures
        r == elapsed_exceeds(num_hours as int, then, now),
{
    let secs: i128 = (now.0 as i128) - (then.0 as i128);
    let nanos: i128 = (now.1 as i128) - (then.1 as i128);
    assert(-0x1_0000_0000_0000_0000i128 < secs < 0x1_0000_0000_0000_0000i128);
    let elapsed: i128 = secs * 1_000_000_000 + nanos;
    let limit: i128 = (num_hours as i128) * 3_600_000_000_000;
    elapsed > limit
}

/// The timestamp (`YYYY-MM-DD HH:MM`, UTC) lies more than `num_hours` hours
/// before `now`.
pub fn timestamp_older_than_at(num_hours: i64, timestamp: &str, now: (i64, u32)) -> (r: bool)
    requires
        -max_hours() <= num_hours <= max_hours(),
    ensures
        r == elapsed_exceeds(num_hours as int, sync_time_of(timestamp@), now),
{
    let then = match parse_naive_datetime(timestamp, "%Y-%m-%d %H:%M") {
        Some(t) => t,
        None => (0, 0),
    };
    elapsed_more_than(num_hours, then, now)
}

/// The timestamp (`YYYY-MM-DD HH:MM`, UTC) lies more than `num_hours` hours
/// before the current moment of the clock (see `timestamp_older_than_at`).
pub fn timestamp_older_than(num_hours: i64, timestamp: &str) -> (r: bool)
    requires
        -max_hours() <= num_hours <= max_hours(),
    ensures
        exists|now: (i64, u32)|
            clock_moment(now) && r == elapsed_exceeds(num_hours as int, sync_time_of(timestamp@), now),
{
    let now = now_utc();
    timestamp_older_than_at(num_hours, timestamp, now)
}

} // verus!
