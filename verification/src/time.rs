//! Instants and durations: a plain-value instant ordered as chrono orders
//! `DateTime<Utc>`, the retention durations that `7d`, `24h` or `30m` denote,
//! and recovery targets read from text. Calendar work is chrono's.

use vstd::prelude::*;
use std::fmt::Write;
use crate::text::owned;

verus! {

/// An instant in UTC: whole seconds since the Unix epoch and nanoseconds
/// into that second (values of 1e9 and above mark a leap second, as chrono
/// allows).
#[derive(Clone, Copy, Debug, PartialEq, Eq, Structural)]
pub struct Timestamp {
    pub secs: i64,
    pub nanos: u32,
}

/// Strict order of instants, the order of `DateTime<Utc>`.
pub open spec fn ts_lt(a: Timestamp, b: Timestamp) -> bool {
    a.secs < b.secs || (a.secs == b.secs && a.nanos < b.nanos)
}

impl Timestamp {
    /// Whether `self` comes strictly before `other`.
    pub fn is_before(&self, other: &Timestamp) -> (r: bool)
        ensures
            r == ts_lt(*self, *other),
    {
        self.secs < other.secs || (self.secs == other.secs && self.nanos < other.nanos)
    }
}

/// The largest whole number of seconds a chrono `TimeDelta` holds
/// (`i64::MAX` milliseconds, rounded down to whole seconds).
pub open spec fn max_delta_seconds() -> int {
    9_223_372_036_854_775
}

/// Seconds in `n` days, computed by chrono (`TimeDelta::days(n)`).
///
/// chrono documents `days(n)` as `seconds(n * 86400)` and panics when that
/// leaves the `TimeDelta` range, which `requires` rules out.
#[verifier::external_body]
fn delta_days_seconds(n: i64) -> (secs: i64)
    requires
        -max_delta_seconds() <= n * 86400 <= max_delta_seconds(),
    ensures
        secs == n * 86400,
{
    chrono::TimeDelta::days(n).num_seconds()
}

/// Seconds in `n` hours, computed by chrono (`TimeDelta::hours(n)`).
///
/// chrono documents `hours(n)` as `seconds(n * 3600)` and panics when that
/// leaves the `TimeDelta` range, which `requires` rules out.
#[verifier::external_body]
fn delta_hours_seconds(n: i64) -> (secs: i64)
    requires
        -max_delta_seconds() <= n * 3600 <= max_delta_seconds(),
    ensures
        secs == n * 3600,
{
    chrono::TimeDelta::hours(n).num_seconds()
}

/// Seconds in `n` minutes, computed by chrono (`TimeDelta::minutes(n)`).
///
/// chrono documents `minutes(n)` as `seconds(n * 60)` and panics when that
/// leaves the `TimeDelta` range, which `requires` rules out.
#[verifier::external_body]
fn delta_minutes_seconds(n: i64) -> (secs: i64)
    requires
        -max_delta_seconds() <= n * 60 <= max_delta_seconds(),
    ensures
        secs == n * 60,
{
    chrono::TimeDelta::minutes(n).num_seconds()
}

/// The instant chrono reads from `text` as RFC 3339
/// (`DateTime::parse_from_rfc3339`), as seconds and nanoseconds in UTC.
pub uninterp spec fn rfc3339_instant(text: Seq<char>) -> Option<(i64, u32)>;

/// The instant chrono reads from `text` with the `strftime`-style `format`
/// when the format includes an offset (`DateTime::parse_from_str`).
pub uninterp spec fn offset_format_instant(text: Seq<char>, format: Seq<char>) -> Option<(i64, u32)>;

/// The instant chrono reads from `text` with an offset-free `format`
/// (`NaiveDateTime::parse_from_str`), taken as UTC.
pub uninterp spec fn naive_format_instant(text: Seq<char>, format: Seq<char>) -> Option<(i64, u32)>;

/// The text chrono prints for an instant in UTC with the `strftime`-style
/// `format`, or `None` where chrono cannot represent the instant or the
/// format holds an item chrono cannot print (`DateTime::from_timestamp`
/// then `format`).
pub uninterp spec fn format_text(secs: i64, nanos: u32, format: Seq<char>) -> Option<Seq<char>>;

/// The RFC 3339 text chrono prints for an instant in UTC, or `None` where
/// chrono cannot represent it (`DateTime::from_timestamp` then `to_rfc3339`).
pub uninterp spec fn rfc3339_text(secs: i64, nanos: u32) -> Option<Seq<char>>;

/// Reads `text` as RFC 3339 with chrono (`DateTime::parse_from_rfc3339`).
///
/// Claims only that the result is a function of `text`.
#[verifier::external_body]
fn read_rfc3339(text: &str) -> (r: Option<(i64, u32)>)
    ensures
        r == rfc3339_instant(text@),
{
    chrono::DateTime::parse_from_rfc3339(text).ok().map(|t| (t.timestamp(), t.timestamp_subsec_nanos()))
}

/// Reads `text` with a format that includes an offset, with chrono
/// (`DateTime::parse_from_str`).
///
/// Claims only that the result is a function of `text` and `format`.
#[verifier::external_body]
fn read_with_offset_format(text: &str, format: &str) -> (r: Option<(i64, u32)>)
    ensures
        r == offset_format_instant(text@, format@),
{
    chrono::DateTime::parse_from_str(text, format).ok().map(|t| (t.timestamp(), t.timestamp_subsec_nanos()))
}

/// Reads `text` with an offset-free format, with chrono
/// (`NaiveDateTime::parse_from_str`), and takes it as UTC (`and_utc`).
///
/// Claims only that the result is a function of `text` and `format`.
#[verifier::external_body]
fn read_with_naive_format(text: &str, format: &str) -> (r: Option<(i64, u32)>)
    ensures
        r == naive_format_instant(text@, format@),
{
    chrono::NaiveDateTime::parse_from_str(text, format).ok().map(|t| {
        let u = t.and_utc();
        (u.timestamp(), u.timestamp_subsec_nanos())
    })
}

/// Prints an instant in UTC with the `strftime`-style `format`, with chrono
/// (`DateTime::from_timestamp`, then `format`, written into a `String`;
/// chrono's formatting error on a format item it cannot print becomes
/// `None`).
///
/// Claims only that the result is a function of the instant and `format`.
#[verifier::external_body]
fn print_utc_with_format(secs: i64, nanos: u32, format: &str) -> (r: Option<String>)
    ensures
        r is Some <==> format_text(secs, nanos, format@) is Some,
        r matches Some(t) ==> t@ == format_text(secs, nanos, format@)->0,
{
    chrono::DateTime::from_timestamp(secs, nanos).and_then(|t| {
        let mut out = String::new();
        match write!(out, "{}", t.format(format)) {
            Ok(()) => Some(out),
            Err(_) => None,
        }
    })
}

/// Prints an instant as RFC 3339 with chrono (`DateTime::from_timestamp`,
/// then `to_rfc3339`).
///
/// Claims only that the result is a function of the instant.
#[verifier::external_body]
fn print_rfc3339(secs: i64, nanos: u32) -> (r: Option<String>)
    ensures
        r is Some <==> rfc3339_text(secs, nanos) is Some,
        r matches Some(t) ==> t@ == rfc3339_text(secs, nanos)->0,
{
    chrono::DateTime::from_timestamp(secs, nanos).map(|t| t.to_rfc3339())
}

/// The text of an instant in the `strftime`-style `format`, if chrono can
/// represent the instant and print the format.
pub fn format_utc(t: Timestamp, format: &str) -> (r: Option<String>)
    ensures
        r is Some <==> format_text(t.secs, t.nanos, format@) is Some,
        r matches Some(s) ==> s@ == format_text(t.secs, t.nanos, format@)->0,
{
    print_utc_with_format(t.secs, t.nanos, format)
}

/// The RFC 3339 text of an instant, if chrono can represent it.
pub fn to_rfc3339(t: Timestamp) -> (r: Option<String>)
    ensures
        r is Some <==> rfc3339_text(t.secs, t.nanos) is Some,
        r matches Some(s) ==> s@ == rfc3339_text(t.secs, t.nanos)->0,
{
    print_rfc3339(t.secs, t.nanos)
}

/// Whether `c` has the Unicode `White_Space` property, as
/// `char::is_whitespace` decides.
pub open spec fn is_unicode_whitespace(c: char) -> bool {
    ||| ('\u{9}' <= c && c <= '\u{d}')
    ||| c == ' '
    ||| c == '\u{85}'
    ||| c == '\u{a0}'
    ||| c == '\u{1680}'
    ||| ('\u{2000}' <= c && c <= '\u{200a}')
    ||| c == '\u{2028}'
    ||| c == '\u{2029}'
    ||| c == '\u{202f}'
    ||| c == '\u{205f}'
    ||| c == '\u{3000}'
}

fn is_whitespace_char(c: char) -> (r: bool)
    ensures
        r == is_unicode_whitespace(c),
{
    ('\u{9}' <= c && c <= '\u{d}') || c == ' ' || c == '\u{85}' || c == '\u{a0}' || c == '\u{1680}'
        || ('\u{2000}' <= c && c <= '\u{200a}') || c == '\u{2028}' || c == '\u{2029}'
        || c == '\u{202f}' || c == '\u{205f}' || c == '\u{3000}'
}

/// `s` without leading and trailing white space, as `str::trim` returns it:
/// the part from the first to the last non-white-space character.
pub open spec fn trim_ws(s: Seq<char>) -> Seq<char> {
    if forall|i: int| 0 <= i < s.len() ==> is_unicode_whitespace(#[trigger] s[i]) {
        seq![]
    } else {
        let first = choose|i: int|
            0 <= i < s.len() && !is_unicode_whitespace(s[i]) && forall|j: int|
                0 <= j < i ==> is_unicode_whitespace(#[trigger] s[j]);
        let last = choose|i: int|
            0 <= i < s.len() && !is_unicode_whitespace(s[i]) && forall|j: int|
                i < j < s.len() ==> is_unicode_whitespace(#[trigger] s[j]);
        s.subrange(first, last + 1)
    }
}

/// Removes leading and trailing white space.
pub fn trim(s: &str) -> (r: String)
    ensures
        r@ == trim_ws(s@),
{
    let n: usize = s.unicode_len();
    let mut a: usize = 0;
    while a < n && is_whitespace_char(s.get_char(a))
        invariant
            n == s@.len(),
            a <= n,
            forall|j: int| 0 <= j < a ==> is_unicode_whitespace(#[trigger] s@[j]),
        decreases n - a,
    {
        a = a + 1;
    }
    if a == n {
        assert(forall|i: int| 0 <= i < s@.len() ==> is_unicode_whitespace(#[trigger] s@[i]));
        return String::new();
    }
    let mut b: usize = n;
    while b > a + 1 && is_whitespace_char(s.get_char(b - 1))
        invariant
            n == s@.len(),
            a < b <= n,
            !is_unicode_whitespace(s@[a as int]),
            forall|j: int| b <= j < n ==> is_unicode_whitespace(#[trigger] s@[j]),
        decreases b - a,
    {
        b = b - 1;
    }
    proof {
        assert(!is_unicode_whitespace(s@[b - 1])) by {
            if b - 1 > a {
                assert(!is_unicode_whitespace(s@[b - 1]));
            }
        }
        let first = choose|i: int|
            0 <= i < s@.len() && !is_unicode_whitespace(s@[i]) && forall|j: int|
                0 <= j < i ==> is_unicode_whitespace(#[trigger] s@[j]);
        assert(0 <= a < s@.len() && !is_unicode_whitespace(s@[a as int]) && forall|j: int|
            0 <= j < a ==> is_unicode_whitespace(#[trigger] s@[j]));
        assert(first == a) by {
            if first < a {
                assert(is_unicode_whitespace(s@[first]));
            }
            if first > a {
                assert(is_unicode_whitespace(s@[a as int]));
            }
        }
        let last = choose|i: int|
            0 <= i < s@.len() && !is_unicode_whitespace(s@[i]) && forall|j: int|
                i < j < s@.len() ==> is_unicode_whitespace(#[trigger] s@[j]);
        assert(0 <= b - 1 < s@.len() && !is_unicode_whitespace(s@[b - 1]) && forall|j: int|
            b - 1 < j < s@.len() ==> is_unicode_whitespace(#[trigger] s@[j]));
        assert(last == b - 1) by {
            if last < b - 1 {
                assert(is_unicode_whitespace(s@[b - 1]));
            }
            if last > b - 1 {
                assert(is_unicode_whitespace(s@[last]));
            }
        }
    }
    owned(s.substring_char(a, b))
}

/// Value of a run of decimal digits.
pub open spec fn dec_seq_value(s: Seq<char>) -> nat
    decreases s.len(),
{
    if s.len() == 0 {
        0
    } else {
        (dec_seq_value(s.drop_last()) * 10 + (s.last() as int - '0' as int)) as nat
    }
}

/// Whether every character of `s` is an ASCII decimal digit.
pub open spec fn all_decimal(s: Seq<char>) -> bool {
    forall|i: int| 0 <= i < s.len() ==> '0' <= #[trigger] s[i] && s[i] <= '9'
}

/// What `str::parse::<i64>` returns: an optional sign, then one or more
/// decimal digits, the value within the range of `i64`.
pub open spec fn parse_i64_text(s: Seq<char>) -> Option<i64> {
    let negative = s.len() > 0 && s[0] == '-';
    let body = if s.len() > 0 && (s[0] == '+' || s[0] == '-') { s.drop_first() } else { s };
    if body.len() == 0 || !all_decimal(body) {
        None
    } else {
        let v: int = if negative { -(dec_seq_value(body) as int) } else { dec_seq_value(body) as int };
        if i64::MIN <= v <= i64::MAX {
            Some(v as i64)
        } else {
            None
        }
    }
}

proof fn lemma_dec_value_grows(s: Seq<char>, i: int)
    requires
        0 <= i <= s.len(),
        all_decimal(s),
    ensures
        dec_seq_value(s.take(i)) <= dec_seq_value(s),
    decreases s.len() - i,
{
    if i < s.len() {
        lemma_dec_value_grows(s, i + 1);
        assert(s.take(i + 1).drop_last() =~= s.take(i));
        let v = dec_seq_value(s.take(i));
        let d = s[i] as int - '0' as int;
        assert(s.take(i + 1).last() == s[i]);
        assert(0 <= d < 10);
        assert(v * 10 + d >= v) by (nonlinear_arith)
            requires
                v >= 0,
                d >= 0,
        ;
    } else {
        assert(s.take(i) =~= s);
    }
}

/// Parses `s` as `str::parse::<i64>` does.
pub fn parse_i64(s: &str) -> (r: Option<i64>)
    ensures
        r == parse_i64_text(s@),
{
    let n: usize = s.unicode_len();
    let negative: bool = n > 0 && s.get_char(0) == '-';
    let mut start: usize = 0;
    if n > 0 && (s.get_char(0) == '+' || s.get_char(0) == '-') {
        start = 1;
    }
    let ghost body = s@.skip(start as int);
    assert(body =~= (if s@.len() > 0 && (s@[0] == '+' || s@[0] == '-') { s@.drop_first() } else { s@ }));
    if start == n {
        return None;
    }
    let limit: u64 = if negative { 0x8000_0000_0000_0000u64 } else { 0x7fff_ffff_ffff_ffffu64 };
    let mut mag: u64 = 0;
    let mut i: usize = start;
    assert(body.take(0) =~= seq![]);
    while i < n
        invariant
            n == s@.len(),
            start <= i <= n,
            start < n,
            body == s@.skip(start as int),
            body == (if s@.len() > 0 && (s@[0] == '+' || s@[0] == '-') { s@.drop_first() } else { s@ }),
            negative == (s@.len() > 0 && s@[0] == '-'),
            limit == (if negative { 0x8000_0000_0000_0000u64 } else { 0x7fff_ffff_ffff_ffffu64 }),
            mag == dec_seq_value(body.take(i - start)),
            mag <= limit,
            all_decimal(body.take(i - start)),
        decreases n - i,
    {
        let c = s.get_char(i);
        let ghost k: int = i - start;
        assert(body[k] == c);
        assert(body.take(k + 1).drop_last() =~= body.take(k));
        assert(body.take(k + 1).last() == c);
        if !('0' <= c && c <= '9') {
            assert(!all_decimal(body));
            return None;
        }
        let d: u64 = (c as u64) - ('0' as u64);
        if mag > (limit - d) / 10 {
            proof {
                assert(mag * 10 + d > limit) by (nonlinear_arith)
                    requires
                        mag > (limit - d) / 10,
                        d < 10,
                        d <= limit,
                ;
                assert(dec_seq_value(body.take(k + 1)) == mag * 10 + d);
                if all_decimal(body) {
                    lemma_dec_value_grows(body, k + 1);
                }
            }
            return None;
        }
        assert(mag * 10 + d <= limit) by (nonlinear_arith)
            requires
                mag <= (limit - d) / 10,
                d < 10,
                d <= limit,
        ;
        mag = mag * 10 + d;
        assert(all_decimal(body.take(k + 1))) by {
            assert forall|j: int| 0 <= j < k + 1 implies '0' <= #[trigger] body.take(k + 1)[j] && body.take(k + 1)[j] <= '9' by {
                if j < k {
                    assert(body.take(k + 1)[j] == body.take(k)[j]);
                }
            }
        }
        i = i + 1;
    }
    assert(body.take(n - start) =~= body);
    if negative {
        if mag == 0x8000_0000_0000_0000u64 {
            Some(i64::MIN)
        } else {
            Some(-(mag as i64))
        }
    } else {
        Some(mag as i64)
    }
}

/// A retention period, in whole seconds, as chrono's `TimeDelta` holds it.
#[derive(Clone, Copy, Debug, PartialEq, Eq, Structural)]
pub struct RetentionSpan {
    pub seconds: i64,
}

/// Why a retention text was refused: anything other than an integer followed
/// by `d`, `h` or `m` ("expected e.g. 7d, 24h, 30m").
#[derive(Clone, Copy, Debug, PartialEq, Eq, Structural)]
pub enum DurationError {
    Invalid,
}

/// Seconds per unit for the unit letters of a retention text.
pub open spec fn unit_seconds(unit: char) -> int {
    if unit == 'd' {
        86400
    } else if unit == 'h' {
        3600
    } else if unit == 'm' {
        60
    } else {
        0
    }
}

/// The number and unit letter of a trimmed retention text: everything but
/// the last character, and the last character.
pub open spec fn duration_number(t: Seq<char>) -> Option<i64> {
    if t.len() == 0 {
        parse_i64_text(t)
    } else {
        parse_i64_text(t.drop_last())
    }
}

/// The retention that a text such as `7d`, `24h` or `30m` denotes (white
/// space around it ignored): an `i64` followed by `d`, `h` or `m` whose span
/// a chrono `TimeDelta` can hold; anything else is refused.
pub open spec fn duration_text_value(s: Seq<char>) -> Result<RetentionSpan, DurationError> {
    let t = trim_ws(s);
    match duration_number(t) {
        None => Err(DurationError::Invalid),
        Some(n) => if t.len() > 0 && unit_seconds(t.last()) != 0 && -max_delta_seconds() <= n
            * unit_seconds(t.last()) <= max_delta_seconds() {
            Ok(RetentionSpan { seconds: (n * unit_seconds(t.last())) as i64 })
        } else {
            Err(DurationError::Invalid)
        },
    }
}

/// Parses a retention like `7d`, `24h` or `30m`.
pub fn parse_duration(s: &str) -> (r: Result<RetentionSpan, DurationError>)
    ensures
        r == duration_text_value(s@),
{
    let t = trim(s);
    let n: usize = t.as_str().unicode_len();
    if n == 0 {
        return Err(DurationError::Invalid);
    }
    let num = t.as_str().substring_char(0, n - 1);
    assert(num@ =~= t@.drop_last());
    let v = match parse_i64(num) {
        None => return Err(DurationError::Invalid),
        Some(v) => v,
    };
    let unit = t.as_str().get_char(n - 1);
    let per: i128 = if unit == 'd' {
        86400
    } else if unit == 'h' {
        3600
    } else if unit == 'm' {
        60
    } else {
        return Err(DurationError::Invalid);
    };
    let total: i128 = (v as i128) * per;
    if total < -9_223_372_036_854_775i128 || total > 9_223_372_036_854_775i128 {
        return Err(DurationError::Invalid);
    }
    if unit == 'd' {
        Ok(RetentionSpan { seconds: delta_days_seconds(v) })
    } else if unit == 'h' {
        Ok(RetentionSpan { seconds: delta_hours_seconds(v) })
    } else {
        Ok(RetentionSpan { seconds: delta_minutes_seconds(v) })
    }
}

/// The instant a recovery target denotes: the first of RFC 3339, the two
/// offset formats and the two offset-free formats (taken as UTC) that reads
/// the trimmed text.
pub open spec fn target_time_value(s: Seq<char>) -> Option<Timestamp> {
    let t = trim_ws(s);
    let found = if rfc3339_instant(t) is Some {
        rfc3339_instant(t)
    } else if offset_format_instant(t, "%Y-%m-%d %H:%M:%S%.f%#z"@) is Some {
        offset_format_instant(t, "%Y-%m-%d %H:%M:%S%.f%#z"@)
    } else if offset_format_instant(t, "%Y-%m-%dT%H:%M:%S%.f%#z"@) is Some {
        offset_format_instant(t, "%Y-%m-%dT%H:%M:%S%.f%#z"@)
    } else if naive_format_instant(t, "%Y-%m-%d %H:%M:%S%.f"@) is Some {
        naive_format_instant(t, "%Y-%m-%d %H:%M:%S%.f"@)
    } else {
        naive_format_instant(t, "%Y-%m-%dT%H:%M:%S%.f"@)
    };
    match found {
        Some((secs, nanos)) => Some(Timestamp { secs, nanos }),
        None => None,
    }
}

/// Reads a recovery target as postgres prints it (`now()` output) or as
/// RFC 3339; values without an offset are taken as UTC.
pub fn parse_target_time(s: &str) -> (r: Option<Timestamp>)
    ensures
        r == target_time_value(s@),
{
    let t = trim(s);
    let ts = t.as_str();
    let mut found = read_rfc3339(ts);
    if found.is_none() {
        found = read_with_offset_format(ts, "%Y-%m-%d %H:%M:%S%.f%#z");
    }
    if found.is_none() {
        found = read_with_offset_format(ts, "%Y-%m-%dT%H:%M:%S%.f%#z");
    }
    if found.is_none() {
        found = read_with_naive_format(ts, "%Y-%m-%d %H:%M:%S%.f");
    }
    if found.is_none() {
        found = read_with_naive_format(ts, "%Y-%m-%dT%H:%M:%S%.f");
    }
    match found {
        Some((secs, nanos)) => Some(Timestamp { secs, nanos }),
        None => None,
    }
}

} // verus!
