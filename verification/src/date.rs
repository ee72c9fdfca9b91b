//! Dates for scheduling: reading what a user writes for a date, and showing how far off
//! a scheduled time is. Instants are nanoseconds since the Unix epoch, in UTC.

use vstd::prelude::*;
use vstd::arithmetic::div_mod::lemma_fundamental_div_mod_converse_div;
use crate::error::BrdError;
use crate::frontmatter::parse_error;
use crate::text::{chars_of, trim_bounds, substring, to_lowercase, lowercase, trim, str_eq, push_char, push_str, push_u64, parse_i64, parse_i64_at, dec};
use crate::clock::now_utc_nanos;

verus! {

/// Nanoseconds in a day.
pub const DAY_NANOS: i128 = 86_400_000_000_000;

/// A bound on the instants that a date can stand for (about 31,700 years either side of
/// 1970), wider than the years -9999 to 9999 that the time library represents.
pub const MAX_INSTANT: i128 = 1_000_000_000_000_000_000_000;

pub open spec fn valid_instant(x: int) -> bool {
    -MAX_INSTANT <= x <= MAX_INSTANT
}

/// Midnight (UTC) that starts the day of instant `x`.
pub open spec fn day_start(x: int) -> int {
    (x / (DAY_NANOS as int)) * (DAY_NANOS as int)
}

/// Why the time library refused a date text: its format description was refused (a
/// constant, so this does not happen), or the text is no such date; with the library's
/// message.
pub enum DateFailure {
    Format(String),
    Date(String),
}

/// The midnight UTC of the date written `[year]-[month]-[day]`, or the library's reason
/// it is none (`true` when the format description itself was refused), as the time
/// library reads it.
pub uninterp spec fn iso_midnight_nanos(text: Seq<char>) -> Result<i128, (bool, Seq<char>)>;

/// Reads `text` with the time library as a date in the format `[year]-[month]-[day]` and
/// gives its midnight UTC in nanoseconds (`time::format_description::parse`,
/// `time::Date::parse`, then `with_time(MIDNIGHT)`, `assume_utc` and
/// `unix_timestamp_nanos`); an error carries the library's message unchanged.
/// Stated: the result is `iso_midnight_nanos` of the text.
#[verifier::external_body]
fn iso_midnight(text: &str) -> (r: Result<i128, DateFailure>)
    ensures
        match r {
            Ok(n) => iso_midnight_nanos(text@) == Ok::<i128, (bool, Seq<char>)>(n),
            Err(DateFailure::Format(e)) => iso_midnight_nanos(text@) == Err::<i128, (bool, Seq<char>)>((true, e@)),
            Err(DateFailure::Date(e)) => iso_midnight_nanos(text@) == Err::<i128, (bool, Seq<char>)>((false, e@)),
        },
{
    let format = match time::format_description::parse("[year]-[month]-[day]") {
        Ok(f) => f,
        Err(e) => return Err(DateFailure::Format(e.to_string())),
    };
    match time::Date::parse(text, &format) {
        Ok(d) => Ok(d.with_time(time::Time::MIDNIGHT).assume_utc().unix_timestamp_nanos()),
        Err(e) => Err(DateFailure::Date(e.to_string())),
    }
}

/// A relative date after its `+`: the count text, the number of days per unit, and the
/// unit's name; `None` when the text ends in no unit.
pub open spec fn relative_unit(rest: Seq<char>) -> Option<(Seq<char>, int, Seq<char>)> {
    if rest.len() > 0 && rest.last() == 'd' {
        Some((rest.drop_last(), 1, "days"@))
    } else if rest.len() > 0 && rest.last() == 'w' {
        Some((rest.drop_last(), 7, "weeks"@))
    } else if rest.len() >= 2 && rest[rest.len() - 2] == 'm' && rest.last() == 'o' {
        Some((rest.take(rest.len() - 2), 30, "months"@))
    } else {
        None
    }
}

/// The text a date is read from: trimmed, then lowercased.
pub open spec fn date_text(input: Seq<char>) -> Seq<char> {
    lowercase(trim(input))
}

/// Whether the text has the shape of an ISO date: 10 bytes (as `str::len` counts them)
/// with `-` as its fifth and eighth characters.
pub open spec fn iso_shape(t: Seq<char>) -> bool {
    &&& vstd::utf8::encode_utf8(t).len() as usize == 10
    &&& t.len() > 7
    &&& t[4] == '-'
    &&& t[7] == '-'
}

/// Whether the input, if it is a relative date with a valid count, asks for a span whose
/// seconds fit in an `i64` (a longer span overflows the time library's `Duration`).
pub open spec fn relative_fits(input: Seq<char>) -> bool {
    let t = date_text(input);
    t.len() > 0 && t[0] == '+' && t != "tomorrow"@ ==> match relative_unit(t.drop_first()) {
        Some((n, f, _)) => match parse_i64(n) {
            Some(k) => i64::MIN <= k * f * 86400 <= i64::MAX,
            None => true,
        },
        None => true,
    }
}

/// The instant a date input stands for at time `now`, or the error (`date` and its
/// message): `tomorrow` is the next midnight UTC; `+Nd`, `+Nw` and `+Nmo` are N days,
/// weeks or 30-day months from now; `YYYY-MM-DD` is that date's midnight UTC.
pub open spec fn spec_scheduled_date(input: Seq<char>, now: int) -> Result<int, (Seq<char>, Seq<char>)> {
    let t = date_text(input);
    if t == "tomorrow"@ {
        Ok(day_start(now + DAY_NANOS))
    } else if t.len() > 0 && t[0] == '+' {
        let rest = t.drop_first();
        match relative_unit(rest) {
            Some((n, f, unit)) => match parse_i64(n) {
                Some(k) => Ok(now + k * f * DAY_NANOS),
                None => Err(("date"@, "invalid "@ + unit + ": "@ + rest)),
            },
            None => Err(
                (
                    "date"@,
                    "invalid relative format '"@ + t
                        + "'. use +Nd, +Nw, or +Nmo (e.g., +7d, +2w, +1mo)"@,
                ),
            ),
        }
    } else if iso_shape(t) {
        match iso_midnight_nanos(t) {
            Ok(n) => Ok(n as int),
            Err((true, e)) => Err(("date"@, "format error: "@ + e)),
            Err((false, e)) => Err(("date"@, "invalid date '"@ + t + "': "@ + e)),
        }
    } else {
        Err(("date"@, "invalid date format '"@ + t + "'. use YYYY-MM-DD, +Nd, +Nw, +Nmo, or 'tomorrow'"@))
    }
}

pub open spec fn date_view(r: Result<i128, BrdError>) -> Option<Result<int, (Seq<char>, Seq<char>)>> {
    match r {
        Ok(n) => Some(Ok(n as int)),
        Err(BrdError::ParseError(w, m)) => Some(Err((w@, m@))),
        Err(_) => None,
    }
}

proof fn lemma_day_start(x: int, k: int)
    requires
        k >= 0,
        x + k * (DAY_NANOS as int) >= 0,
    ensures
        ((x + k * (DAY_NANOS as int)) / (DAY_NANOS as int) - k) * (DAY_NANOS as int) == day_start(x),
{
    let d = DAY_NANOS as int;
    let y = x + k * d;
    let q = y / d;
    let r = y % d;
    vstd::arithmetic::div_mod::lemma_fundamental_div_mod(y, d);
    assert(x == (q - k) * d + r) by (nonlinear_arith)
        requires
            y == x + k * d,
            y == d * q + r,
    ;
    lemma_fundamental_div_mod_converse_div(x, d, q - k, r);
}

/// The midnight UTC that starts the day after `now`.
fn next_midnight(now: i128) -> (r: i128)
    requires
        valid_instant(now as int),
    ensures
        r as int == day_start(now + DAY_NANOS),
{
    let k: i128 = 20_000_000;
    let shifted = now + DAY_NANOS + k * DAY_NANOS;
    let q = shifted / DAY_NANOS;
    proof {
        lemma_day_start(now + DAY_NANOS, k as int);
    }
    (q - k) * DAY_NANOS
}

fn push_rest(m: &mut String, t: &Vec<char>, lo: usize)
    requires
        lo <= t.len(),
    ensures
        final(m)@ == old(m)@ + t@.skip(lo as int),
{
    let mut i = lo;
    while i < t.len()
        invariant
            lo <= i <= t.len(),
            m@ == old(m)@ + t@.subrange(lo as int, i as int),
        decreases t.len() - i,
    {
        push_char(m, t[i]);
        assert(t@.subrange(lo as int, i + 1) =~= t@.subrange(lo as int, i as int).push(t@[i as int]));
        i += 1;
    }
    assert(t@.subrange(lo as int, t.len() as int) =~= t@.skip(lo as int));
}

fn relative_error(t: &Vec<char>) -> (r: BrdError)
    requires
        t.len() > 0,
    ensures
        r matches BrdError::ParseError(w, m) && w@ == "date"@ && m@ == "invalid relative format '"@ + t@
            + "'. use +Nd, +Nw, or +Nmo (e.g., +7d, +2w, +1mo)"@,
{
    let mut m = String::new();
    push_str(&mut m, "invalid relative format '");
    push_rest(&mut m, t, 0);
    push_str(&mut m, "'. use +Nd, +Nw, or +Nmo (e.g., +7d, +2w, +1mo)");
    proof {
        assert(t@.skip(0) =~= t@);
    }
    parse_error("date", m.as_str())
}

fn count_error(unit: &str, t: &Vec<char>) -> (r: BrdError)
    requires
        t.len() > 0,
    ensures
        r matches BrdError::ParseError(w, m) && w@ == "date"@ && m@ == "invalid "@ + unit@ + ": "@
            + t@.drop_first(),
{
    let mut m = String::new();
    push_str(&mut m, "invalid ");
    push_str(&mut m, unit);
    push_str(&mut m, ": ");
    push_rest(&mut m, t, 1);
    proof {
        assert(t@.skip(1) =~= t@.drop_first());
    }
    parse_error("date", m.as_str())
}

/// The instant a relative date (`+` then a count and `d`, `w` or `mo`) stands for.
fn relative_date(t: &Vec<char>, now: i128) -> (r: Result<i128, BrdError>)
    requires
        t.len() > 0,
        t@[0] == '+',
        valid_instant(now as int),
        match relative_unit(t@.drop_first()) {
            Some((n, f, _)) => match parse_i64(n) {
                Some(k) => i64::MIN <= k * f * 86400 <= i64::MAX,
                None => true,
            },
            None => true,
        },
    ensures
        date_view(r) == Some(
            match relative_unit(t@.drop_first()) {
                Some((n, f, unit)) => match parse_i64(n) {
                    Some(k) => Ok::<int, (Seq<char>, Seq<char>)>(now + k * f * DAY_NANOS),
                    None => Err(("date"@, "invalid "@ + unit + ": "@ + t@.drop_first())),
                },
                None => Err(
                    (
                        "date"@,
                        "invalid relative format '"@ + t@
                            + "'. use +Nd, +Nw, or +Nmo (e.g., +7d, +2w, +1mo)"@,
                    ),
                ),
            },
        ),
{
    let n = t.len();
    let ghost rest = t@.drop_first();
    let (hi, factor, unit): (usize, i128, &str) = if n >= 2 && t[n - 1] == 'd' {
        (n - 1, 1, "days")
    } else if n >= 2 && t[n - 1] == 'w' {
        (n - 1, 7, "weeks")
    } else if n >= 3 && t[n - 2] == 'm' && t[n - 1] == 'o' {
        (n - 2, 30, "months")
    } else {
        return Err(relative_error(t));
    };
    proof {
        reveal_strlit("days");
        reveal_strlit("weeks");
        reveal_strlit("months");
        assert(rest.last() == t@[n - 1]);
        assert(n >= 3 ==> rest[rest.len() - 2] == t@[n - 2]);
        assert(rest.drop_last() =~= t@.subrange(1, n - 1));
        assert(n >= 3 ==> rest.take(rest.len() - 2) =~= t@.subrange(1, n - 2));
    }
    match parse_i64_at(t, 1, hi) {
        Some(k) => {
            proof {
                assert(k * factor * 86400 <= i64::MAX);
                assert(k * factor * 86400 >= i64::MIN);
            }
            let span = (k as i128) * factor * DAY_NANOS;
            proof {
                assert(span == k * factor * DAY_NANOS);
            }
            Ok(now + span)
        },
        None => Err(count_error(unit, t)),
    }
}

/// The instant a date input stands for at time `now`; see [`spec_scheduled_date`].
pub fn scheduled_date_at(input: &str, now: i128) -> (r: Result<i128, BrdError>)
    requires
        valid_instant(now as int),
        relative_fits(input@),
    ensures
        date_view(r) == Some(spec_scheduled_date(input@, now as int)),
{
    let raw = chars_of(input);
    let (lo, hi) = trim_bounds(&raw, 0, raw.len());
    let trimmed = substring(&raw, lo, hi);
    proof {
        assert(raw@.subrange(0, raw.len() as int) =~= raw@);
    }
    let lowered = to_lowercase(trimmed.as_str());
    let t = chars_of(lowered.as_str());
    let ghost tv = date_text(input@);
    assert(t@ == tv);
    if str_eq(lowered.as_str(), "tomorrow") {
        return Ok(next_midnight(now));
    }
    if t.len() > 0 && t[0] == '+' {
        return relative_date(&t, now);
    }
    if lowered.as_str().len() == 10 && t.len() > 7 && t[4] == '-' && t[7] == '-' {
        return match iso_midnight(lowered.as_str()) {
            Ok(n) => Ok(n),
            Err(DateFailure::Format(e)) => {
                let mut m = String::new();
                push_str(&mut m, "format error: ");
                push_str(&mut m, e.as_str());
                Err(parse_error("date", m.as_str()))
            },
            Err(DateFailure::Date(e)) => {
                let mut m = String::new();
                push_str(&mut m, "invalid date '");
                push_str(&mut m, lowered.as_str());
                push_str(&mut m, "': ");
                push_str(&mut m, e.as_str());
                Err(parse_error("date", m.as_str()))
            },
        };
    }
    let mut m = String::new();
    push_str(&mut m, "invalid date format '");
    push_str(&mut m, lowered.as_str());
    push_str(&mut m, "'. use YYYY-MM-DD, +Nd, +Nw, +Nmo, or 'tomorrow'");
    Err(parse_error("date", m.as_str()))
}

/// Reads a date input at the current time; see [`spec_scheduled_date`]. What `now` was
/// is not known to the caller: the result is `spec_scheduled_date` at some valid instant.
pub fn parse_scheduled_date(input: &str) -> (r: Result<i128, BrdError>)
    requires
        relative_fits(input@),
    ensures
        exists|now: int| valid_instant(now) && date_view(r) == Some(spec_scheduled_date(input@, now)),
{
    let now = now_utc_nanos();
    scheduled_date_at(input, now)
}

/// Whether a date input is free of a relative span too long for the time library;
/// [`parse_scheduled_date`] asks this of its input.
pub fn relative_date_fits(input: &str) -> (r: bool)
    ensures
        r == relative_fits(input@),
{
    let raw = chars_of(input);
    let (lo, hi) = trim_bounds(&raw, 0, raw.len());
    let trimmed = substring(&raw, lo, hi);
    proof {
        assert(raw@.subrange(0, raw.len() as int) =~= raw@);
    }
    let lowered = to_lowercase(trimmed.as_str());
    let t = chars_of(lowered.as_str());
    if str_eq(lowered.as_str(), "tomorrow") || t.len() == 0 || t[0] != '+' {
        return true;
    }
    let n = t.len();
    let ghost rest = t@.drop_first();
    let (hi, factor): (usize, i128) = if n >= 2 && t[n - 1] == 'd' {
        (n - 1, 1)
    } else if n >= 2 && t[n - 1] == 'w' {
        (n - 1, 7)
    } else if n >= 3 && t[n - 2] == 'm' && t[n - 1] == 'o' {
        (n - 2, 30)
    } else {
        return true;
    };
    proof {
        assert(rest.last() == t@[n - 1]);
        assert(n >= 3 ==> rest[rest.len() - 2] == t@[n - 2]);
        assert(rest.drop_last() =~= t@.subrange(1, n - 1));
        assert(n >= 3 ==> rest.take(rest.len() - 2) =~= t@.subrange(1, n - 2));
    }
    match parse_i64_at(&t, 1, hi) {
        Some(k) => {
            let secs = (k as i128) * factor * 86400;
            i64::MIN as i128 <= secs && secs <= i64::MAX as i128
        },
        None => true,
    }
}

/// How a scheduled instant shows, seen from `now`: `now` once less than a minute is
/// left, else whole hours (at least 1) under a day, whole days under a week, whole weeks
/// under 30 days, and whole 30-day months beyond.
pub open spec fn spec_format_scheduled(scheduled: int, now: int) -> Seq<char> {
    let d = scheduled - now;
    if d < 60_000_000_000 {
        "now"@
    } else {
        let hours = d / 3_600_000_000_000;
        let days = d / 86_400_000_000_000;
        if hours < 24 {
            "in "@ + dec(if hours < 1 { 1nat } else { hours as nat }) + "h"@
        } else if days < 7 {
            "in "@ + dec(days as nat) + "d"@
        } else if days < 30 {
            "in "@ + dec((days / 7) as nat) + "w"@
        } else {
            "in "@ + dec((days / 30) as nat) + "mo"@
        }
    }
}

/// Shows a scheduled instant as seen from `now`; see [`spec_format_scheduled`].
pub fn format_scheduled_at(scheduled: i128, now: i128) -> (r: String)
    requires
        valid_instant(scheduled as int),
        valid_instant(now as int),
    ensures
        r@ == spec_format_scheduled(scheduled as int, now as int),
{
    let d = scheduled - now;
    let mut r = String::new();
    if d < 60_000_000_000 {
        push_str(&mut r, "now");
        return r;
    }
    let hours = d / 3_600_000_000_000;
    let days = d / 86_400_000_000_000;
    push_str(&mut r, "in ");
    if hours < 24 {
        push_u64(&mut r, if hours < 1 { 1 } else { hours as u64 });
        push_str(&mut r, "h");
    } else if days < 7 {
        push_u64(&mut r, days as u64);
        push_str(&mut r, "d");
    } else if days < 30 {
        push_u64(&mut r, (days / 7) as u64);
        push_str(&mut r, "w");
    } else {
        push_u64(&mut r, (days / 30) as u64);
        push_str(&mut r, "mo");
    }
    r
}

/// Shows a scheduled instant as seen from the current time. What the time was is not
/// known to the caller: the text is `spec_format_scheduled` at some valid instant.
pub fn format_scheduled(scheduled: i128) -> (r: String)
    requires
        valid_instant(scheduled as int),
    ensures
        exists|now: int| valid_instant(now) && r@ == spec_format_scheduled(scheduled as int, now),
{
    let now = now_utc_nanos();
    format_scheduled_at(scheduled, now)
}

} // verus!
