//! Dates and timestamps. Timestamps are RFC 3339 text in UTC at second
//! precision with a `Z` suffix; calendar days are counted from 0001-01-01
//! (day 1), as chrono counts them. Parsing and rendering are chrono's.
use vstd::prelude::*;
use crate::error::{CliError, is_user_error};
use crate::strs::opt_view;
use crate::text::push_str;

verus! {

/// What chrono renders for an RFC 3339 timestamp once moved to UTC, at
/// second precision with `Z`; none when chrono does not read the text as
/// RFC 3339.
pub uninterp spec fn rfc3339_utc_text(s: Seq<char>) -> Option<Seq<char>>;

/// The timestamp of midnight UTC at the start of a `%Y-%m-%d` date, as
/// chrono renders it; none when chrono does not read the text as such a date.
pub uninterp spec fn ymd_midnight_text(s: Seq<char>) -> Option<Seq<char>>;

/// The day number (from 0001-01-01 = 1) of a `%Y-%m-%d` date, if chrono reads it.
pub uninterp spec fn ymd_day(s: Seq<char>) -> Option<int>;

/// The UTC day number of an RFC 3339 timestamp, if chrono reads it.
pub uninterp spec fn rfc3339_utc_day(s: Seq<char>) -> Option<int>;

/// How chrono displays the date with day number `d` (`YYYY-MM-DD`), if it
/// can represent that date.
pub uninterp spec fn day_text(d: int) -> Option<Seq<char>>;

/// `DateTime::parse_from_rfc3339(s)`, moved to UTC and rendered by
/// `to_rfc3339_opts(SecondsFormat::Secs, true)`.
#[verifier::external_body]
fn rfc3339_to_utc(s: &str) -> (r: Option<String>)
    ensures
        opt_view(r) == rfc3339_utc_text(s@),
{
    match chrono::DateTime::parse_from_rfc3339(s) {
        Ok(dt) => Some(dt.with_timezone(&chrono::Utc).to_rfc3339_opts(chrono::SecondsFormat::Secs, true)),
        Err(_) => None,
    }
}

/// `NaiveDate::parse_from_str(s, "%Y-%m-%d")` at 00:00:00 UTC, rendered
/// by `to_rfc3339_opts(SecondsFormat::Secs, true)`.
#[verifier::external_body]
fn ymd_to_utc_midnight(s: &str) -> (r: Option<String>)
    ensures
        opt_view(r) == ymd_midnight_text(s@),
{
    match chrono::NaiveDate::parse_from_str(s, "%Y-%m-%d") {
        Ok(d) => match d.and_hms_opt(0, 0, 0) {
            Some(t) => Some(t.and_utc().to_rfc3339_opts(chrono::SecondsFormat::Secs, true)),
            None => None,
        },
        Err(_) => None,
    }
}

/// `NaiveDate::parse_from_str(s, "%Y-%m-%d")` as a day number
/// (`num_days_from_ce`).
#[verifier::external_body]
fn ymd_to_day(s: &str) -> (r: Option<i64>)
    ensures
        match r {
            Some(d) => ymd_day(s@) == Some(d as int),
            None => ymd_day(s@) is None,
        },
{
    match chrono::NaiveDate::parse_from_str(s, "%Y-%m-%d") {
        Ok(d) => Some(chrono::Datelike::num_days_from_ce(&d) as i64),
        Err(_) => None,
    }
}

/// `DateTime::parse_from_rfc3339(s)` moved to UTC, as a day number.
#[verifier::external_body]
fn rfc3339_to_day(s: &str) -> (r: Option<i64>)
    ensures
        match r {
            Some(d) => rfc3339_utc_day(s@) == Some(d as int),
            None => rfc3339_utc_day(s@) is None,
        },
{
    match chrono::DateTime::parse_from_rfc3339(s) {
        Ok(dt) => Some(chrono::Datelike::num_days_from_ce(&dt.with_timezone(&chrono::Utc).date_naive()) as i64),
        Err(_) => None,
    }
}

/// `NaiveDate::from_num_days_from_ce_opt(d)` displayed.
#[verifier::external_body]
pub(crate) fn day_to_text(d: i32) -> (r: Option<String>)
    ensures
        opt_view(r) == day_text(d as int),
{
    match chrono::NaiveDate::from_num_days_from_ce_opt(d) {
        Some(x) => Some(x.to_string()),
        None => None,
    }
}

/// `invalid date '<s>' (expected YYYY-MM-DD or RFC3339)`.
pub open spec fn invalid_date_msg(s: Seq<char>) -> Seq<char> {
    "invalid date '"@ + s + "' (expected YYYY-MM-DD or RFC3339)"@
}

fn invalid_date(s: &str) -> (e: CliError)
    ensures
        is_user_error(e, invalid_date_msg(s@)),
{
    let mut m = "invalid date '".to_string();
    push_str(&mut m, s);
    push_str(&mut m, "' (expected YYYY-MM-DD or RFC3339)");
    CliError::User(m)
}

/// A date bound given the two readings of its text: as RFC 3339 (taken
/// first) and as a plain date (its midnight UTC).
pub fn date_bound_from(s: &str, as_rfc3339: Option<String>, as_ymd: Option<String>) -> (r: Result<String, CliError>)
    ensures
        match (opt_view(as_rfc3339), opt_view(as_ymd)) {
            (Some(t), _) => r matches Ok(v) && v@ == t,
            (None, Some(t)) => r matches Ok(v) && v@ == t,
            (None, None) => r matches Err(e) && is_user_error(e, invalid_date_msg(s@)),
        },
{
    match as_rfc3339 {
        Some(t) => Ok(t),
        None => match as_ymd {
            Some(t) => Ok(t),
            None => Err(invalid_date(s)),
        },
    }
}

/// Normalizes a `--since`/`--until` bound (`YYYY-MM-DD` or RFC 3339) to a
/// UTC timestamp that compares with stored ones as text.
pub fn parse_date_bound(s: &str) -> (r: Result<String, CliError>)
    ensures
        match (rfc3339_utc_text(s@), ymd_midnight_text(s@)) {
            (Some(t), _) => r matches Ok(v) && v@ == t,
            (None, Some(t)) => r matches Ok(v) && v@ == t,
            (None, None) => r matches Err(e) && is_user_error(e, invalid_date_msg(s@)),
        },
{
    let a = rfc3339_to_utc(s);
    if a.is_some() {
        return date_bound_from(s, a, None);
    }
    let b = ymd_to_utc_midnight(s);
    date_bound_from(s, a, b)
}

/// A day given the two readings of its text: as a plain date (taken
/// first) and as an RFC 3339 timestamp (its UTC day).
pub fn date_only_from(s: &str, as_ymd: Option<i64>, as_rfc3339: Option<i64>) -> (r: Result<i64, CliError>)
    ensures
        match (as_ymd, as_rfc3339) {
            (Some(d), _) => r == Ok::<i64, CliError>(d),
            (None, Some(d)) => r == Ok::<i64, CliError>(d),
            (None, None) => r matches Err(e) && is_user_error(e, invalid_date_msg(s@)),
        },
{
    match as_ymd {
        Some(d) => Ok(d),
        None => match as_rfc3339 {
            Some(d) => Ok(d),
            None => Err(invalid_date(s)),
        },
    }
}

/// The day a text names: as `YYYY-MM-DD` first, else as the UTC day of an
/// RFC 3339 timestamp.
pub open spec fn date_only_spec(s: Seq<char>) -> Option<int> {
    match (ymd_day(s), rfc3339_utc_day(s)) {
        (Some(d), _) => Some(d),
        (None, Some(d)) => Some(d),
        (None, None) => None,
    }
}

/// Reads a day: `YYYY-MM-DD`, or the UTC day of an RFC 3339 timestamp.
pub fn parse_date_only(s: &str) -> (r: Result<i64, CliError>)
    ensures
        match (ymd_day(s@), rfc3339_utc_day(s@)) {
            (Some(d), _) => r matches Ok(v) && v == d,
            (None, Some(d)) => r matches Ok(v) && v == d,
            (None, None) => r matches Err(e) && is_user_error(e, invalid_date_msg(s@)),
        },
{
    let a = ymd_to_day(s);
    if a.is_some() {
        return date_only_from(s, a, None);
    }
    let b = rfc3339_to_day(s);
    date_only_from(s, a, b)
}

/// The text before the first `T` (the whole text when there is none).
pub open spec fn date_part(s: Seq<char>) -> Seq<char>
    decreases s.len(),
{
    if s.len() == 0 {
        s
    } else if s[0] == 'T' {
        Seq::empty()
    } else {
        seq![s[0]] + date_part(s.drop_first())
    }
}

/// `s.split('T').next()`: the date part of a timestamp.
pub fn date_prefix(s: &str) -> (r: String)
    ensures
        r@ == date_part(s@),
{
    let n = s.unicode_len();
    let mut i: usize = 0;
    while i < n && s.get_char(i) != 'T'
        invariant
            n == s@.len(),
            i <= n,
            forall|j: int| 0 <= j < i ==> s@[j] != 'T',
        decreases n - i,
    {
        i = i + 1;
    }
    proof { lemma_date_part(s@, i as int); }
    s.substring_char(0, i).to_string()
}

proof fn lemma_date_part(s: Seq<char>, i: int)
    requires
        0 <= i <= s.len(),
        forall|j: int| 0 <= j < i ==> s[j] != 'T',
        i == s.len() || s[i] == 'T',
    ensures
        date_part(s) == s.subrange(0, i),
    decreases s.len(),
{
    if s.len() > 0 && s[0] != 'T' {
        assert forall|j: int| 0 <= j < i - 1 implies s.drop_first()[j] != 'T' by {
            assert(s.drop_first()[j] == s[j + 1]);
        }
        if i == s.len() {
            lemma_date_part(s.drop_first(), i - 1);
        } else {
            assert(s.drop_first()[i - 1] == s[i]);
            lemma_date_part(s.drop_first(), i - 1);
        }
        assert(seq![s[0]] + s.drop_first().subrange(0, i - 1) =~= s.subrange(0, i));
    } else if s.len() > 0 {
        assert(i == 0);
        assert(s.subrange(0, 0) =~= Seq::<char>::empty());
    } else {
        assert(s.subrange(0, 0) =~= s);
    }
}

} // verus!
