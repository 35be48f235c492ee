//! Points in time, read and written in the canonical form
//! `YYYY-MM-DD HH:MM:SS` (naive, taken as UTC).

use vstd::prelude::*;
use vstd::string::StringExecFns;
use std::fmt::Write;
use crate::error::EngineError;

verus! {

/// The seconds since the Unix epoch that `chrono` reads from `text` under the
/// strftime `format`, or `None` where it rejects the text.
pub uninterp spec fn parsed_seconds(text: Seq<char>, format: Seq<char>) -> Option<int>;

/// The text that `chrono` writes for the point `secs` seconds after the Unix
/// epoch under the strftime `format`, or `None` where it has none.
pub uninterp spec fn rendered_text(secs: int, format: Seq<char>) -> Option<Seq<char>>;

#[verifier::external_type_specification]
#[verifier::external_body]
pub struct ExParseError(chrono::ParseError);

/// `chrono::NaiveDateTime::parse_from_str`, the point it returns counted in
/// seconds since the epoch by `and_utc().timestamp()`. The contract only
/// names the result: `Ok` with the named seconds, or `Err` where no seconds
/// are named.
#[verifier::external_body]
fn parse_seconds(text: &str, format: &str) -> (r: Result<i64, chrono::ParseError>)
    ensures
        match r {
            Ok(secs) => parsed_seconds(text@, format@) == Some(secs as int),
            Err(_) => parsed_seconds(text@, format@) is None,
        },
{
    match chrono::NaiveDateTime::parse_from_str(text, format) {
        Ok(point) => Ok(point.and_utc().timestamp()),
        Err(error) => Err(error),
    }
}

/// `chrono::DateTime::from_timestamp` followed by `format`, written into a
/// fresh `String`. The contract only names the result; `None` stands for a
/// number of seconds outside `chrono`'s range or a format it cannot write.
#[verifier::external_body]
fn render_seconds(secs: i64, format: &str) -> (r: Option<String>)
    ensures
        match r {
            Some(text) => rendered_text(secs as int, format@) == Some(text@),
            None => rendered_text(secs as int, format@) is None,
        },
{
    let point = chrono::DateTime::from_timestamp(secs, 0)?;
    let mut text = String::new();
    write!(text, "{}", point.naive_utc().format(format)).ok()?;
    Some(text)
}

/// The `Display` text of a `chrono::ParseError`. Nothing is claimed of it.
#[verifier::external_body]
fn describe(error: &chrono::ParseError) -> String {
    error.to_string()
}

/// `chrono::Utc::now().timestamp()`: the system clock, in whole seconds.
/// Nothing is claimed of the result.
#[verifier::external_body]
fn clock_seconds() -> i64 {
    chrono::Utc::now().timestamp()
}

/// The strftime form of the canonical timestamp.
pub const CANONICAL_FORMAT: &'static str = "%Y-%m-%d %H:%M:%S";

/// The characters of the canonical format.
pub open spec fn canonical_format() -> Seq<char> {
    CANONICAL_FORMAT@
}

/// The seconds since the epoch that a canonical timestamp stands for.
pub open spec fn seconds_of(text: Seq<char>) -> Option<int> {
    parsed_seconds(text, canonical_format())
}

/// The canonical timestamp of a number of seconds since the epoch.
pub open spec fn text_of(secs: int) -> Option<Seq<char>> {
    if i64::MIN <= secs <= i64::MAX {
        rendered_text(secs, canonical_format())
    } else {
        None
    }
}

/// The canonical timestamp `hours` hours after the one in `text`.
pub open spec fn hours_after(text: Seq<char>, hours: nat) -> Option<Seq<char>> {
    match seconds_of(text) {
        Some(secs) => text_of(secs + 3600 * hours),
        None => None,
    }
}

/// Reads a canonical timestamp.
pub fn read_seconds(text: &str) -> (r: Result<i64, EngineError>)
    ensures
        match r {
            Ok(secs) => seconds_of(text@) == Some(secs as int),
            Err(e) => seconds_of(text@) is None && e is TimeFormat,
        },
{
    match parse_seconds(text, CANONICAL_FORMAT) {
        Ok(secs) => Ok(secs),
        Err(error) => Err(EngineError::TimeFormat(describe(&error))),
    }
}

/// Adds whole hours to a stored timestamp and writes the result in the
/// canonical form.
///
/// Fails with a time-format error where `stored` cannot be read, and
/// where the later point has no canonical form.
pub fn add_hours(stored: &str, hours: u32) -> (r: Result<String, EngineError>)
    ensures
        match r {
            Ok(text) => hours_after(stored@, hours as nat) == Some(text@),
            Err(e) => hours_after(stored@, hours as nat) is None && e is TimeFormat,
        },
{
    let base = read_seconds(stored)?;
    let span: i64 = 3600 * (hours as i64);
    let rendered = match base.checked_add(span) {
        Some(later) => render_seconds(later, CANONICAL_FORMAT),
        None => None,
    };
    match rendered {
        Some(text) => Ok(text),
        None => Err(EngineError::TimeFormat(String::from_str("input is out of range"))),
    }
}

/// What a [`Timestamp`] stands for: a number of seconds since the Unix epoch
/// and its canonical text.
pub struct TimestampModel {
    pub secs: int,
    pub text: Seq<char>,
}

/// A point in time that has a canonical text.
pub struct Timestamp {
    secs: i64,
    text: String,
}

impl View for Timestamp {
    type V = TimestampModel;

    closed spec fn view(&self) -> TimestampModel {
        TimestampModel { secs: self.secs as int, text: self.text@ }
    }
}

impl Timestamp {
    #[verifier::type_invariant]
    spec fn consistent(&self) -> bool {
        text_of(self.secs as int) == Some(self.text@)
    }

    /// The point `secs` seconds after the Unix epoch, where it has a
    /// canonical text.
    pub fn from_unix(secs: i64) -> (r: Option<Timestamp>)
        ensures
            match r {
                Some(point) => point@.secs == secs && text_of(secs as int) == Some(point@.text),
                None => text_of(secs as int) is None,
            },
    {
        match render_seconds(secs, CANONICAL_FORMAT) {
            Some(text) => Some(Timestamp { secs, text }),
            None => None,
        }
    }

    /// Reads a canonical timestamp. The point keeps the text that the
    /// seconds read from `text` are written as.
    pub fn parse(text: &str) -> (r: Result<Timestamp, EngineError>)
        ensures
            match r {
                Ok(point) => seconds_of(text@) == Some(point@.secs) && text_of(point@.secs)
                    == Some(point@.text),
                Err(e) => e is TimeFormat && (seconds_of(text@) matches Some(secs) ==> text_of(
                    secs,
                ) is None),
            },
    {
        let secs = read_seconds(text)?;
        match Timestamp::from_unix(secs) {
            Some(point) => Ok(point),
            None => Err(EngineError::TimeFormat(String::from_str("input is out of range"))),
        }
    }

    /// The current time of the system clock, where it has a canonical text.
    pub fn now() -> (r: Option<Timestamp>)
        ensures
            exists|secs: i64| #[trigger] Timestamp::stands_at(r, secs),
            r matches Some(point) ==> text_of(point@.secs) == Some(point@.text),
    {
        let secs = clock_seconds();
        let r = Timestamp::from_unix(secs);
        assert(Timestamp::stands_at(r, secs));
        r
    }

    /// `r` is what becomes of the second `secs` after the Unix epoch: the
    /// point at that second with its canonical text, or nothing where the
    /// second has no such text. Whatever second the clock shows, `now`
    /// returns what becomes of it.
    pub open spec fn stands_at(r: Option<Timestamp>, secs: i64) -> bool {
        match r {
            Some(point) => point@.secs == secs && text_of(secs as int) == Some(point@.text),
            None => text_of(secs as int) is None,
        }
    }

    /// Seconds since the Unix epoch.
    pub fn unix(&self) -> (secs: i64)
        ensures
            secs == self@.secs,
            text_of(self@.secs) == Some(self@.text),
    {
        proof {
            use_type_invariant(self);
        }
        self.secs
    }

    /// The canonical text, which is the one of the point's seconds.
    pub fn text(&self) -> (text: &str)
        ensures
            text@ == self@.text,
            text_of(self@.secs) == Some(self@.text),
    {
        proof {
            use_type_invariant(self);
        }
        self.text.as_str()
    }
}

/// Whole seconds from the canonical timestamp `past` to `now`.
pub open spec fn elapsed(past: Seq<char>, now: TimestampModel) -> Option<int> {
    match seconds_of(past) {
        Some(secs) => Some(now.secs - secs),
        None => None,
    }
}

/// Measures the whole seconds that lie between a stored timestamp and `now`.
///
/// Fails with a time-format error where `stored` cannot be read.
pub fn seconds_since(stored: &str, now: &Timestamp) -> (r: Result<i128, EngineError>)
    ensures
        match r {
            Ok(span) => elapsed(stored@, now@) == Some(span as int),
            Err(e) => elapsed(stored@, now@) is None && e is TimeFormat,
        },
{
    let past = read_seconds(stored)?;
    Ok(now.unix() as i128 - past as i128)
}

} // verus!
