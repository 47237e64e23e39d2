//! Expiry timestamps of user access grants, as the operator types them.
use vstd::prelude::*;
use vstd::string::*;
use crate::input::{blank_or_null, count_char, count_spaces, fold, is_blank_or_null, lower_of, trim_of};
use crate::key::{key_fields, split_key};

verus! {

/// A calendar date and a time of day.
#[derive(Clone, Copy, Debug, PartialEq, Eq, Structural)]
pub struct Timestamp {
    pub year: i32,
    pub month: u8,
    pub day: u8,
    pub hour: u8,
    pub minute: u8,
    pub second: u8,
}

/// Why an expiry timestamp was refused.
#[derive(Clone, Copy, Debug, PartialEq, Eq, Structural)]
pub enum UntilError {
    /// The date part is not a `YYYY-MM-DD` calendar date.
    Date,
    /// The time part is not an `HH:MM:SS` time of day.
    Time,
    /// More than a date and a time were given.
    Shape,
}

impl UntilError {
    /// A message for the operator.
    pub fn message(&self) -> &'static str {
        match self {
            UntilError::Date => "Could not parse date.",
            UntilError::Time => "Could not parse time.",
            UntilError::Shape => "Could not parse datetime.",
        }
    }
}

/// Year, month and day of a date written in `s` after the format `description`.
pub uninterp spec fn parsed_date(s: Seq<char>, description: Seq<char>) -> Option<(i32, u8, u8)>;

/// Hour, minute and second of a time written in `s` after the format `description`.
pub uninterp spec fn parsed_time(s: Seq<char>, description: Seq<char>) -> Option<(u8, u8, u8)>;

/// Relies on time `format_description::parse_borrowed` and `Date::parse`:
/// the date that `s` holds in the given format, if it holds one.
#[verifier::external_body]
fn parse_date(s: &str, description: &str) -> (r: Option<(i32, u8, u8)>)
    ensures
        r == parsed_date(s@, description@),
{
    let items = time::format_description::parse_borrowed::<1>(description).ok()?;
    let d = time::Date::parse(s, &items).ok()?;
    Some((d.year(), u8::from(d.month()), d.day()))
}

/// Relies on time `format_description::parse_borrowed` and `Time::parse`:
/// the time of day that `s` holds in the given format, if it holds one.
#[verifier::external_body]
fn parse_time(s: &str, description: &str) -> (r: Option<(u8, u8, u8)>)
    ensures
        r == parsed_time(s@, description@),
{
    let items = time::format_description::parse_borrowed::<1>(description).ok()?;
    let t = time::Time::parse(s, &items).ok()?;
    Some((t.hour(), t.minute(), t.second()))
}

/// The expiry of a grant given without one: effectively never.
pub open spec fn default_expiry() -> Timestamp {
    Timestamp { year: 2256, month: 5, day: 11, hour: 0, minute: 0, second: 0 }
}

/// The expiry of a grant given without one.
pub fn default_best_before() -> (r: Timestamp)
    ensures
        r == default_expiry(),
{
    Timestamp { year: 2256, month: 5, day: 11, hour: 0, minute: 0, second: 0 }
}

pub open spec fn date_format() -> Seq<char> {
    "[year]-[month]-[day]"@
}

pub open spec fn time_format() -> Seq<char> {
    "[hour]:[minute]:[second]"@
}

/// The expiry that `input` stands for: the default for an empty answer or
/// `null`; a date at midnight; or a date and a time separated by one space.
pub open spec fn until_of(input: Seq<char>) -> Result<Timestamp, UntilError> {
    if blank_or_null(lower_of(trim_of(input))) {
        Ok(default_expiry())
    } else if count_char(input, ' ') == 0 {
        match parsed_date(input, date_format()) {
            Some((y, m, d)) => Ok(Timestamp { year: y, month: m, day: d, hour: 0, minute: 0, second: 0 }),
            None => Err(UntilError::Date),
        }
    } else if count_char(input, ' ') == 1 {
        match key_fields(input) {
            Some((ds, ts)) => match parsed_date(ds, date_format()) {
                None => Err(UntilError::Date),
                Some((y, m, d)) => match parsed_time(ts, time_format()) {
                    None => Err(UntilError::Time),
                    Some((h, mi, s)) => Ok(
                        Timestamp { year: y, month: m, day: d, hour: h, minute: mi, second: s },
                    ),
                },
            },
            None => Err(UntilError::Shape),
        }
    } else {
        Err(UntilError::Shape)
    }
}

/// The expiry that the operator's answer stands for.
pub fn parse_until(input: &str) -> (r: Result<Timestamp, UntilError>)
    ensures
        r == until_of(input@),
{
    let folded = fold(input);
    if is_blank_or_null(folded.as_str()) {
        return Ok(default_best_before());
    }
    let spaces = count_spaces(input);
    if spaces == 0 {
        match parse_date(input, "[year]-[month]-[day]") {
            Some((y, m, d)) => Ok(Timestamp { year: y, month: m, day: d, hour: 0, minute: 0, second: 0 }),
            None => Err(UntilError::Date),
        }
    } else if spaces == 1 {
        match split_key(input) {
            Some((ds, ts)) => match parse_date(ds.as_str(), "[year]-[month]-[day]") {
                None => Err(UntilError::Date),
                Some((y, m, d)) => match parse_time(ts.as_str(), "[hour]:[minute]:[second]") {
                    None => Err(UntilError::Time),
                    Some((h, mi, s)) => Ok(
                        Timestamp { year: y, month: m, day: d, hour: h, minute: mi, second: s },
                    ),
                },
            },
            None => Err(UntilError::Shape),
        }
    } else {
        Err(UntilError::Shape)
    }
}

} // verus!
