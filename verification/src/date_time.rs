//! Instants at second resolution in UTC, and the text that stands for them.
//!
//! A `Timestamp` keeps the calendar fields it was made from together with
//! the UNIX timestamp that chrono gives for them. The fields decide how the
//! instant is written and read; the UNIX timestamp decides how instants are
//! compared and how far they lie apart.

use crate::error::ParseError;
use crate::text::{chars_of, digit_char, digit_value, is_digit, lemma_digit_char, value_of};
use vstd::prelude::*;

verus! {

/// What chrono gives as the UNIX timestamp of the UTC date-time with these
/// calendar fields; `None` where chrono has no such date-time.
pub uninterp spec fn chrono_timestamp(
    year: i32,
    month: u32,
    day: u32,
    hour: u32,
    minute: u32,
    second: u32,
) -> Option<i64>;

/// Builds the date with `chrono::NaiveDate::from_ymd_opt`, adds the time of
/// day with `NaiveDate::and_hms_opt`, reads the result as UTC with
/// `NaiveDateTime::and_utc` and takes its `DateTime::timestamp`. Nothing is
/// claimed of the number but that the same fields always give the same one,
/// and that `None` comes back where one of the first two calls gives `None`.
#[verifier::external_body]
fn utc_timestamp(year: i32, month: u32, day: u32, hour: u32, minute: u32, second: u32) -> (seconds:
    Option<i64>)
    ensures
        seconds == chrono_timestamp(year, month, day, hour, minute, second),
{
    chrono::NaiveDate::from_ymd_opt(year, month, day)
        .and_then(|date| date.and_hms_opt(hour, minute, second))
        .map(|date_time| date_time.and_utc().timestamp())
}

/// A date and a time of day, as calendar fields.
#[derive(Clone, Copy, Debug, PartialEq, Eq)]
pub struct CivilTime {
    pub year: i32,
    pub month: u32,
    pub day: u32,
    pub hour: u32,
    pub minute: u32,
    pub second: u32,
}

impl CivilTime {
    /// The fields fit the places that `YYYY-MM-DD HH:MM:SS` has for them.
    pub open spec fn in_pattern(self) -> bool {
        &&& 0 <= self.year <= 9999
        &&& 1 <= self.month <= 12
        &&& 1 <= self.day <= 31
        &&& self.hour <= 23
        &&& self.minute <= 59
        &&& self.second <= 59
    }

    /// The UNIX timestamp that chrono gives for the fields, if any.
    pub open spec fn unix(self) -> Option<i64> {
        chrono_timestamp(self.year, self.month, self.day, self.hour, self.minute, self.second)
    }

    /// The fields can be written in the pattern and name a date-time that
    /// the calendar has.
    pub open spec fn representable(self) -> bool {
        self.in_pattern() && self.unix() is Some
    }

    /// Seconds since 1970-01-01 00:00:00 UTC, for representable fields.
    pub open spec fn instant(self) -> int {
        match self.unix() {
            Some(seconds) => seconds as int,
            None => 0,
        }
    }

    /// Tells whether the fields fit the places of the pattern.
    pub fn fits_pattern(&self) -> (fits: bool)
        ensures
            fits == self.in_pattern(),
    {
        0 <= self.year && self.year <= 9999 && 1 <= self.month && self.month <= 12 && 1 <= self.day
            && self.day <= 31 && self.hour <= 23 && self.minute <= 59 && self.second <= 59
    }
}

/// `YYYY-MM-DD HH:MM:SS`: every field in decimal digits, padded with zeros
/// to the width of its place.
pub open spec fn human_readable(civil: CivilTime) -> Seq<char> {
    seq![
        digit_char(civil.year as int / 1000),
        digit_char(civil.year as int / 100 % 10),
        digit_char(civil.year as int / 10 % 10),
        digit_char(civil.year as int % 10),
        '-',
        digit_char(civil.month as int / 10),
        digit_char(civil.month as int % 10),
        '-',
        digit_char(civil.day as int / 10),
        digit_char(civil.day as int % 10),
        ' ',
        digit_char(civil.hour as int / 10),
        digit_char(civil.hour as int % 10),
        ':',
        digit_char(civil.minute as int / 10),
        digit_char(civil.minute as int % 10),
        ':',
        digit_char(civil.second as int / 10),
        digit_char(civil.second as int % 10),
    ]
}

/// `YYYYMMDDHHMMSS`: the digits of `human_readable` without what separates
/// them.
pub open spec fn compact(civil: CivilTime) -> Seq<char> {
    seq![
        digit_char(civil.year as int / 1000),
        digit_char(civil.year as int / 100 % 10),
        digit_char(civil.year as int / 10 % 10),
        digit_char(civil.year as int % 10),
        digit_char(civil.month as int / 10),
        digit_char(civil.month as int % 10),
        digit_char(civil.day as int / 10),
        digit_char(civil.day as int % 10),
        digit_char(civil.hour as int / 10),
        digit_char(civil.hour as int % 10),
        digit_char(civil.minute as int / 10),
        digit_char(civil.minute as int % 10),
        digit_char(civil.second as int / 10),
        digit_char(civil.second as int % 10),
    ]
}

/// The number that two digits at `at` stand for.
pub open spec fn pair_value(text: Seq<char>, at: int) -> int {
    10 * digit_value(text[at]) + digit_value(text[at + 1])
}

/// Tells whether `text` has the shape `DDDD-DD-DD DD:DD:DD`, every `D` a
/// decimal digit.
pub open spec fn has_shape(text: Seq<char>) -> bool {
    &&& text.len() == 19
    &&& text[4] == '-' && text[7] == '-' && text[10] == ' ' && text[13] == ':' && text[16] == ':'
    &&& forall|i: int|
        0 <= i < 19 && i != 4 && i != 7 && i != 10 && i != 13 && i != 16 ==> is_digit(
            #[trigger] text[i],
        )
}

/// The calendar fields that a text of the right shape spells out.
pub open spec fn civil_of_text(text: Seq<char>) -> Option<CivilTime> {
    if has_shape(text) {
        Some(
            CivilTime {
                year: (100 * pair_value(text, 0) + pair_value(text, 2)) as i32,
                month: pair_value(text, 5) as u32,
                day: pair_value(text, 8) as u32,
                hour: pair_value(text, 11) as u32,
                minute: pair_value(text, 14) as u32,
                second: pair_value(text, 17) as u32,
            },
        )
    } else {
        None
    }
}

/// The date-time that a text stands for: the text has the shape of the
/// pattern, and the fields it spells out are representable.
pub open spec fn timestamp_of_text(text: Seq<char>) -> Option<CivilTime> {
    match civil_of_text(text) {
        Some(civil) => if civil.representable() {
            Some(civil)
        } else {
            None
        },
        None => None,
    }
}

/// Fields that fit the pattern are read back from their text unchanged.
pub proof fn lemma_civil_of_human_readable(civil: CivilTime)
    requires
        civil.in_pattern(),
    ensures
        civil_of_text(human_readable(civil)) == Some(civil),
{
    let text = human_readable(civil);
    lemma_digit_char(civil.year as int / 1000);
    lemma_digit_char(civil.year as int / 100 % 10);
    lemma_digit_char(civil.year as int / 10 % 10);
    lemma_digit_char(civil.year as int % 10);
    lemma_digit_char(civil.month as int / 10);
    lemma_digit_char(civil.month as int % 10);
    lemma_digit_char(civil.day as int / 10);
    lemma_digit_char(civil.day as int % 10);
    lemma_digit_char(civil.hour as int / 10);
    lemma_digit_char(civil.hour as int % 10);
    lemma_digit_char(civil.minute as int / 10);
    lemma_digit_char(civil.minute as int % 10);
    lemma_digit_char(civil.second as int / 10);
    lemma_digit_char(civil.second as int % 10);
    assert(has_shape(text));
    assert(pair_value(text, 0) == civil.year / 100);
    assert(pair_value(text, 2) == civil.year % 100);
}

/// Formats the date-time with chrono: `NaiveDate::from_ymd_opt`,
/// `NaiveDate::and_hms_opt` and `NaiveDateTime::and_utc` build it from the
/// fields, `DateTime::format` and `to_string` write it. For a year from 0
/// to 9999 chrono writes `%Y` as four digits, and `%m`, `%d`, `%H`, `%M` and
/// `%S` as two digits each, all padded with zeros; what is not a specifier
/// is copied. The contract says this for the two patterns that are used.
#[verifier::external_body]
fn chrono_format(civil: &CivilTime, pattern: &str) -> (text: String)
    requires
        civil.representable(),
        pattern@ == "%Y-%m-%d %H:%M:%S"@ || pattern@ == "%Y%m%d%H%M%S"@,
    ensures
        pattern@ == "%Y-%m-%d %H:%M:%S"@ ==> text@ == human_readable(*civil),
        pattern@ == "%Y%m%d%H%M%S"@ ==> text@ == compact(*civil),
{
    let date = chrono::NaiveDate::from_ymd_opt(civil.year, civil.month, civil.day).unwrap();
    let date_time = date.and_hms_opt(civil.hour, civil.minute, civil.second).unwrap().and_utc();
    date_time.format(pattern).to_string()
}

/// An instant at second resolution, in UTC.
#[derive(Clone, Copy, Debug, PartialEq, Eq)]
pub struct Timestamp {
    civil: CivilTime,
    seconds: i64,
}

impl View for Timestamp {
    type V = CivilTime;

    closed spec fn view(&self) -> CivilTime {
        self.civil
    }
}

impl Timestamp {
    #[verifier::type_invariant]
    closed spec fn sound(self) -> bool {
        self.civil.representable() && self.civil.unix() == Some(self.seconds)
    }

    /// The instant with the given calendar fields: `None` where the fields
    /// do not fit the pattern or the calendar has no such date-time.
    pub fn from_civil(year: i32, month: u32, day: u32, hour: u32, minute: u32, second: u32) -> (made:
        Option<Timestamp>)
        ensures
            match made {
                Some(timestamp) => timestamp@ == (CivilTime {
                    year,
                    month,
                    day,
                    hour,
                    minute,
                    second,
                }) && timestamp@.representable(),
                None => !(CivilTime { year, month, day, hour, minute, second }).representable(),
            },
    {
        let civil = CivilTime { year, month, day, hour, minute, second };
        if !civil.fits_pattern() {
            return None;
        }
        match utc_timestamp(year, month, day, hour, minute, second) {
            Some(seconds) => Some(Timestamp { civil, seconds }),
            None => None,
        }
    }

    /// The calendar fields of the instant.
    pub fn civil(&self) -> (civil: CivilTime)
        ensures
            civil == self@,
            civil.representable(),
    {
        proof {
            use_type_invariant(self);
        }
        self.civil
    }

    /// Seconds since 1970-01-01 00:00:00 UTC.
    pub fn unix_seconds(&self) -> (seconds: i64)
        ensures
            seconds == self@.instant(),
            self@.representable(),
    {
        proof {
            use_type_invariant(self);
        }
        self.seconds
    }

    /// `YYYYMMDDHHMMSS`, as it stands in the name of a record's file.
    pub fn file_stamp(&self) -> (text: String)
        ensures
            text@ == compact(self@),
    {
        proof {
            use_type_invariant(self);
        }
        chrono_format(&self.civil, "%Y%m%d%H%M%S")
    }
}

/// Writes an instant as `YYYY-MM-DD HH:MM:SS`.
pub fn serialize_human_readable(date: &Timestamp) -> (text: String)
    ensures
        text@ == human_readable(date@),
        date@.representable(),
{
    let civil = date.civil();
    chrono_format(&civil, "%Y-%m-%d %H:%M:%S")
}

fn pair_at(chars: &Vec<char>, at: usize) -> (value: u32)
    requires
        at + 1 < chars.len(),
        is_digit(chars@[at as int]),
        is_digit(chars@[at + 1]),
    ensures
        value == pair_value(chars@, at as int),
        value <= 99,
{
    let tens = match value_of(chars[at]) {
        Some(d) => d,
        None => 0,
    };
    let ones = match value_of(chars[at + 1]) {
        Some(d) => d,
        None => 0,
    };
    10 * (tens as u32) + (ones as u32)
}

fn shaped(chars: &Vec<char>) -> (yes: bool)
    ensures
        yes == has_shape(chars@),
{
    if chars.len() != 19 {
        return false;
    }
    let mut i: usize = 0;
    while i < 19
        invariant
            i <= 19,
            chars.len() == 19,
            forall|j: int|
                0 <= j < i ==> if j == 4 || j == 7 {
                    chars@[j] == '-'
                } else if j == 10 {
                    chars@[j] == ' '
                } else if j == 13 || j == 16 {
                    chars@[j] == ':'
                } else {
                    is_digit(#[trigger] chars@[j])
                },
        decreases 19 - i,
    {
        let c = chars[i];
        let good = if i == 4 || i == 7 {
            c == '-'
        } else if i == 10 {
            c == ' '
        } else if i == 13 || i == 16 {
            c == ':'
        } else {
            value_of(c).is_some()
        };
        if !good {
            return false;
        }
        i = i + 1;
    }
    true
}

/// Reads an instant written as `YYYY-MM-DD HH:MM:SS`. Nothing but the exact
/// pattern is taken: nineteen characters, every field with all its digits.
pub fn deserialize_human_readable(text: &str) -> (read: Result<Timestamp, ParseError>)
    ensures
        match read {
            Ok(timestamp) => timestamp_of_text(text@) == Some(timestamp@),
            Err(error) => timestamp_of_text(text@) is None && error
                == ParseError::MalformedTimestamp,
        },
{
    let chars = chars_of(text);
    if !shaped(&chars) {
        return Err(ParseError::MalformedTimestamp);
    }
    let year = 100 * pair_at(&chars, 0) + pair_at(&chars, 2);
    let month = pair_at(&chars, 5);
    let day = pair_at(&chars, 8);
    let hour = pair_at(&chars, 11);
    let minute = pair_at(&chars, 14);
    let second = pair_at(&chars, 17);
    match Timestamp::from_civil(year as i32, month, day, hour, minute, second) {
        Some(timestamp) => Ok(timestamp),
        None => Err(ParseError::MalformedTimestamp),
    }
}

} // verus!
