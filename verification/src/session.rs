//! A session: what was worked on, for how long it was planned, and when it
//! began.

use crate::date_time::{
    deserialize_human_readable, human_readable, lemma_civil_of_human_readable,
    serialize_human_readable, timestamp_of_text, CivilTime, Timestamp,
};
use crate::error::ParseError;
use crate::record::{
    lemma_record_fields_of_text, read_record, record_fields, record_text, write_record,
    RecordFields,
};
use crate::text::{chars_of, contains_chars, is_infix};
use vstd::prelude::*;

verus! {

/// What `str::to_lowercase` returns for a text.
pub uninterp spec fn lowercase(text: Seq<char>) -> Seq<char>;

/// Calls `str::to_lowercase`, which maps the text to its lowercase form by
/// the rules of Unicode. Only that the result depends on the text alone is
/// claimed.
#[verifier::external_body]
fn to_lowercase(text: &str) -> (lowered: String)
    ensures
        lowered@ == lowercase(text@),
{
    text.to_lowercase()
}

/// One work session.
#[derive(Clone, Debug, PartialEq, Eq)]
pub struct Session {
    /// What the session is about.
    pub description: String,
    /// The planned length, in whole seconds.
    pub duration: u64,
    /// When the session began.
    pub start: Timestamp,
}

/// A session as a value of the mathematical model.
pub struct SessionView {
    pub description: Seq<char>,
    pub duration: nat,
    pub start: CivilTime,
}

impl View for Session {
    type V = SessionView;

    open spec fn view(&self) -> SessionView {
        SessionView {
            description: self.description@,
            duration: self.duration as nat,
            start: self.start@,
        }
    }
}

impl SessionView {
    /// The instant at which the session is over: its start and its duration.
    pub open spec fn end(self) -> int {
        self.start.instant() + self.duration
    }

    /// The session is still running at `now`: it ends later than `now`.
    pub open spec fn active_at(self, now: CivilTime) -> bool {
        self.end() > now.instant()
    }

    /// The session, from its start up to but without its end, has an
    /// instant in common with the range from `range_start` up to but
    /// without `range_end`.
    pub open spec fn overlaps(self, range_start: CivilTime, range_end: CivilTime) -> bool {
        self.start.instant() < range_end.instant() && self.end() > range_start.instant()
    }

    /// The description holds the query, both taken in lowercase.
    pub open spec fn mentions(self, query: Seq<char>) -> bool {
        is_infix(lowercase(query), lowercase(self.description))
    }

    /// Seconds from the start to `now`; zero where `now` lies before the
    /// start.
    pub open spec fn elapsed(self, now: CivilTime) -> nat {
        if now.instant() >= self.start.instant() {
            (now.instant() - self.start.instant()) as nat
        } else {
            0
        }
    }

    /// The text of the session's record.
    pub open spec fn encoded(self) -> Seq<char> {
        record_text(
            RecordFields {
                description: self.description,
                duration: self.duration as u64,
                start: human_readable(self.start),
            },
        )
    }

    /// Every field holds what a `Session` can hold.
    pub open spec fn valid(self) -> bool {
        self.duration <= u64::MAX && self.start.representable()
    }
}

/// The session that a record text stands for, or why it stands for none.
pub open spec fn decoded(text: Seq<char>) -> Result<SessionView, ParseError> {
    match record_fields(text) {
        None => Err(ParseError::MalformedRecord),
        Some(fields) => match timestamp_of_text(fields.start) {
            None => Err(ParseError::MalformedTimestamp),
            Some(start) => Ok(
                SessionView {
                    description: fields.description,
                    duration: fields.duration as nat,
                    start,
                },
            ),
        },
    }
}

/// Tells whether an interval that begins at `start` and lasts `duration`
/// seconds ends later than `instant`.
pub fn ends_after(start: i64, duration: u64, instant: i64) -> (later: bool)
    ensures
        later == (start + duration > instant),
{
    (start as i128) + (duration as i128) > (instant as i128)
}

/// Tells whether the interval from `start`, `duration` seconds long and
/// without its last instant, meets the range from `range_start` up to but
/// without `range_end`.
pub fn intervals_overlap(start: i64, duration: u64, range_start: i64, range_end: i64) -> (meet: bool)
    ensures
        meet == (start < range_end && start + duration > range_start),
{
    start < range_end && ends_after(start, duration, range_start)
}

/// Seconds from `start` to `now`, zero where `now` lies before `start`.
pub fn seconds_between(start: i64, now: i64) -> (elapsed: u64)
    ensures
        elapsed == if now >= start {
            now - start
        } else {
            0
        },
{
    if now >= start {
        ((now as i128) - (start as i128)) as u64
    } else {
        0
    }
}

/// Whole minutes in a number of seconds.
pub fn duration_in_minutes(seconds: u64) -> (minutes: u64)
    ensures
        minutes == seconds / 60,
{
    seconds / 60
}

/// Tells whether `description` holds `query`, both already in lowercase.
pub fn holds_text(description: &str, query: &str) -> (found: bool)
    ensures
        found == is_infix(query@, description@),
{
    let hay = chars_of(description);
    let needle = chars_of(query);
    contains_chars(&hay, &needle)
}

impl Session {
    /// A copy of the session.
    pub fn duplicate(&self) -> (copy: Session)
        ensures
            copy@ == self@,
    {
        Session { description: self.description.clone(), duration: self.duration, start: self.start }
    }

    /// Seconds since the session began, as seen at `now`. A clock that
    /// went backwards gives zero, never a negative or wrapped number.
    pub fn elapsed_duration(&self, now: &Timestamp) -> (elapsed: u64)
        ensures
            elapsed == self@.elapsed(now@),
    {
        seconds_between(self.start.unix_seconds(), now.unix_seconds())
    }

    /// Tells whether the session is still running at `now`. A session that
    /// ends exactly at `now` is over.
    pub fn is_active(&self, now: &Timestamp) -> (active: bool)
        ensures
            active == self@.active_at(now@),
    {
        ends_after(self.start.unix_seconds(), self.duration, now.unix_seconds())
    }

    /// Tells whether the session meets the range from `range_start` up to
    /// but without `range_end`.
    pub fn is_in_range(&self, range_start: &Timestamp, range_end: &Timestamp) -> (inside: bool)
        ensures
            inside == self@.overlaps(range_start@, range_end@),
    {
        intervals_overlap(
            self.start.unix_seconds(),
            self.duration,
            range_start.unix_seconds(),
            range_end.unix_seconds(),
        )
    }

    /// Tells whether the description holds `query`, letter case aside.
    pub fn matches_query(&self, query: &str) -> (found: bool)
        ensures
            found == self@.mentions(query@),
    {
        let description = to_lowercase(self.description.as_str());
        let wanted = to_lowercase(query);
        holds_text(description.as_str(), wanted.as_str())
    }

    /// The text of the session's record.
    pub fn encode(&self) -> (text: String)
        ensures
            text@ == self@.encoded(),
            decoded(text@) == Ok::<SessionView, ParseError>(self@),
    {
        let start = serialize_human_readable(&self.start);
        proof {
            lemma_round_trip(self@);
        }
        write_record(self.description.as_str(), self.duration, start.as_str())
    }

    /// Reads a session from the text of its record.
    pub fn decode(text: &str) -> (read: Result<Session, ParseError>)
        ensures
            match read {
                Ok(session) => decoded(text@) == Ok::<SessionView, ParseError>(session@),
                Err(error) => decoded(text@) == Err::<SessionView, ParseError>(error),
            },
    {
        let raw = match read_record(text) {
            Some(raw) => raw,
            None => {
                return Err(ParseError::MalformedRecord);
            },
        };
        match deserialize_human_readable(raw.start.as_str()) {
            Ok(start) => Ok(Session { description: raw.description, duration: raw.duration, start }),
            Err(_) => Err(ParseError::MalformedTimestamp),
        }
    }
}

/// Reading the record of a session gives the session back: `decoded` after
/// `encoded` is the identity on every session that a `Session` can hold.
pub proof fn lemma_round_trip(session: SessionView)
    requires
        session.valid(),
    ensures
        decoded(session.encoded()) == Ok::<SessionView, ParseError>(session),
{
    let fields = RecordFields {
        description: session.description,
        duration: session.duration as u64,
        start: human_readable(session.start),
    };
    lemma_record_fields_of_text(fields);
    lemma_civil_of_human_readable(session.start);
}

/// A session that begins `duration` seconds before `now` ends exactly at
/// `now` and is over; one that ends a second later is still running.
pub proof fn lemma_active_boundary(session: SessionView, now: CivilTime)
    ensures
        session.end() == now.instant() ==> !session.active_at(now),
        session.end() == now.instant() + 1 ==> session.active_at(now),
{
}

/// A session that ends exactly where a range begins is outside the range,
/// and so is one that begins exactly where the range ends.
pub proof fn lemma_range_boundaries(
    session: SessionView,
    range_start: CivilTime,
    range_end: CivilTime,
)
    ensures
        session.end() == range_start.instant() ==> !session.overlaps(range_start, range_end),
        session.start.instant() == range_end.instant() ==> !session.overlaps(
            range_start,
            range_end,
        ),
        session.start.instant() < range_end.instant() && session.end() > range_start.instant()
            ==> session.overlaps(range_start, range_end),
{
}

} // verus!
