//! The directory of records: which file a new session goes to, which
//! sessions a listing of the directory holds, and what the status file says.
//!
//! Nothing here touches the disk. A caller lists the directory, reads the
//! files and hands over what it found; it gets back sessions, or the file
//! that it is to write.

use crate::config::Config;
use crate::date_time::{compact, CivilTime, Timestamp};
use crate::error::{ParseError, StoreError, StoreErrorView};
use crate::session::{decoded, duration_in_minutes, Session, SessionView};
use crate::text::{chars_of, decimal, push_decimal};
use vstd::prelude::*;
use vstd::string::StringExecFns;

verus! {

/// What reading a file gave.
#[derive(Clone, Debug, PartialEq, Eq)]
pub enum FileContents {
    /// The text of the file.
    Text(String),
    /// The file could not be read; the message says why.
    Unreadable(String),
}

/// One entry of the session directory, as the caller found it.
#[derive(Clone, Debug, PartialEq, Eq)]
pub struct DirectoryEntry {
    /// The path of the entry.
    pub path: String,
    /// What reading the entry gave.
    pub contents: FileContents,
}

/// A file that the caller is to create in a directory.
#[derive(Clone, Debug, PartialEq, Eq)]
pub struct SessionFile {
    pub directory: String,
    pub name: String,
    pub contents: String,
}

/// What the caller is to put in the place of the status file's contents.
#[derive(Clone, Debug, PartialEq, Eq)]
pub struct StatusFile {
    pub path: String,
    pub contents: String,
}

/// The store of sessions: a directory of records and a status file.
#[derive(Clone, Debug, PartialEq, Eq)]
pub struct SessionService {
    pub pomodoro_session_dir: String,
    pub pomodoro_status_path: String,
}

/// The sessions of a sequence as values of the model.
pub open spec fn views(sessions: Seq<Session>) -> Seq<SessionView> {
    sessions.map_values(|session: Session| session@)
}

/// Tells whether a path names a record: it ends in `.yaml`, and the file
/// name has at least one character in front of that.
pub open spec fn is_session_path(path: Seq<char>) -> bool {
    let n = path.len() as int;
    n > 5 && path.subrange(n - 5, n) == ".yaml"@ && path[n - 6] != '/'
}

/// The name of the file for a session that begins at `start`.
pub open spec fn file_name(start: CivilTime) -> Seq<char> {
    compact(start) + "-session.yaml"@
}

/// The sessions that a listing of the directory holds, in the order of the
/// listing. Entries that do not name a record are passed over. The first
/// record that could not be read, or that holds no session, ends the
/// listing with its error.
pub open spec fn listed(entries: Seq<DirectoryEntry>) -> Result<Seq<SessionView>, StoreErrorView>
    decreases entries.len(),
{
    if entries.len() == 0 {
        Ok(Seq::empty())
    } else if !is_session_path(entries[0].path@) {
        listed(entries.skip(1))
    } else {
        match entries[0].contents {
            FileContents::Unreadable(message) => Err(StoreErrorView::Io { message: message@ }),
            FileContents::Text(text) => match decoded(text@) {
                Err(cause) => Err(StoreErrorView::Corrupt { path: entries[0].path@, cause }),
                Ok(session) => match listed(entries.skip(1)) {
                    Ok(more) => Ok(seq![session] + more),
                    Err(error) => Err(error),
                },
            },
        }
    }
}

/// The sessions that are still running at `now`.
pub open spec fn running_at(now: CivilTime) -> spec_fn(SessionView) -> bool {
    |session: SessionView| session.active_at(now)
}

/// The sessions that meet the range and, where a query is given, mention it.
pub open spec fn found_in(
    range_start: CivilTime,
    range_end: CivilTime,
    query: Option<Seq<char>>,
) -> spec_fn(SessionView) -> bool {
    |session: SessionView|
        session.overlaps(range_start, range_end) && match query {
            Some(wanted) => session.mentions(wanted),
            None => true,
        }
}

/// The text of a query, if one is given.
pub open spec fn query_text(query: Option<String>) -> Option<Seq<char>> {
    match query {
        Some(text) => Some(text@),
        None => None,
    }
}

/// The status line of a session: the description, the planned minutes and
/// the minutes gone by, both cut down to whole minutes.
pub open spec fn status_line(session: SessionView, now: CivilTime) -> Seq<char> {
    session.description + " - "@ + decimal(session.duration / 60) + "/"@ + decimal(
        session.elapsed(now) / 60,
    )
}

/// What the status file holds: the line of the first running session, and
/// nothing where no session is running or the directory could not be listed.
pub open spec fn status_text(entries: Seq<DirectoryEntry>, now: CivilTime) -> Seq<char> {
    match listed(entries) {
        Ok(all) => {
            let running = all.filter(running_at(now));
            if running.len() == 0 {
                Seq::empty()
            } else {
                status_line(running[0], now)
            }
        },
        Err(_) => Seq::empty(),
    }
}

proof fn lemma_filter_step(all: Seq<SessionView>, i: int, keep: spec_fn(SessionView) -> bool)
    requires
        0 <= i < all.len(),
    ensures
        all.take(i + 1).filter(keep) == if keep(all[i]) {
            all.take(i).filter(keep).push(all[i])
        } else {
            all.take(i).filter(keep)
        },
{
    reveal(Seq::filter);
    assert(all.take(i + 1).drop_last() =~= all.take(i));
}

/// Tells whether a path names a record.
pub fn is_session_file(path: &str) -> (yes: bool)
    ensures
        yes == is_session_path(path@),
{
    let chars = chars_of(path);
    let suffix = chars_of(".yaml");
    proof {
        reveal_strlit(".yaml");
    }
    let n = chars.len();
    if n <= 5 {
        return false;
    }
    let ghost tail = chars@.subrange(n - 5, n as int);
    let mut i: usize = 0;
    while i < 5
        invariant
            i <= 5,
            n == chars.len(),
            n > 5,
            chars@ == path@,
            suffix@ == ".yaml"@,
            suffix@.len() == 5,
            tail == chars@.subrange(n - 5, n as int),
            forall|j: int| 0 <= j < i ==> tail[j] == suffix@[j],
        decreases 5 - i,
    {
        if chars[n - 5 + i] != suffix[i] {
            assert(tail[i as int] != suffix@[i as int]);
            return false;
        }
        assert(tail[i as int] == suffix@[i as int]);
        i = i + 1;
    }
    assert(tail =~= suffix@);
    chars[n - 6] != '/'
}

/// The sessions of `all` that are still running at `now`, in their order.
pub fn active_sessions(all: &Vec<Session>, now: &Timestamp) -> (kept: Vec<Session>)
    ensures
        views(kept@) == views(all@).filter(running_at(now@)),
{
    let mut kept: Vec<Session> = Vec::new();
    let mut i: usize = 0;
    proof {
        reveal(Seq::filter);
        assert(views(all@).take(0) =~= Seq::<SessionView>::empty());
        assert(views(kept@) =~= Seq::<SessionView>::empty());
    }
    while i < all.len()
        invariant
            i <= all.len(),
            views(kept@) == views(all@).take(i as int).filter(running_at(now@)),
        decreases all.len() - i,
    {
        proof {
            lemma_filter_step(views(all@), i as int, running_at(now@));
        }
        if all[i].is_active(now) {
            let copy = all[i].duplicate();
            let ghost before = kept@;
            kept.push(copy);
            assert(views(kept@) =~= views(before).push(copy@));
        }
        i = i + 1;
    }
    assert(views(all@).take(all.len() as int) =~= views(all@));
    kept
}

/// The sessions of `all` that meet the range and mention the query, in
/// their order.
pub fn sessions_in_range(
    all: &Vec<Session>,
    range_start: &Timestamp,
    range_end: &Timestamp,
    search_query: &Option<String>,
) -> (kept: Vec<Session>)
    ensures
        views(kept@) == views(all@).filter(
            found_in(range_start@, range_end@, query_text(*search_query)),
        ),
{
    let ghost wanted: Option<Seq<char>> = query_text(*search_query);
    let ghost keep = found_in(range_start@, range_end@, wanted);
    let mut kept: Vec<Session> = Vec::new();
    let mut i: usize = 0;
    proof {
        reveal(Seq::filter);
        assert(views(all@).take(0) =~= Seq::<SessionView>::empty());
        assert(views(kept@) =~= Seq::<SessionView>::empty());
    }
    while i < all.len()
        invariant
            i <= all.len(),
            wanted == query_text(*search_query),
            keep == found_in(range_start@, range_end@, wanted),
            views(kept@) == views(all@).take(i as int).filter(keep),
        decreases all.len() - i,
    {
        proof {
            lemma_filter_step(views(all@), i as int, keep);
        }
        let in_time = all[i].is_in_range(range_start, range_end);
        let matches = in_time && match search_query {
            Some(query) => all[i].matches_query(query.as_str()),
            None => true,
        };
        if matches {
            let copy = all[i].duplicate();
            let ghost before = kept@;
            kept.push(copy);
            assert(views(kept@) =~= views(before).push(copy@));
        }
        i = i + 1;
    }
    assert(views(all@).take(all.len() as int) =~= views(all@));
    kept
}

/// The status line of a session as seen at `now`.
pub fn status_of(session: &Session, now: &Timestamp) -> (line: String)
    ensures
        line@ == status_line(session@, now@),
{
    let mut line = session.description.clone();
    line.append(" - ");
    push_decimal(&mut line, duration_in_minutes(session.duration));
    line.append("/");
    push_decimal(&mut line, duration_in_minutes(session.elapsed_duration(now)));
    line
}

impl SessionService {
    /// The store that a configuration describes.
    pub fn from_config(config: &Config) -> (service: SessionService)
        ensures
            service.pomodoro_session_dir@ == config.pomodoro_config.pomodoro_session_dir@,
            service.pomodoro_status_path@ == config.pomodoro_config.pomodoro_status_path@,
    {
        SessionService {
            pomodoro_session_dir: config.pomodoro_config.pomodoro_session_dir.clone(),
            pomodoro_status_path: config.pomodoro_config.pomodoro_status_path.clone(),
        }
    }

    /// Begins a session at `now`: gives the file that holds its record. The
    /// file goes to the session directory under a name made of the start,
    /// so that two sessions begun in the same second share one file.
    pub fn start_session(&self, description: &str, duration_seconds: u64, now: Timestamp) -> (file:
        SessionFile)
        ensures
            file.directory@ == self.pomodoro_session_dir@,
            file.name@ == file_name(now@),
            is_session_path(file.name@),
            file.contents@ == (SessionView {
                description: description@,
                duration: duration_seconds as nat,
                start: now@,
            }).encoded(),
            decoded(file.contents@) == Ok::<SessionView, ParseError>(
                SessionView {
                    description: description@,
                    duration: duration_seconds as nat,
                    start: now@,
                },
            ),
    {
        let session = Session {
            description: String::from_str(description),
            duration: duration_seconds,
            start: now,
        };
        let mut name = now.file_stamp();
        name.append("-session.yaml");
        proof {
            reveal_strlit("-session.yaml");
            reveal_strlit(".yaml");
            let n = name@.len() as int;
            assert(name@.subrange(n - 5, n) =~= ".yaml"@);
        }
        SessionFile {
            directory: self.pomodoro_session_dir.clone(),
            name,
            contents: session.encode(),
        }
    }

    /// The sessions that a listing of the session directory holds.
    pub fn load_sessions(&self, entries: &Vec<DirectoryEntry>) -> (loaded: Result<
        Vec<Session>,
        StoreError,
    >)
        ensures
            match loaded {
                Ok(sessions) => listed(entries@) == Ok::<Seq<SessionView>, StoreErrorView>(
                    views(sessions@),
                ),
                Err(error) => listed(entries@) == Err::<Seq<SessionView>, StoreErrorView>(error@),
            },
    {
        let mut sessions: Vec<Session> = Vec::new();
        let mut i: usize = 0;
        proof {
            assert(entries@.skip(0) =~= entries@);
            assert(views(sessions@) =~= Seq::<SessionView>::empty());
            match listed(entries@) {
                Ok(more) => {
                    assert(Seq::<SessionView>::empty() + more =~= more);
                },
                Err(_) => {},
            }
        }
        while i < entries.len()
            invariant
                i <= entries.len(),
                listed(entries@) == match listed(entries@.skip(i as int)) {
                    Ok(more) => Ok::<Seq<SessionView>, StoreErrorView>(views(sessions@) + more),
                    Err(error) => Err(error),
                },
            decreases entries.len() - i,
        {
            let entry = &entries[i];
            proof {
                let rest = entries@.skip(i as int);
                assert(rest[0] == entries@[i as int]);
                assert(rest.skip(1) =~= entries@.skip(i + 1));
            }
            if is_session_file(entry.path.as_str()) {
                match &entry.contents {
                    FileContents::Unreadable(message) => {
                        return Err(StoreError::Io { message: message.clone() });
                    },
                    FileContents::Text(text) => match Session::decode(text.as_str()) {
                        Err(cause) => {
                            return Err(StoreError::Corrupt { path: entry.path.clone(), cause });
                        },
                        Ok(session) => {
                            let ghost before = sessions@;
                            let ghost one = session@;
                            sessions.push(session);
                            proof {
                                assert(views(sessions@) =~= views(before).push(one));
                                match listed(entries@.skip(i + 1)) {
                                    Ok(more) => {
                                        assert(views(sessions@) + more =~= views(before) + (seq![
                                            one,
                                        ] + more));
                                    },
                                    Err(_) => {},
                                }
                            }
                        },
                    },
                }
            }
            i = i + 1;
        }
        proof {
            assert(entries@.skip(i as int) =~= Seq::<DirectoryEntry>::empty());
            assert(views(sessions@) + Seq::<SessionView>::empty() =~= views(sessions@));
        }
        Ok(sessions)
    }

    /// The sessions of the directory that are still running at `now`.
    pub fn find_all_active_sessions(&self, entries: &Vec<DirectoryEntry>, now: &Timestamp) -> (found:
        Result<Vec<Session>, StoreError>)
        ensures
            match found {
                Ok(sessions) => listed(entries@) matches Ok(all) && views(sessions@) == all.filter(
                    running_at(now@),
                ),
                Err(error) => listed(entries@) == Err::<Seq<SessionView>, StoreErrorView>(error@),
            },
    {
        match self.load_sessions(entries) {
            Ok(all) => Ok(active_sessions(&all, now)),
            Err(error) => Err(error),
        }
    }

    /// The sessions of the directory that meet the range from `range_start`
    /// up to but without `range_end` and, where a query is given, mention
    /// it in their description.
    pub fn find_sessions_in_range(
        &self,
        entries: &Vec<DirectoryEntry>,
        range_start: &Timestamp,
        range_end: &Timestamp,
        search_query: Option<String>,
    ) -> (found: Result<Vec<Session>, StoreError>)
        ensures
            match found {
                Ok(sessions) => listed(entries@) matches Ok(all) && views(sessions@) == all.filter(
                    found_in(range_start@, range_end@, query_text(search_query)),
                ),
                Err(error) => listed(entries@) == Err::<Seq<SessionView>, StoreErrorView>(error@),
            },
    {
        match self.load_sessions(entries) {
            Ok(all) => Ok(sessions_in_range(&all, range_start, range_end, &search_query)),
            Err(error) => Err(error),
        }
    }

    /// What the status file is to hold at `now`: the line of the first
    /// session of the listing that is still running, and nothing where no
    /// session is running. A directory that cannot be listed counts as one
    /// without a running session. The contents take the place of whatever
    /// the file held before.
    pub fn update_pomodoro_status(&self, entries: &Vec<DirectoryEntry>, now: &Timestamp) -> (status:
        StatusFile)
        ensures
            status.path@ == self.pomodoro_status_path@,
            status.contents@ == status_text(entries@, now@),
    {
        let contents = match self.find_all_active_sessions(entries, now) {
            Ok(running) => if running.len() > 0 {
                status_of(&running[0], now)
            } else {
                String::new()
            },
            Err(_) => String::new(),
        };
        StatusFile { path: self.pomodoro_status_path.clone(), contents }
    }
}

/// Where no session of the listing is running, the status file is empty.
pub proof fn lemma_status_without_running_session(entries: Seq<DirectoryEntry>, now: CivilTime)
    requires
        listed(entries) matches Ok(all) && forall|i: int|
            0 <= i < all.len() ==> !(#[trigger] all[i]).active_at(now),
    ensures
        status_text(entries, now) == Seq::<char>::empty(),
{
    let all = listed(entries)->Ok_0;
    let running = all.filter(running_at(now));
    if running.len() > 0 {
        all.lemma_filter_pred(running_at(now), 0);
        all.lemma_filter_contains_rev(running_at(now), running[0]);
    }
}

/// A directory with one sound record and one record whose start is no
/// date-time cannot be listed: the listing ends with the path of the second
/// and `MalformedTimestamp`, whichever of the two comes first.
pub proof fn lemma_corrupt_start_ends_listing(
    sound: DirectoryEntry,
    corrupt: DirectoryEntry,
    text: Seq<char>,
)
    requires
        is_session_path(sound.path@),
        is_session_path(corrupt.path@),
        sound.contents matches FileContents::Text(t) && decoded(t@) is Ok,
        corrupt.contents matches FileContents::Text(t) && t@ == text,
        decoded(text) == Err::<SessionView, ParseError>(ParseError::MalformedTimestamp),
    ensures
        listed(seq![sound, corrupt]) == Err::<Seq<SessionView>, StoreErrorView>(
            StoreErrorView::Corrupt { path: corrupt.path@, cause: ParseError::MalformedTimestamp },
        ),
        listed(seq![corrupt, sound]) == Err::<Seq<SessionView>, StoreErrorView>(
            StoreErrorView::Corrupt { path: corrupt.path@, cause: ParseError::MalformedTimestamp },
        ),
{
    let first = seq![sound, corrupt];
    assert(first.skip(1) =~= seq![corrupt]);
    assert(seq![corrupt].skip(1) =~= Seq::<DirectoryEntry>::empty());
    reveal_with_fuel(listed, 3);
}

} // verus!
