use pomodoro_timer::config::{Config, PomodoroConfig};
use pomodoro_timer::date_time::Timestamp;
use pomodoro_timer::error::{ParseError, StoreError};
use pomodoro_timer::service::{
    active_sessions, is_session_file, sessions_in_range, status_of, DirectoryEntry, FileContents,
    SessionService,
};
use pomodoro_timer::session::{
    duration_in_minutes, ends_after, holds_text, intervals_overlap, seconds_between, Session,
};

fn at(year: i32, month: u32, day: u32, hour: u32, minute: u32, second: u32) -> Timestamp {
    Timestamp::from_civil(year, month, day, hour, minute, second).unwrap()
}

fn session(description: &str, duration: u64, start: Timestamp) -> Session {
    Session { description: description.to_string(), duration, start }
}

fn service() -> SessionService {
    SessionService {
        pomodoro_session_dir: "/tmp/sessions".to_string(),
        pomodoro_status_path: "/tmp/status".to_string(),
    }
}

fn entry(path: &str, session: &Session) -> DirectoryEntry {
    DirectoryEntry { path: path.to_string(), contents: FileContents::Text(session.encode()) }
}

fn text_entry(path: &str, text: &str) -> DirectoryEntry {
    DirectoryEntry { path: path.to_string(), contents: FileContents::Text(text.to_string()) }
}

#[test]
fn active_session_boundary() {
    let now = at(2024, 1, 10, 12, 0, 0);
    let ends_now = session("over", 1500, at(2024, 1, 10, 11, 35, 0));
    let ends_a_second_later = session("running", 1501, at(2024, 1, 10, 11, 35, 0));
    assert!(!ends_now.is_active(&now));
    assert!(ends_a_second_later.is_active(&now));
    let listed = vec![entry("a.yaml", &ends_now), entry("b.yaml", &ends_a_second_later)];
    assert_eq!(service().find_all_active_sessions(&listed, &now), Ok(vec![ends_a_second_later]));
}

#[test]
fn a_session_that_has_not_begun_is_active() {
    let now = at(2024, 1, 10, 12, 0, 0);
    assert!(session("later", 0, at(2024, 1, 10, 12, 0, 1)).is_active(&now));
    assert!(!session("empty", 0, now).is_active(&now));
}

#[test]
fn range_overlap_exactness() {
    let range_start = at(2024, 1, 10, 0, 0, 0);
    let range_end = at(2024, 1, 10, 23, 59, 59);
    let overlapping = session("late", 20 * 60, at(2024, 1, 9, 23, 50, 0));
    let touching = session("touch", 10 * 60, at(2024, 1, 9, 23, 50, 0));
    assert!(overlapping.is_in_range(&range_start, &range_end));
    assert!(!touching.is_in_range(&range_start, &range_end));
    let listed = vec![entry("1.yaml", &touching), entry("2.yaml", &overlapping)];
    assert_eq!(
        service().find_sessions_in_range(&listed, &range_start, &range_end, None),
        Ok(vec![overlapping])
    );
}

#[test]
fn range_end_is_exclusive() {
    let range_start = at(2024, 1, 10, 0, 0, 0);
    let range_end = at(2024, 1, 10, 23, 59, 59);
    assert!(!session("at end", 60, range_end).is_in_range(&range_start, &range_end));
    assert!(session("before end", 60, at(2024, 1, 10, 23, 59, 58)).is_in_range(&range_start, &range_end));
    assert!(session("inside", 60, at(2024, 1, 10, 12, 0, 0)).is_in_range(&range_start, &range_end));
    assert!(session("around", 3 * 86_400, at(2024, 1, 9, 0, 0, 0)).is_in_range(&range_start, &range_end));
    assert!(!session("after", 60, at(2024, 1, 11, 0, 0, 0)).is_in_range(&range_start, &range_end));
}

#[test]
fn case_insensitive_search() {
    let s = session("Write Report", 1500, at(2024, 1, 10, 9, 0, 0));
    assert!(s.matches_query("report"));
    assert!(s.matches_query("REPORT"));
    assert!(s.matches_query("Write Report"));
    assert!(s.matches_query("e r"));
    assert!(s.matches_query(""));
    assert!(!s.matches_query("reports"));
    assert!(!s.matches_query("review"));
}

#[test]
fn search_narrows_a_range() {
    let range_start = at(2024, 1, 10, 0, 0, 0);
    let range_end = at(2024, 1, 11, 0, 0, 0);
    let report = session("Write Report", 1500, at(2024, 1, 10, 9, 0, 0));
    let mail = session("Answer mail", 1500, at(2024, 1, 10, 10, 0, 0));
    let old_report = session("Report draft", 1500, at(2024, 1, 8, 10, 0, 0));
    let listed = vec![entry("1.yaml", &report), entry("2.yaml", &mail), entry("3.yaml", &old_report)];
    assert_eq!(
        service().find_sessions_in_range(&listed, &range_start, &range_end, Some("REPORT".to_string())),
        Ok(vec![report.clone()])
    );
    assert_eq!(
        service().find_sessions_in_range(&listed, &range_start, &range_end, None),
        Ok(vec![report, mail])
    );
}

#[test]
fn status_projection() {
    let now = at(2024, 1, 10, 12, 10, 3);
    let focus = session("Focus", 25 * 60, at(2024, 1, 10, 12, 0, 0));
    let status = service().update_pomodoro_status(&vec![entry("f.yaml", &focus)], &now);
    assert_eq!(status.contents, "Focus - 25/10");
    assert_eq!(status.path, "/tmp/status");
    assert_eq!(status_of(&focus, &now), "Focus - 25/10");
}

#[test]
fn status_truncates_minutes() {
    let start = at(2024, 1, 10, 12, 0, 0);
    let s = session("t", 119, start);
    assert_eq!(status_of(&s, &at(2024, 1, 10, 12, 0, 59)), "t - 1/0");
    assert_eq!(status_of(&s, &at(2024, 1, 10, 12, 1, 0)), "t - 1/1");
    assert_eq!(status_of(&s, &at(2024, 1, 10, 12, 1, 59)), "t - 1/1");
}

#[test]
fn no_active_sessions_give_an_empty_status() {
    let now = at(2024, 1, 10, 12, 0, 0);
    assert_eq!(service().update_pomodoro_status(&vec![], &now).contents, "");
    let over = session("over", 60, at(2024, 1, 10, 11, 0, 0));
    let status = service().update_pomodoro_status(&vec![entry("o.yaml", &over)], &now);
    assert_eq!(status.contents, "");
    assert_eq!(status.path, "/tmp/status");
}

#[test]
fn status_shows_the_first_running_session_of_the_listing() {
    let now = at(2024, 1, 10, 12, 0, 0);
    let over = session("over", 60, at(2024, 1, 10, 11, 0, 0));
    let first = session("first", 3600, at(2024, 1, 10, 11, 30, 0));
    let second = session("second", 3600, at(2024, 1, 10, 11, 45, 0));
    let listed = vec![entry("0.yaml", &over), entry("1.yaml", &first), entry("2.yaml", &second)];
    assert_eq!(service().update_pomodoro_status(&listed, &now).contents, "first - 60/30");
}

#[test]
fn status_of_an_unlistable_directory_is_empty() {
    let now = at(2024, 1, 10, 12, 0, 0);
    let running = session("running", 3600, at(2024, 1, 10, 11, 30, 0));
    let listed = vec![entry("1.yaml", &running), text_entry("2.yaml", "broken")];
    assert_eq!(service().update_pomodoro_status(&listed, &now).contents, "");
}

#[test]
fn corrupt_file_handling() {
    let good = session("good", 60, at(2024, 1, 10, 11, 0, 0));
    let bad = "description: \"bad\"\nduration:\n  secs: 60\n  nanos: 0\nstart: not a time\n";
    let listed = vec![entry("/s/good.yaml", &good), text_entry("/s/bad.yaml", bad)];
    let expected = StoreError::Corrupt {
        path: "/s/bad.yaml".to_string(),
        cause: ParseError::MalformedTimestamp,
    };
    assert_eq!(service().load_sessions(&listed), Err(expected.clone()));
    let now = at(2024, 1, 10, 11, 0, 30);
    assert_eq!(service().find_all_active_sessions(&listed, &now), Err(expected.clone()));
    assert_eq!(service().find_sessions_in_range(&listed, &now, &now, None), Err(expected));
}

#[test]
fn the_first_failure_of_the_listing_wins() {
    let listed = vec![
        text_entry("/s/a.yaml", "nothing"),
        text_entry("/s/b.yaml", "description: \"\"\nduration:\n  secs: 1\nstart: x\n"),
        DirectoryEntry {
            path: "/s/c.yaml".to_string(),
            contents: FileContents::Unreadable("permission denied".to_string()),
        },
    ];
    assert_eq!(
        service().load_sessions(&listed),
        Err(StoreError::Corrupt { path: "/s/a.yaml".to_string(), cause: ParseError::MalformedRecord })
    );
    assert_eq!(
        service().load_sessions(&listed[1..].to_vec()),
        Err(StoreError::Corrupt { path: "/s/b.yaml".to_string(), cause: ParseError::MalformedTimestamp })
    );
    assert_eq!(
        service().load_sessions(&listed[2..].to_vec()),
        Err(StoreError::Io { message: "permission denied".to_string() })
    );
}

#[test]
fn other_files_are_passed_over() {
    let good = session("good", 60, at(2024, 1, 10, 11, 0, 0));
    let listed = vec![
        text_entry("/s/notes.txt", "not a record"),
        DirectoryEntry {
            path: "/s/lock".to_string(),
            contents: FileContents::Unreadable("busy".to_string()),
        },
        entry("/s/20240110110000-session.yaml", &good),
        text_entry("/s/.yaml", "hidden, no record"),
        text_entry("/s/backup.yaml.old", "not a record"),
    ];
    assert_eq!(service().load_sessions(&listed), Ok(vec![good]));
}

#[test]
fn load_keeps_the_order_of_the_listing() {
    let a = session("a", 1, at(2024, 1, 10, 11, 0, 0));
    let b = session("b", 2, at(2024, 1, 9, 11, 0, 0));
    let c = session("c", 3, at(2024, 1, 11, 11, 0, 0));
    let listed = vec![entry("1.yaml", &a), entry("2.yaml", &b), entry("3.yaml", &c)];
    assert_eq!(service().load_sessions(&listed), Ok(vec![a, b, c]));
    assert_eq!(service().load_sessions(&vec![]), Ok(vec![]));
}

#[test]
fn is_session_file_goes_by_the_extension() {
    assert!(is_session_file("20240110110000-session.yaml"));
    assert!(is_session_file("/tmp/sessions/20240110110000-session.yaml"));
    assert!(is_session_file("a.yaml"));
    assert!(!is_session_file(".yaml"));
    assert!(!is_session_file("/tmp/sessions/.yaml"));
    assert!(!is_session_file("yaml"));
    assert!(!is_session_file("a.yml"));
    assert!(!is_session_file("a.yaml.bak"));
    assert!(!is_session_file("a.YAML"));
    assert!(!is_session_file(""));
}

#[test]
fn start_session_names_the_file_by_the_start() {
    let now = at(2024, 1, 10, 9, 30, 5);
    let file = service().start_session("Test session", 30 * 60, now);
    assert_eq!(file.directory, "/tmp/sessions");
    assert_eq!(file.name, "20240110093005-session.yaml");
    assert!(is_session_file(&file.name));
    assert_eq!(Session::decode(&file.contents), Ok(session("Test session", 1800, now)));
}

#[test]
fn a_started_session_is_listed_again() {
    let now = at(2024, 1, 10, 9, 30, 5);
    let file = service().start_session("Test session", 1800, now);
    let listed = vec![DirectoryEntry {
        path: format!("{}/{}", file.directory, file.name),
        contents: FileContents::Text(file.contents),
    }];
    assert_eq!(service().load_sessions(&listed), Ok(vec![session("Test session", 1800, now)]));
}

#[test]
fn sessions_of_one_second_share_a_file_name() {
    let now = at(2024, 1, 10, 9, 30, 5);
    let first = service().start_session("first", 60, now);
    let second = service().start_session("second", 60, now);
    assert_eq!(first.name, second.name);
    assert_ne!(first.contents, second.contents);
}

#[test]
fn elapsed_duration_counts_seconds_since_the_start() {
    let s = session("s", 1500, at(2024, 1, 10, 12, 0, 0));
    assert_eq!(s.elapsed_duration(&at(2024, 1, 10, 12, 10, 3)), 603);
    assert_eq!(s.elapsed_duration(&at(2024, 1, 10, 12, 0, 0)), 0);
    assert_eq!(s.elapsed_duration(&at(2024, 1, 11, 12, 0, 0)), 86_400);
}

#[test]
fn elapsed_duration_is_zero_when_the_clock_went_back() {
    let s = session("s", 1500, at(2024, 1, 10, 12, 0, 0));
    assert_eq!(s.elapsed_duration(&at(2024, 1, 10, 11, 59, 59)), 0);
    assert_eq!(s.elapsed_duration(&at(1970, 1, 1, 0, 0, 0)), 0);
}

#[test]
fn interval_arithmetic_on_plain_numbers() {
    assert!(ends_after(100, 50, 149));
    assert!(!ends_after(100, 50, 150));
    assert!(ends_after(i64::MAX, u64::MAX, i64::MAX));
    assert!(!ends_after(i64::MIN, 0, i64::MIN));
    assert!(intervals_overlap(100, 50, 149, 200));
    assert!(!intervals_overlap(100, 50, 150, 200));
    assert!(!intervals_overlap(200, 50, 0, 200));
    assert!(intervals_overlap(199, 50, 0, 200));
    assert_eq!(seconds_between(100, 703), 603);
    assert_eq!(seconds_between(703, 100), 0);
    assert_eq!(seconds_between(i64::MIN, i64::MAX), u64::MAX);
    assert_eq!(duration_in_minutes(1500), 25);
    assert_eq!(duration_in_minutes(603), 10);
    assert_eq!(duration_in_minutes(59), 0);
}

#[test]
fn holds_text_compares_as_given() {
    assert!(holds_text("write report", "report"));
    assert!(!holds_text("write report", "Report"));
}

#[test]
fn filters_keep_the_order() {
    let now = at(2024, 1, 10, 12, 0, 0);
    let a = session("a", 7200, at(2024, 1, 10, 11, 0, 0));
    let b = session("b", 60, at(2024, 1, 10, 11, 0, 0));
    let c = session("c", 7200, at(2024, 1, 10, 10, 30, 0));
    let all = vec![a.clone(), b.clone(), c.clone()];
    assert_eq!(active_sessions(&all, &now), vec![a.clone(), c.clone()]);
    let from = at(2024, 1, 10, 11, 0, 30);
    let to = at(2024, 1, 10, 11, 1, 0);
    assert_eq!(sessions_in_range(&all, &from, &to, &None), vec![a.clone(), b.clone(), c]);
    assert_eq!(sessions_in_range(&all, &from, &to, &Some("B".to_string())), vec![b]);
    assert_eq!(a.duplicate(), a);
}

#[test]
fn errors_in_words() {
    assert_eq!(ParseError::MalformedRecord.message(), "malformed record");
    assert_eq!(ParseError::MalformedTimestamp.message(), "malformed timestamp");
    assert_eq!(StoreError::Io { message: "disk on fire".to_string() }.message(), "disk on fire");
    assert_eq!(
        StoreError::Corrupt { path: "/s/a.yaml".to_string(), cause: ParseError::MalformedTimestamp }
            .message(),
        "/s/a.yaml: malformed timestamp"
    );
}

#[test]
fn service_from_config() {
    let config = Config {
        pomodoro_config: PomodoroConfig {
            pomodoro_session_dir: "/data/sessions".to_string(),
            pomodoro_status_path: "/data/status".to_string(),
        },
    };
    let made = SessionService::from_config(&config);
    assert_eq!(made.pomodoro_session_dir, "/data/sessions");
    assert_eq!(made.pomodoro_status_path, "/data/status");
}
