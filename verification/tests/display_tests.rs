use pomodoro_timer::date_time::Timestamp;
use pomodoro_timer::display::{export_to_ascii_table, print_table, sort_by_start, TableRow};
use pomodoro_timer::session::Session;

fn at(day: u32, hour: u32, minute: u32) -> Timestamp {
    Timestamp::from_civil(2024, 1, day, hour, minute, 0).unwrap()
}

fn session(description: &str, duration: u64, start: Timestamp) -> Session {
    Session { description: description.to_string(), duration, start }
}

const HEADING: &str = "|   No   |           Start       |   Dauer   |     Beschreibung   |\n|--------|-----------------------|-----------|--------------------|\n";

#[test]
fn export_of_nothing_is_heading_and_total() {
    let expected = format!(
        "{}| Total  |            --         | 00:00     |      --------      |\n",
        HEADING
    );
    assert_eq!(export_to_ascii_table(&vec![]), expected);
}

#[test]
fn export_lists_sessions_by_start() {
    let late = session("Answer mail", 10 * 60 + 5, at(10, 14, 0));
    let early = session("Write report", 25 * 60, at(10, 9, 30));
    let expected = format!(
        "{}{}{}{}",
        HEADING,
        "|      1 | 2024-01-10 09:30:00   | 25:00     | Write report       |\n",
        "|      2 | 2024-01-10 14:00:00   | 10:05     | Answer mail        |\n",
        "| Total  |            --         | 00:35     |      --------      |\n",
    );
    assert_eq!(export_to_ascii_table(&vec![late, early]), expected);
}

#[test]
fn export_rows_match_the_formatter_of_std() {
    let s = session("ä long description that does not fit", 3 * 3600 + 7, at(9, 23, 59));
    let row = format!(
        "| {:6} | {:21} | {:9} | {:18} |\n",
        1,
        "2024-01-09 23:59:00",
        format!("{:02}:{:02}", 180, 7),
        "ä long description that does not fit"
    );
    let total = format!(
        "| Total  |            --         | {:02}:{:02}     |      --------      |\n",
        3, 0
    );
    assert_eq!(export_to_ascii_table(&vec![s]), format!("{}{}{}", HEADING, row, total));
}

#[test]
fn export_total_counts_whole_minutes_of_the_sum() {
    let sessions = vec![
        session("a", 59, at(1, 0, 0)),
        session("b", 59, at(2, 0, 0)),
        session("c", 100 * 3600, at(3, 0, 0)),
    ];
    let table = export_to_ascii_table(&sessions);
    assert!(table.ends_with("| Total  |            --         | 100:01     |      --------      |\n"));
    assert!(table.contains("|      3 | 2024-01-03 00:00:00   | 6000:00   | c                  |\n"));
}

#[test]
fn export_total_does_not_overflow() {
    let sessions = vec![session("a", u64::MAX, at(1, 0, 0)), session("b", u64::MAX, at(2, 0, 0))];
    let hours = (2 * (u64::MAX as u128)) / 3600;
    let minutes = (2 * (u64::MAX as u128)) / 60 % 60;
    let total = format!(
        "| Total  |            --         | {:02}:{:02}     |      --------      |\n",
        hours, minutes
    );
    assert!(export_to_ascii_table(&sessions).ends_with(&total));
}

#[test]
fn sort_is_by_start_and_stable() {
    let a = session("a", 1, at(10, 9, 0));
    let b = session("b", 2, at(9, 9, 0));
    let c = session("c", 3, at(10, 9, 0));
    let d = session("d", 4, at(8, 9, 0));
    let sorted = sort_by_start(&vec![a.clone(), b.clone(), c.clone(), d.clone()]);
    assert_eq!(sorted, vec![d, b, a, c]);
    assert_eq!(sort_by_start(&vec![]), vec![]);
}

#[test]
fn print_table_gives_one_row_for_each_session() {
    let sessions = vec![
        session("Write report", 25 * 60 + 59, at(10, 9, 30)),
        session("", 0, at(11, 0, 0)),
    ];
    assert_eq!(
        print_table(&sessions),
        vec![
            TableRow {
                description: "Write report".to_string(),
                duration: "25".to_string(),
                start: "2024-01-10 09:30:00".to_string(),
            },
            TableRow {
                description: "".to_string(),
                duration: "0".to_string(),
                start: "2024-01-11 00:00:00".to_string(),
            },
        ]
    );
}
