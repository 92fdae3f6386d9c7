use chrono::{Datelike, NaiveDate, NaiveTime};
use time_logger::clock::{Moment, Reading};
use time_logger::record::{closing_text, opening_text};
use time_logger::session::{begin_session, infer_state, infer_state_of_log, Interaction, SessionState};
use time_logger::storage::{
    construct_project_path, get_todays_filename, listed_project_path, parse_tasks, task_line,
    week_folder, PROYECTS_PATH, WEEKS_PATH,
};
use time_logger::text::{is_space, trim};
use time_logger::selector::{Action, Creation, Key, Selector};
use time_logger::closing_note::NoteAction;

fn at(hour: u32, minute: u32) -> Moment {
    Moment::new(Reading { year: 2024, week: 7, month: 2, day: 14, hour, minute }).unwrap()
}

fn labels(items: &[&str]) -> Vec<String> {
    items.iter().map(|s| s.to_string()).collect()
}

#[test]
fn reading_within_ranges_is_a_moment() {
    let r = Reading { year: 2024, week: 7, month: 2, day: 14, hour: 9, minute: 5 };
    let m = Moment::new(r).unwrap();
    assert_eq!(m.reading(), r);
    let low = Reading { year: i32::MIN, week: 1, month: 1, day: 1, hour: 0, minute: 0 };
    assert_eq!(Moment::new(low).unwrap().reading(), low);
    let high = Reading { year: i32::MAX, week: 53, month: 12, day: 31, hour: 23, minute: 59 };
    assert_eq!(Moment::new(high).unwrap().reading(), high);
}

#[test]
fn reading_out_of_range_is_no_moment() {
    let good = Reading { year: 2024, week: 7, month: 2, day: 14, hour: 9, minute: 5 };
    assert!(Moment::new(Reading { week: 0, ..good }).is_none());
    assert!(Moment::new(Reading { week: 54, ..good }).is_none());
    assert!(Moment::new(Reading { month: 0, ..good }).is_none());
    assert!(Moment::new(Reading { month: 13, ..good }).is_none());
    assert!(Moment::new(Reading { day: 0, ..good }).is_none());
    assert!(Moment::new(Reading { day: 32, ..good }).is_none());
    assert!(Moment::new(Reading { hour: 24, ..good }).is_none());
    assert!(Moment::new(Reading { minute: 60, ..good }).is_none());
}

#[test]
fn open_record_has_no_line_feed() {
    assert_eq!(opening_text(&at(9, 5), "Alpha", "Bug"), "09:05 Alpha_Bug (");
    assert_eq!(opening_text(&at(23, 59), "Alpha", "Bug"), "23:59 Alpha_Bug (");
    assert_eq!(opening_text(&at(0, 0), "", ""), "00:00 _ (");
}

#[test]
fn labels_get_hyphens_for_spaces() {
    assert_eq!(
        opening_text(&at(14, 30), "Big project", "fix the  bug"),
        "14:30 Big-project_fix-the--bug ("
    );
    assert_eq!(opening_text(&at(14, 30), " a ", " b "), "14:30 -a-_-b- (");
}

#[test]
fn project_label_loses_its_txt_ending() {
    assert_eq!(opening_text(&at(9, 5), "Alpha.txt", "Bug"), "09:05 Alpha_Bug (");
    assert_eq!(opening_text(&at(9, 5), "My notes.txt", "Bug"), "09:05 My-notes_Bug (");
    assert_eq!(opening_text(&at(9, 5), ".txt", "Bug"), "09:05 _Bug (");
    assert_eq!(opening_text(&at(9, 5), "a.txt.txt", "Bug"), "09:05 a.txt_Bug (");
    assert_eq!(opening_text(&at(9, 5), "a.txt b", "Bug"), "09:05 a.txt-b_Bug (");
    assert_eq!(opening_text(&at(9, 5), "txt", "Bug"), "09:05 txt_Bug (");
}

#[test]
fn task_label_keeps_a_txt_ending() {
    assert_eq!(opening_text(&at(9, 5), "Alpha", "read.txt"), "09:05 Alpha_read.txt (");
}

#[test]
fn closing_write_ends_with_a_line_feed() {
    assert_eq!(closing_text("fixed it", &at(10, 45)), "fixed it) 10:45\n");
    assert_eq!(closing_text("", &at(0, 7)), ") 00:07\n");
    assert_eq!(closing_text(" spaced out ", &at(12, 0)), " spaced out ) 12:00\n");
}

#[test]
fn open_then_close_reads_as_the_closed_record() {
    let mut log = String::new();
    log.push_str(&opening_text(&at(9, 5), "Alpha", "Bug"));
    log.push_str(&closing_text("fixed it", &at(10, 45)));
    assert_eq!(log, "09:05 Alpha_Bug (fixed it) 10:45\n");
    log.push_str(&opening_text(&at(11, 0), "Big project.txt", "write docs"));
    log.push_str(&closing_text("añadido ☕", &at(11, 30)));
    assert_eq!(
        log,
        "09:05 Alpha_Bug (fixed it) 10:45\n11:00 Big-project_write-docs (añadido ☕) 11:30\n"
    );
}

#[test]
fn state_from_the_last_byte() {
    assert_eq!(infer_state(None), SessionState::NoOpenEntry);
    assert_eq!(infer_state(Some(b'\n')), SessionState::NoOpenEntry);
    assert_eq!(infer_state(Some(b'(')), SessionState::EntryOpen);
    assert_eq!(infer_state(Some(b')')), SessionState::EntryOpen);
    assert_eq!(infer_state(Some(b'\r')), SessionState::EntryOpen);
    assert_eq!(infer_state(Some(0)), SessionState::EntryOpen);
    assert_eq!(infer_state(Some(0xbf)), SessionState::EntryOpen);
}

#[test]
fn state_from_the_content_of_the_log() {
    assert_eq!(infer_state_of_log(b""), SessionState::NoOpenEntry);
    assert_eq!(infer_state_of_log(b"09:05 Alpha_Bug ("), SessionState::EntryOpen);
    assert_eq!(infer_state_of_log(b"09:05 Alpha_Bug (fixed it) 10:45\n"), SessionState::NoOpenEntry);
    assert_eq!(infer_state_of_log(b"\n"), SessionState::NoOpenEntry);
    assert_eq!(
        infer_state_of_log(b"09:05 Alpha_Bug (fixed it) 10:45\n11:00 Alpha_Docs ("),
        SessionState::EntryOpen
    );
}

#[test]
fn state_follows_the_writes() {
    let mut log = String::new();
    assert_eq!(infer_state_of_log(log.as_bytes()), SessionState::NoOpenEntry);
    log.push_str(&opening_text(&at(9, 5), "Alpha", "Bug"));
    assert_eq!(infer_state_of_log(log.as_bytes()), SessionState::EntryOpen);
    log.push_str(&closing_text("visto ☕", &at(10, 45)));
    assert_eq!(infer_state_of_log(log.as_bytes()), SessionState::NoOpenEntry);
    log.push_str(&opening_text(&at(11, 0), "Alpha", "Docs"));
    assert_eq!(infer_state_of_log(log.as_bytes()), SessionState::EntryOpen);
}

#[test]
fn session_begins_with_the_interaction_the_log_calls_for() {
    match begin_session(None, labels(&["Alpha"])) {
        Interaction::NewEntry(s) => {
            assert_eq!(s.buffer(), "");
            assert_eq!(s.candidates(), &labels(&["Alpha"]));
        }
        Interaction::CloseEntry(_) => panic!("no entry is open"),
    }
    assert!(matches!(begin_session(Some(b'\n'), Vec::new()), Interaction::NewEntry(_)));
    match begin_session(Some(b'('), labels(&["Alpha"])) {
        Interaction::CloseEntry(e) => assert_eq!(e.buffer(), ""),
        Interaction::NewEntry(_) => panic!("an entry is open"),
    }
}

#[test]
fn paths_below_the_storage_directory() {
    assert_eq!(WEEKS_PATH, "Weeks");
    assert_eq!(PROYECTS_PATH, "Projects");
    assert_eq!(construct_project_path("Alpha"), "Projects/Alpha.txt");
    assert_eq!(construct_project_path("Alpha.txt"), "Projects/Alpha.txt");
    assert_eq!(construct_project_path("Big project"), "Projects/Big project.txt");
    assert_eq!(construct_project_path(""), "Projects/.txt");
    assert_eq!(construct_project_path("a.txt.txt"), "Projects/a.txt.txt");
    assert_eq!(construct_project_path("notes.TXT"), "Projects/notes.TXT.txt");
}

#[test]
fn path_of_a_listed_project_is_its_name_as_given() {
    assert_eq!(listed_project_path("Alpha.txt"), "Projects/Alpha.txt");
    assert_eq!(listed_project_path("Alpha"), "Projects/Alpha");
    assert_eq!(listed_project_path("Big project.md"), "Projects/Big project.md");
    assert_eq!(listed_project_path(""), "Projects/");
}

#[test]
fn paths_of_the_week_and_the_day() {
    assert_eq!(week_folder(&at(9, 5)), "Weeks/2024 W07");
    assert_eq!(get_todays_filename(&at(9, 5)), "Weeks/2024 W07/14-02-2024.txt");
    let late = Moment::new(Reading { year: 2026, week: 53, month: 12, day: 31, hour: 0, minute: 0 })
        .unwrap();
    assert_eq!(week_folder(&late), "Weeks/2026 W53");
    assert_eq!(get_todays_filename(&late), "Weeks/2026 W53/31-12-2026.txt");
    let early = Moment::new(Reading { year: 1000, week: 1, month: 1, day: 1, hour: 0, minute: 0 })
        .unwrap();
    assert_eq!(get_todays_filename(&early), "Weeks/1000 W01/01-01-1000.txt");
}

#[test]
fn paths_of_years_that_have_not_four_digits() {
    let on = |year: i32| {
        Moment::new(Reading { year, week: 9, month: 3, day: 2, hour: 0, minute: 0 }).unwrap()
    };
    assert_eq!(get_todays_filename(&on(999)), "Weeks/999 W09/02-03-0999.txt");
    assert_eq!(get_todays_filename(&on(7)), "Weeks/7 W09/02-03-0007.txt");
    assert_eq!(get_todays_filename(&on(0)), "Weeks/0 W09/02-03-0000.txt");
    assert_eq!(get_todays_filename(&on(-5)), "Weeks/-5 W09/02-03--0005.txt");
    assert_eq!(get_todays_filename(&on(10000)), "Weeks/10000 W09/02-03-+10000.txt");
    assert_eq!(get_todays_filename(&on(-262143)), "Weeks/-262143 W09/02-03--262143.txt");
    assert_eq!(week_folder(&on(i32::MIN)), "Weeks/-2147483648 W09");
    assert_eq!(get_todays_filename(&on(i32::MAX)), "Weeks/2147483647 W09/02-03-+2147483647.txt");
}

#[test]
fn paths_and_times_read_as_chrono_writes_them() {
    for (year, month, day) in
        [(2024, 2, 14), (1999, 12, 31), (999, 1, 1), (0, 6, 15), (-44, 3, 15), (12345, 10, 9)]
    {
        let date = NaiveDate::from_ymd_opt(year, month, day).unwrap();
        let week = date.iso_week().week();
        let m = Moment::new(Reading { year, week, month, day, hour: 7, minute: 3 }).unwrap();
        let expected =
            format!("Weeks/{} W{:02}/{}.txt", year, week, date.format("%d-%m-%Y"));
        assert_eq!(get_todays_filename(&m), expected);
    }
    for (hour, minute) in [(0, 0), (9, 5), (12, 30), (23, 59)] {
        let time = NaiveTime::from_hms_opt(hour, minute, 0).unwrap();
        let expected = format!("{} A_B (", time.format("%H:%M"));
        assert_eq!(opening_text(&at(hour, minute), "A", "B"), expected);
    }
}

#[test]
fn project_file_lists_one_task_per_line() {
    assert_eq!(parse_tasks(""), Vec::<String>::new());
    assert_eq!(parse_tasks("Bug\n"), labels(&["Bug"]));
    assert_eq!(parse_tasks("Bug"), labels(&["Bug"]));
    assert_eq!(parse_tasks("Bug\nReport\n"), labels(&["Bug", "Report"]));
    assert_eq!(parse_tasks("Bug\nReport"), labels(&["Bug", "Report"]));
    assert_eq!(parse_tasks("Bug\nBug\n"), labels(&["Bug", "Bug"]));
    assert_eq!(parse_tasks("\n"), labels(&[""]));
    assert_eq!(parse_tasks("\n\nBug\n\n"), labels(&["", "", "Bug", ""]));
    assert_eq!(parse_tasks("two words\n ☕ \n"), labels(&["two words", " ☕ "]));
}

#[test]
fn project_file_lines_may_end_with_carriage_return() {
    assert_eq!(parse_tasks("Bug\r\nReport\r\n"), labels(&["Bug", "Report"]));
    assert_eq!(parse_tasks("Bug\r\n\r\n"), labels(&["Bug", ""]));
    assert_eq!(parse_tasks("Bug\r"), labels(&["Bug\r"]));
    assert_eq!(parse_tasks("a\rb\n"), labels(&["a\rb"]));
    assert_eq!(parse_tasks("a\r\r\n"), labels(&["a\r"]));
}

#[test]
fn project_file_reads_as_the_standard_lines() {
    for content in ["", "a", "a\n", "a\nb", "\n", "\r\n", "a\r\nb\r", "\n\n", "a\r\r\n\nb\n\r"] {
        let expected: Vec<String> = content.lines().map(|l| l.to_string()).collect();
        assert_eq!(parse_tasks(content), expected);
    }
}

#[test]
fn task_line_ends_with_a_line_feed() {
    assert_eq!(task_line("Bug"), "Bug\n");
    assert_eq!(task_line(""), "\n");
    let mut file = String::new();
    for t in ["Bug", "Report", "Bug"] {
        file.push_str(&task_line(t));
    }
    assert_eq!(parse_tasks(&file), labels(&["Bug", "Report", "Bug"]));
}

#[test]
fn white_space_is_what_the_standard_library_takes_for_it() {
    let mut count = 0;
    for v in 0..=0x10FFFFu32 {
        if let Some(c) = char::from_u32(v) {
            assert_eq!(is_space(c), c.is_whitespace());
            if is_space(c) {
                count += 1;
            }
        }
    }
    assert_eq!(count, 25);
    for c in ['\t', '\n', '\r', ' ', '\u{85}', '\u{a0}', '\u{1680}', '\u{2000}', '\u{200a}'] {
        assert!(is_space(c));
    }
    for c in ['\u{2028}', '\u{2029}', '\u{202f}', '\u{205f}', '\u{3000}'] {
        assert!(is_space(c));
    }
    for c in ['a', '0', '_', '\u{8}', '\u{e}', '\u{1f}', '\u{200b}', '\u{180e}', '\u{feff}'] {
        assert!(!is_space(c));
    }
}

#[test]
fn trim_takes_white_space_from_both_ends() {
    assert_eq!(trim("  Alpha  "), "Alpha");
    assert_eq!(trim("\t\nAlpha Beta\r\n"), "Alpha Beta");
    assert_eq!(trim("Alpha"), "Alpha");
    assert_eq!(trim(""), "");
    assert_eq!(trim(" \t "), "");
    assert_eq!(trim("\u{a0}x\u{2003}"), "x");
    assert_eq!(trim(" a b "), "a b");
    for s in ["", " ", " a", "a ", " a  b ", "\u{3000}☕\u{3000}"] {
        assert_eq!(trim(s), s.trim());
    }
}

#[test]
fn first_entry_in_an_empty_store() {
    // Nothing is stored: no log, no projects.
    let mut selector = match begin_session(None, Vec::new()) {
        Interaction::NewEntry(s) => s,
        Interaction::CloseEntry(_) => panic!("no entry is open"),
    };
    for c in "Alpha".chars() {
        selector.step(Key::Char(c));
    }
    let create = selector.step(Key::Enter);
    assert_eq!(create, Action::CreateProject { name: "Alpha".to_string() });
    assert_eq!(construct_project_path("Alpha"), "Projects/Alpha.txt");
    selector.project_created("Alpha".to_string(), Creation::Created);
    for c in "Bug".chars() {
        selector.step(Key::Char(c));
    }
    let start = selector.step(Key::Enter);
    assert_eq!(start, Action::CreateTask { project: "Alpha".to_string(), task: "Bug".to_string() });
    assert_eq!(task_line("Bug"), "Bug\n");
    let record = opening_text(&at(9, 5), "Alpha", "Bug");
    assert_eq!(record, "09:05 Alpha_Bug (");
    assert!(!record.ends_with('\n'));
}

#[test]
fn closing_note_for_an_open_entry() {
    let mut log = String::from("09:05 Alpha_Bug (");
    let tail = log.as_bytes().last().copied();
    let mut editor = match begin_session(tail, labels(&["Alpha.txt"])) {
        Interaction::CloseEntry(e) => e,
        Interaction::NewEntry(_) => panic!("an entry is open"),
    };
    for c in "fixed it".chars() {
        editor.step(Key::Char(c));
    }
    let note = match editor.step(Key::Enter) {
        NoteAction::Commit { note } => note,
        other => panic!("unexpected action {:?}", other),
    };
    log.push_str(&closing_text(&note, &at(10, 45)));
    assert_eq!(log, "09:05 Alpha_Bug (fixed it) 10:45\n");
    assert!(matches!(
        begin_session(log.as_bytes().last().copied(), Vec::new()),
        Interaction::NewEntry(_)
    ));
}

#[test]
fn collision_with_an_existing_project() {
    let mut selector = Selector::new(labels(&["Alpha.txt"]));
    for c in "Alpha".chars() {
        selector.step(Key::Char(c));
    }
    assert_eq!(selector.step(Key::Enter), Action::CreateProject { name: "Alpha".to_string() });
    // The file that the new project would take is the one that exists.
    assert_eq!(construct_project_path("Alpha"), construct_project_path("Alpha.txt"));
    selector.project_created("Alpha".to_string(), Creation::AlreadyExists);
    assert_eq!(selector.context(), &time_logger::selector::Context::Idle);
}
