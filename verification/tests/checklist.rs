use dailycheck::history::{date_label, history_order, is_day_file_name, label_from_stem, lex_less_bytes};
use dailycheck::session::{Action, Key, Mode, Session};
use dailycheck::storage::{data_dir, day_file, dirs_home, is_valid_date, parse_tasks, render_tasks, today_file};
use dailycheck::task::{Status, Task};
use dailycheck::text::{is_whitespace, split_on, trim};
use dailycheck::view::{checklist_rows, history_rows, task_row, HistoryRow, InputMode, Row, Tone};

fn task(title: &str, status: Status) -> Task {
    Task { title: title.to_string(), status }
}

fn titles(tasks: &[Task]) -> Vec<(String, Status)> {
    tasks.iter().map(|t| (t.title.clone(), t.status.clone())).collect()
}

#[test]
fn status_next_goes_round() {
    assert_eq!(Status::Todo.next(), Status::Doing);
    assert_eq!(Status::Doing.next(), Status::Done);
    assert_eq!(Status::Done.next(), Status::Todo);
    for s in [Status::Todo, Status::Doing, Status::Done] {
        assert_eq!(s.next().next().next(), s);
        assert_ne!(s.next(), s);
    }
}

#[test]
fn status_labels() {
    assert_eq!(Status::Todo.label(), "[ ]");
    assert_eq!(Status::Doing.label(), "[-]");
    assert_eq!(Status::Done.label(), "[x]");
}

#[test]
fn new_task_is_todo() {
    let t = Task::new("Buy milk".to_string());
    assert_eq!(t.title, "Buy milk");
    assert_eq!(t.status, Status::Todo);
}

#[test]
fn to_line_writes_marker_space_title() {
    assert_eq!(task("Buy milk", Status::Todo).to_line(), "[ ] Buy milk");
    assert_eq!(task("Call Bob", Status::Doing).to_line(), "[-] Call Bob");
    assert_eq!(task("Pay rent", Status::Done).to_line(), "[x] Pay rent");
}

#[test]
fn from_line_reads_each_marker() {
    let t = Task::from_line("[ ] Buy milk").unwrap();
    assert_eq!((t.title.as_str(), t.status), ("Buy milk", Status::Todo));
    let t = Task::from_line("[-] a").unwrap();
    assert_eq!((t.title.as_str(), t.status), ("a", Status::Doing));
    let t = Task::from_line("  [x]   Pay rent \t\r").unwrap();
    assert_eq!((t.title.as_str(), t.status), ("Pay rent", Status::Done));
}

#[test]
fn from_line_needs_no_space_after_marker() {
    let t = Task::from_line("[x]y").unwrap();
    assert_eq!((t.title.as_str(), t.status), ("y", Status::Done));
}

#[test]
fn from_line_rejects_lines_without_task() {
    assert!(Task::from_line("").is_none());
    assert!(Task::from_line("[ ]").is_none());
    assert!(Task::from_line("[ ]    ").is_none());
    assert!(Task::from_line("   [-]  \u{3000} ").is_none());
    assert!(Task::from_line("[?] x").is_none());
    assert!(Task::from_line("(x) y").is_none());
    assert!(Task::from_line("abc").is_none());
    assert!(Task::from_line("just some words").is_none());
}

#[test]
fn line_round_trip() {
    for t in [task("Buy milk", Status::Todo), task("a  b", Status::Doing), task("é€", Status::Done)] {
        let back = Task::from_line(&t.to_line()).unwrap();
        assert_eq!(back.title, t.title);
        assert_eq!(back.status, t.status);
    }
}

#[test]
fn parse_tasks_skips_other_lines() {
    let content = "[ ] a\n[x] b\r\n\ngarbage\n[-] c";
    let tasks = parse_tasks(content);
    assert_eq!(
        titles(&tasks),
        vec![
            ("a".to_string(), Status::Todo),
            ("b".to_string(), Status::Done),
            ("c".to_string(), Status::Doing)
        ]
    );
    assert!(parse_tasks("").is_empty());
}

#[test]
fn render_tasks_writes_one_line_each() {
    let tasks = vec![task("a", Status::Todo), task("b c", Status::Done)];
    assert_eq!(render_tasks(&tasks), "[ ] a\n[x] b c\n");
    assert_eq!(render_tasks(&[]), "");
}

#[test]
fn save_load_round_trip() {
    let tasks = vec![
        task("Buy milk", Status::Todo),
        task("Call Bob", Status::Doing),
        task("Pay rent", Status::Done),
    ];
    let back = parse_tasks(&render_tasks(&tasks));
    assert_eq!(titles(&back), titles(&tasks));
}

#[test]
fn trim_and_whitespace() {
    assert_eq!(trim("\u{3000} x y \t\n"), "x y");
    assert_eq!(trim("   "), "");
    assert!(is_whitespace('\u{85}'));
    assert!(is_whitespace('\u{2009}'));
    assert!(!is_whitespace('\u{200b}'));
    assert!(!is_whitespace('a'));
}

#[test]
fn split_on_keeps_empty_pieces() {
    assert_eq!(split_on("a--b", '-'), vec!["a", "", "b"]);
    assert_eq!(split_on("", '-'), vec![""]);
    assert_eq!(split_on("2024-01-05", '-'), vec!["2024", "01", "05"]);
}

#[test]
fn label_from_stem_reverses_dates() {
    assert_eq!(label_from_stem(Some("2024-01-05")), "05-01-2024");
    assert_eq!(label_from_stem(Some("notes")), "notes");
    assert_eq!(label_from_stem(Some("a-b")), "a-b");
    assert_eq!(label_from_stem(Some("a-b-c-d")), "a-b-c-d");
    assert_eq!(label_from_stem(None), "");
}

#[test]
fn label_twice_gives_stem_back() {
    let once = label_from_stem(Some("2024-01-05"));
    assert_eq!(label_from_stem(Some(&once)), "2024-01-05");
}

#[test]
fn date_label_of_a_path() {
    assert_eq!(date_label("/home/u/.dailycheck/2024-03-09.txt"), "09-03-2024");
    assert_eq!(date_label("2023-12-31.txt"), "31-12-2023");
    assert_eq!(date_label("/"), "");
    assert_eq!(date_label("/x/.hidden"), ".hidden");
    assert_eq!(date_label("/x/a.b.txt"), "a.b");
    assert_eq!(date_label("notes"), "notes");
}

#[test]
fn day_file_names() {
    assert!(is_day_file_name(b"2024-01-01.txt"));
    assert!(is_day_file_name(b"a.txt"));
    assert!(is_day_file_name(b"\xff.txt"));
    assert!(!is_day_file_name(b".txt"));
    assert!(!is_day_file_name(b"notes.md"));
    assert!(!is_day_file_name(b"txt"));
}

#[test]
fn lex_order() {
    assert!(lex_less_bytes(b"2024-01-01", b"2024-02-01"));
    assert!(!lex_less_bytes(b"2024-02-01", b"2024-01-01"));
    assert!(lex_less_bytes(b"ab", b"abc"));
    assert!(!lex_less_bytes(b"ab", b"ab"));
    assert!(lex_less_bytes(b"z", b"\xc3\xa9"));
}

#[test]
fn history_newest_first() {
    let names: Vec<Vec<u8>> = ["2024-01-01.txt", "notes.md", "2024-02-01.txt", ".txt", "a.txt", "2023-12-31.txt"]
        .iter()
        .map(|s| s.as_bytes().to_vec())
        .collect();
    assert_eq!(history_order(&names), vec![4, 2, 0, 5]);
    assert!(history_order(&Vec::new()).is_empty());
}

#[test]
fn data_dir_under_home() {
    assert_eq!(dirs_home(Some("/p"), Some("/h")), "/p");
    assert_eq!(dirs_home(None, Some("/h")), "/h");
    assert_eq!(dirs_home(None, None), ".");
    assert_eq!(data_dir(Some("/home/x"), Some("/h")), "/home/x/.dailycheck");
    assert_eq!(data_dir(None, Some("/h/")), "/h/.dailycheck");
    assert_eq!(data_dir(None, None), "./.dailycheck");
}

#[test]
fn day_file_joins_stamp_and_txt() {
    assert_eq!(day_file("/tmp/d", "2024-03-15"), "/tmp/d/2024-03-15.txt");
    assert_eq!(day_file("/tmp/d/", "2024-03-15"), "/tmp/d/2024-03-15.txt");
}

#[test]
fn today_file_names_the_date() {
    assert_eq!(today_file("/d", 2024, 3, 5), "/d/2024-03-05.txt");
    assert_eq!(today_file("/d/", 987, 12, 31), "/d/0987-12-31.txt");
    assert_eq!(today_file("", -1, 1, 1), "-0001-01-01.txt");
    assert_eq!(today_file("d", 12345, 2, 28), "d/+12345-02-28.txt");
    assert_eq!(date_label(&today_file("/home/u/.dailycheck", 2024, 3, 15)), "15-03-2024");
}

#[test]
fn valid_dates() {
    assert!(is_valid_date(2024, 2, 29));
    assert!(!is_valid_date(2023, 2, 29));
    assert!(!is_valid_date(1900, 2, 29));
    assert!(is_valid_date(2000, 2, 29));
    assert!(!is_valid_date(2024, 4, 31));
    assert!(!is_valid_date(2024, 13, 1));
    assert!(!is_valid_date(2024, 1, 0));
    assert!(is_valid_date(-4, 2, 29));
    assert!(!is_valid_date(262143, 1, 1));
}

#[test]
fn label_round_trip_through_a_path() {
    let label = label_from_stem(Some("2024-03-15"));
    assert_eq!(date_label(&format!("{}.txt", label)), "2024-03-15");
}

#[test]
fn windows_style_path_has_a_label() {
    assert!(!date_label("C:\\Users\\x\\.dailycheck\\2024-03-15.txt").is_empty());
}

#[test]
fn day_file_label_is_day_month_year() {
    let stamp = chrono::Local::now().format("%Y-%m-%d").to_string();
    let path = day_file("/home/u/.dailycheck", &stamp);
    let expected = format!("{}-{}-{}", &stamp[8..10], &stamp[5..7], &stamp[0..4]);
    assert_eq!(date_label(&path), expected);
    assert_eq!(date_label(&day_file("/d", "2024-03-15")), "15-03-2024");
}

#[test]
fn from_line_ignores_surrounding_whitespace() {
    for line in ["[ ] a", "[x]b  c", "[?] z", "", "[-]"] {
        let plain = Task::from_line(line).map(|t| (t.title, t.status));
        let padded = Task::from_line(&format!(" \t\u{3000}{}\r\n ", line)).map(|t| (t.title, t.status));
        assert_eq!(plain, padded);
    }
}

#[test]
fn canonical_line_reads_back() {
    let t = Task::from_line("  [x]Call   mom ").unwrap();
    assert_eq!(t.to_line(), "[x] Call   mom");
    let back = Task::from_line(&t.to_line()).unwrap();
    assert_eq!((back.title, back.status), (t.title, t.status));
}

fn keys(mut s: Session, ks: &[Key]) -> (Session, Vec<Action>) {
    let mut actions = Vec::new();
    for k in ks {
        let (n, a) = s.step(*k);
        s = n;
        actions.push(a);
    }
    (s, actions)
}

fn sample() -> Session {
    Session::new(vec![task("a", Status::Todo), task("b", Status::Doing), task("c", Status::Done)])
}

#[test]
fn session_moves_within_list() {
    let (s, a) = keys(sample(), &[Key::Up, Key::Down, Key::Char('j'), Key::Char('j'), Key::Down]);
    assert_eq!(s.selected(), 2);
    assert!(a.iter().all(|x| *x == Action::Stay));
    let (s, _) = keys(s, &[Key::Char('k'), Key::Up, Key::Up]);
    assert_eq!(s.selected(), 0);
}

#[test]
fn session_toggles_and_saves() {
    let (s, a) = keys(sample(), &[Key::Down, Key::Char(' ')]);
    assert_eq!(a[1], Action::Save);
    assert_eq!(s.tasks()[1].status, Status::Done);
    assert_eq!(s.tasks()[0].status, Status::Todo);
}

#[test]
fn session_toggle_thrice_is_identity() {
    let (s, _) = keys(sample(), &[Key::Char(' '), Key::Char(' '), Key::Char(' ')]);
    assert_eq!(titles(s.tasks()), titles(sample().tasks()));
}

#[test]
fn session_adds_trimmed_task() {
    let (s, a) = keys(
        sample(),
        &[Key::Char('a'), Key::Char(' '), Key::Char('x'), Key::Char('y'), Key::Backspace, Key::CtrlC, Key::Char(' '), Key::Enter],
    );
    assert_eq!(*a.last().unwrap(), Action::Save);
    assert_eq!(s.tasks().len(), 4);
    assert_eq!(s.tasks()[3].title, "xc");
    assert_eq!(s.tasks()[3].status, Status::Todo);
    assert_eq!(s.selected(), 3);
    assert!(matches!(s.mode(), Mode::Browse));
}

#[test]
fn session_add_of_blank_title_adds_nothing() {
    let (s, a) = keys(sample(), &[Key::Char('a'), Key::Char(' '), Key::Enter]);
    assert_eq!(*a.last().unwrap(), Action::Stay);
    assert_eq!(s.tasks().len(), 3);
}

#[test]
fn session_add_then_delete_restores_list() {
    let (s, _) = keys(sample(), &[Key::Char('a'), Key::Char('z'), Key::Enter, Key::Char('d')]);
    assert_eq!(titles(s.tasks()), titles(sample().tasks()));
    assert_eq!(s.selected(), 2);
}

#[test]
fn session_deletes_and_moves_selection_up_at_end() {
    let (s, a) = keys(sample(), &[Key::Down, Key::Down, Key::Char('d')]);
    assert_eq!(a[2], Action::Save);
    assert_eq!(s.tasks().len(), 2);
    assert_eq!(s.selected(), 1);
    let (s, _) = keys(s, &[Key::Char('d'), Key::Char('d')]);
    assert!(s.tasks().is_empty());
    assert_eq!(s.selected(), 0);
    let (s, a) = keys(s, &[Key::Char('d'), Key::Char(' '), Key::Char('e')]);
    assert!(a.iter().all(|x| *x == Action::Stay));
    assert!(matches!(s.mode(), Mode::Browse));
}

#[test]
fn session_edits_selected_title() {
    let (s, _) = keys(sample(), &[Key::Down, Key::Char('e')]);
    match s.input_mode() {
        Some(InputMode::Edit(i, buf)) => {
            assert_eq!(i, 1);
            assert_eq!(buf, "b");
        }
        _ => panic!("not editing"),
    }
    let (s, a) = keys(s, &[Key::Backspace, Key::Char('B'), Key::Char('!'), Key::Enter]);
    assert_eq!(*a.last().unwrap(), Action::Save);
    assert_eq!(s.tasks()[1].title, "B!");
    assert_eq!(s.tasks()[1].status, Status::Doing);
}

#[test]
fn session_escape_keeps_list() {
    let (s, a) = keys(sample(), &[Key::Char('e'), Key::Backspace, Key::Esc]);
    assert_eq!(a[2], Action::Stay);
    assert_eq!(titles(s.tasks()), titles(sample().tasks()));
    assert!(s.input_mode().is_none());
}

#[test]
fn session_quit_and_save_keys() {
    let (_, a) = keys(sample(), &[Key::Char('q')]);
    assert_eq!(a[0], Action::Quit);
    let (_, a) = keys(sample(), &[Key::CtrlC]);
    assert_eq!(a[0], Action::Quit);
    let (_, a) = keys(sample(), &[Key::Char('c'), Key::Char('s'), Key::Other]);
    assert_eq!(a, vec![Action::Stay, Action::Save, Action::Stay]);
}

#[test]
fn session_history_flow() {
    let (s, a) = keys(sample(), &[Key::Down, Key::Char('h')]);
    assert_eq!(a[1], Action::ListFiles);
    let s = s.open_history(3);
    let (s, a) = keys(s, &[Key::Up, Key::Char('j'), Key::Down, Key::Down, Key::Char('k')]);
    assert!(a.iter().all(|x| *x == Action::Stay));
    assert!(matches!(s.mode(), Mode::History { count: 3, cursor: 1 }));
    assert!(!s.opens_missing_file(Key::Enter));
    let (s, a) = keys(s, &[Key::Char('l')]);
    assert_eq!(a[0], Action::Open(1));
    let s = s.replace_tasks(vec![task("x", Status::Done)]);
    assert_eq!(s.selected(), 0);
    assert_eq!(s.tasks().len(), 1);
}

#[test]
fn session_empty_history() {
    let s = sample().open_history(0);
    assert!(s.opens_missing_file(Key::Enter));
    assert!(s.opens_missing_file(Key::Char('l')));
    assert!(!s.opens_missing_file(Key::Esc));
    let (s, a) = keys(s, &[Key::Down, Key::Esc]);
    assert_eq!(a, vec![Action::Stay, Action::Stay]);
    assert!(matches!(s.mode(), Mode::Browse));
}

#[test]
fn task_rows_show_status_and_tone() {
    let r = task_row(&task("c", Status::Done), false, None);
    assert_eq!((r.label, r.label_tone, r.title.as_str(), r.title_tone, r.selected), ("[x]", Tone::Done, "c", Tone::Grey, false));
    let r = task_row(&task("c", Status::Done), true, None);
    assert_eq!(r.title_tone, Tone::Done);
    let r = task_row(&task("a", Status::Todo), false, Some("ne"));
    assert_eq!((r.title.as_str(), r.title_tone), ("ne\u{258c}", Tone::Todo));
}

#[test]
fn checklist_rows_cases() {
    let rows = checklist_rows(&[], 0, None);
    assert_eq!(rows.len(), 1);
    assert!(matches!(rows[0], Row::Empty));
    let rows = checklist_rows(&[], 0, Some(&InputMode::Add("n")));
    assert_eq!(rows.len(), 1);
    assert!(matches!(&rows[0], Row::Input(t) if t == "n\u{258c}"));
    let tasks = vec![task("a", Status::Todo), task("b", Status::Doing)];
    let rows = checklist_rows(&tasks, 1, Some(&InputMode::Edit(0, "z")));
    assert_eq!(rows.len(), 2);
    match (&rows[0], &rows[1]) {
        (Row::Task(r0), Row::Task(r1)) => {
            assert_eq!((r0.title.as_str(), r0.selected), ("z\u{258c}", false));
            assert_eq!((r1.title.as_str(), r1.selected, r1.label_tone), ("b", true, Tone::Doing));
        }
        _ => panic!("rows"),
    }
}

#[test]
fn history_rows_cases() {
    let rows = history_rows(&[], 0);
    assert!(matches!(rows[..], [HistoryRow::Empty]));
    let labels = vec!["01-02-2024".to_string(), "31-01-2024".to_string()];
    let rows = history_rows(&labels, 1);
    assert!(matches!(&rows[0], HistoryRow::File { selected: false, label } if label == "01-02-2024"));
    assert!(matches!(&rows[1], HistoryRow::File { selected: true, label } if label == "31-01-2024"));
}
