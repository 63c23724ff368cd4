use mbot::{is_due, parse_tasks, run_cycle, Date, Moment, NotifiedSet, Task};

fn date(year: i32, month: u32, day: u32) -> Date {
    Date { year, month, day }
}

fn at(d: Date, hour: u32, minute: u32, second: u32) -> Moment {
    Moment { date: d, hour, minute, second }
}

fn one(line: &str) -> Task {
    let tasks = parse_tasks(line);
    assert_eq!(tasks.len(), 1, "expected one task from {:?}", line);
    tasks.into_iter().next().unwrap()
}

#[test]
fn parses_timed_open_task() {
    let t = one("- [ ] 2024-05-01 14:30 : Renew badge");
    assert!(!t.completed);
    assert_eq!(t.date, date(2024, 5, 1));
    assert_eq!(t.time.as_deref(), Some("14:30"));
    assert_eq!(t.description, "Renew badge");
}

#[test]
fn parses_all_day_and_completion_marks() {
    let tasks = parse_tasks("- [x] 2024-05-01 : A\n- [X] 2024-05-02 : B\n- [ ] 2024-05-03 : C");
    assert_eq!(tasks.len(), 3);
    assert!(tasks[0].completed);
    assert!(tasks[1].completed);
    assert!(!tasks[2].completed);
    assert_eq!(tasks[0].time, None);
    assert_eq!(tasks[1].description, "B");
    assert_eq!(tasks[2].date, date(2024, 5, 3));
}

#[test]
fn malformed_lines_yield_nothing() {
    assert!(parse_tasks("Some random markdown heading").is_empty());
    assert!(parse_tasks("- [ ] not-a-date : desc").is_empty());
    assert!(parse_tasks("").is_empty());
    assert!(parse_tasks("\n\n").is_empty());
    assert!(parse_tasks("- [y] 2024-05-01 : desc").is_empty());
    assert!(parse_tasks("- [ ] 2024-05-01 desc").is_empty());
    assert!(parse_tasks("* [ ] 2024-05-01 : desc").is_empty());
}

#[test]
fn invalid_calendar_dates_are_dropped() {
    assert!(parse_tasks("- [ ] 2024-02-30 : nope").is_empty());
    assert!(parse_tasks("- [ ] 2023-02-29 : nope").is_empty());
    assert!(parse_tasks("- [ ] 2024-13-01 : nope").is_empty());
    assert_eq!(one("- [ ] 2024-02-29 : leap").date, date(2024, 2, 29));
    assert_eq!(one("- [ ] 2000-02-29 : leap").date, date(2000, 2, 29));
    assert!(parse_tasks("- [ ] 1900-02-29 : nope").is_empty());
}

#[test]
fn invalid_clock_times_are_dropped() {
    assert!(parse_tasks("- [ ] 2024-05-01 25:00 : late").is_empty());
    assert!(parse_tasks("- [ ] 2024-05-01 12:60 : late").is_empty());
    assert_eq!(one("- [ ] 2024-05-01 23:59 : ok").time.as_deref(), Some("23:59"));
}

#[test]
fn empty_description_is_not_a_task() {
    assert!(parse_tasks("- [ ] 2024-05-01 : ").is_empty());
    assert!(parse_tasks("- [ ] 2024-05-01 :").is_empty());
    assert!(parse_tasks("- [ ] 2024-05-01 14:30 :   ").is_empty());
}

#[test]
fn whitespace_around_parts() {
    let t = one("- [ ]2024-05-01\t14:30:   Call   the   bank  \r");
    assert_eq!(t.time.as_deref(), Some("14:30"));
    assert_eq!(t.description, "Call   the   bank");
    let u = one("- [ ]   2024-05-01 :Pay rent");
    assert_eq!(u.time, None);
    assert_eq!(u.description, "Pay rent");
    let v = one("- [ ] 2024-05-01 : 14:30 later");
    assert_eq!(v.time, None);
    assert_eq!(v.description, "14:30 later");
}

#[test]
fn lines_keep_document_order() {
    let doc = "# Plan\n- [ ] 2024-05-02 : second\ntext\n- [ ] 2024-05-01 : first\n";
    let tasks = parse_tasks(doc);
    assert_eq!(tasks.len(), 2);
    assert_eq!(tasks[0].description, "second");
    assert_eq!(tasks[1].description, "first");
}

#[test]
fn unique_key_format() {
    assert_eq!(one("- [ ] 2024-05-01 14:30 : Renew badge").unique_key(), "2024-05-01-14:30-Renew badge");
    assert_eq!(one("- [ ] 2024-05-01 : Water plants").unique_key(), "2024-05-01-allday-Water plants");
    assert_eq!(one("- [ ] 0042-01-09 : x").unique_key(), "0042-01-09-allday-x");
}

#[test]
fn identity_ignores_completion() {
    let a = one("- [ ] 2024-05-01 : Water plants");
    let b = one("- [x] 2024-05-01 : Water plants");
    assert_eq!(a.unique_key(), b.unique_key());
    let c = one("- [ ] 2024-05-01 09:00 : Water plants");
    assert_ne!(a.unique_key(), c.unique_key());
}

#[test]
fn render_and_read_back() {
    let t = one("- [x]  2024-05-01   14:30 :  Renew badge ");
    assert_eq!(t.render(), "[x] 2024-05-01 14:30 : Renew badge");
    let u = one("- [ ] 2024-05-01 : Water plants");
    assert_eq!(u.render(), "[ ] 2024-05-01 : Water plants");
    let again = one(&format!("- {}", t.render()));
    assert_eq!(again, t);
    let again_u = one(&format!("- {}", u.render()));
    assert_eq!(again_u, u);
}

#[test]
fn datetime_of_timed_and_all_day() {
    let t = one("- [ ] 2024-05-01 14:30 : Renew badge");
    assert_eq!(t.datetime(), Some(at(date(2024, 5, 1), 14, 30, 0)));
    let u = one("- [ ] 2024-05-01 : Water plants");
    assert_eq!(u.datetime(), None);
    let bad = Task { completed: false, date: date(2024, 5, 1), time: Some("7:30".to_string()), description: "x".to_string() };
    assert_eq!(bad.datetime(), None);
    let bad_date = Task { completed: false, date: date(2024, 2, 30), time: Some("07:30".to_string()), description: "x".to_string() };
    assert_eq!(bad_date.datetime(), None);
}

#[test]
fn timed_window() {
    let t = one("- [ ] 2024-05-01 14:30 : Renew badge");
    let d = date(2024, 5, 1);
    assert!(is_due(&t, &at(d, 14, 30, 0)));
    assert!(is_due(&t, &at(d, 14, 30, 59)));
    assert!(!is_due(&t, &at(d, 14, 29, 59)));
    assert!(!is_due(&t, &at(d, 14, 31, 0)));
    assert!(!is_due(&t, &at(date(2024, 5, 2), 14, 30, 0)));
}

#[test]
fn timed_window_across_midnight() {
    let t = one("- [ ] 2024-12-31 23:59 : Toast");
    assert!(is_due(&t, &at(date(2024, 12, 31), 23, 59, 30)));
    assert!(!is_due(&t, &at(date(2025, 1, 1), 0, 0, 0)));
    assert!(!is_due(&t, &at(date(2025, 1, 1), 0, 0, 10)));
}

#[test]
fn all_day_trigger() {
    let open = one("- [ ] 2024-05-01 : Water plants");
    let done = one("- [x] 2024-05-01 : Water plants");
    let d = date(2024, 5, 1);
    assert!(is_due(&open, &at(d, 9, 0, 0)));
    assert!(is_due(&open, &at(d, 9, 0, 59)));
    assert!(!is_due(&open, &at(d, 9, 1, 0)));
    assert!(!is_due(&open, &at(d, 8, 59, 59)));
    assert!(!is_due(&open, &at(date(2024, 5, 2), 9, 0, 0)));
    assert!(!is_due(&done, &at(d, 9, 0, 0)));
    assert!(!is_due(&done, &at(d, 9, 1, 0)));
}

#[test]
fn completed_tasks_never_fire() {
    let t = one("- [x] 2024-05-01 14:30 : Renew badge");
    assert!(t.completed);
    let d = date(2024, 5, 1);
    for s in 0..60 {
        assert!(!is_due(&t, &at(d, 14, 30, s)));
    }
}

#[test]
fn notified_set_is_idempotent() {
    let mut set = NotifiedSet::new();
    let key = "2024-05-01-allday-Water plants".to_string();
    assert!(!set.is_notified(&key));
    set.mark_notified(key.clone());
    assert!(set.is_notified(&key));
    set.mark_notified(key.clone());
    assert!(set.is_notified(&key));
    assert!(!set.is_notified(&"2024-05-01-allday-Water".to_string()));
}

#[test]
fn cycle_reports_each_task_once() {
    let tasks = parse_tasks(
        "- [ ] 2024-05-01 14:30 : Renew badge\n- [x] 2024-05-01 14:30 : Done already\n- [ ] 2024-05-01 : Water plants\n- [ ] 2024-05-01 14:30 : Renew badge\n- [ ] 2024-05-01 15:00 : Later",
    );
    assert_eq!(tasks.len(), 5);
    let mut set = NotifiedSet::new();
    let first = run_cycle(&mut set, &tasks, &at(date(2024, 5, 1), 14, 30, 5));
    assert_eq!(first, vec![0]);
    assert!(set.is_notified(&tasks[0].unique_key()));
    let second = run_cycle(&mut set, &tasks, &at(date(2024, 5, 1), 14, 30, 40));
    assert!(second.is_empty());
    let later = run_cycle(&mut set, &tasks, &at(date(2024, 5, 1), 15, 0, 0));
    assert_eq!(later, vec![4]);
    let again = run_cycle(&mut set, &tasks, &at(date(2024, 5, 1), 15, 0, 30));
    assert!(again.is_empty());
}

#[test]
fn completed_reparse_does_not_refire() {
    let mut set = NotifiedSet::new();
    let open = parse_tasks("- [ ] 2024-05-01 : Water plants");
    let nine = at(date(2024, 5, 1), 9, 0, 0);
    assert_eq!(run_cycle(&mut set, &open, &nine), vec![0]);
    let done = parse_tasks("- [x] 2024-05-01 : Water plants");
    assert!(run_cycle(&mut set, &done, &nine).is_empty());
    assert!(run_cycle(&mut set, &open, &nine).is_empty());
}

#[test]
fn calendar_checks_and_seconds() {
    assert!(date(2024, 2, 29).is_valid());
    assert!(!date(2023, 2, 29).is_valid());
    assert!(!date(2024, 0, 1).is_valid());
    assert!(!date(2024, 4, 31).is_valid());
    assert!(!date(10000, 1, 1).is_valid());
    let a = at(date(2024, 5, 1), 0, 0, 30);
    let b = at(date(2024, 4, 30), 23, 59, 30);
    assert_eq!(a.seconds_since(&b), 60);
    assert_eq!(b.seconds_since(&a), -60);
    assert_eq!(at(date(2024, 1, 1), 0, 0, 0).seconds_since(&at(date(2023, 1, 1), 0, 0, 0)), 365 * 86400);
    assert_eq!(at(date(2025, 1, 1), 0, 0, 0).seconds_since(&at(date(2024, 1, 1), 0, 0, 0)), 366 * 86400);
    assert!(at(date(2024, 5, 1), 23, 59, 59).is_valid());
    assert!(!at(date(2024, 5, 1), 24, 0, 0).is_valid());
}
