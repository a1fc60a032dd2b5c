use rust_kanban::{
    format_line, Status, StoreError, Task, FIRST_SECOND, LAST_SECOND, TEXT_WIDTH,
};

#[test]
fn default_status_is_todo() {
    assert_eq!(Status::default(), Status::Todo);
}

#[test]
fn new_task_is_todo_with_its_text() {
    let task = Task::new(String::from("water the plants"));
    assert_eq!(task.text, "water the plants");
    assert_eq!(task.status, Status::Todo);
    assert!(task.created_at > 0);
}

#[test]
fn stamped_task_keeps_its_time() {
    let task = Task::stamped(String::from("x"), -5);
    assert_eq!(task.text, "x");
    assert_eq!(task.created_at, -5);
    assert_eq!(task.status, Status::Todo);
}

#[test]
fn clone_copies_every_field() {
    let task = Task { text: String::from("copy me"), created_at: 99, status: Status::Doing };
    let copy = task.clone();
    assert_eq!(copy.text, task.text);
    assert_eq!(copy.created_at, task.created_at);
    assert_eq!(copy.status, task.status);
}

#[test]
fn line_pads_short_text_to_the_width() {
    let line = format_line("buy milk", "2024-01-02 03:04");
    let expected = format!("buy milk{} [2024-01-02 03:04]", " ".repeat(42));
    assert_eq!(line, expected);
    assert_eq!(line.chars().count(), 50 + 2 + 16 + 1);
}

#[test]
fn line_of_empty_text_is_all_padding() {
    let line = format_line("", "s");
    assert_eq!(line, format!("{} [s]", " ".repeat(50)));
}

#[test]
fn line_keeps_text_of_exactly_the_width() {
    let text = "x".repeat(50);
    assert_eq!(format_line(&text, "t"), format!("{} [t]", text));
}

#[test]
fn line_cuts_long_text_at_the_width() {
    let text = format!("{}{}", "a".repeat(50), "bcd");
    assert_eq!(format_line(&text, "t"), format!("{} [t]", "a".repeat(50)));
}

#[test]
fn line_counts_characters_not_bytes() {
    let line = format_line("caf\u{e9}", "t");
    assert_eq!(line, format!("caf\u{e9}{} [t]", " ".repeat(46)));
    let long = "\u{e9}".repeat(51);
    assert_eq!(format_line(&long, "t"), format!("{} [t]", "\u{e9}".repeat(50)));
}

#[test]
fn line_with_empty_stamp() {
    assert_eq!(format_line("a", ""), format!("a{} []", " ".repeat(49)));
}

#[test]
fn text_width_is_fifty() {
    assert_eq!(TEXT_WIDTH, 50);
}

#[test]
fn render_shows_text_column_and_bracketed_time() {
    let task = Task { text: String::from("read"), created_at: 1_700_000_000, status: Status::Todo };
    let line = task.render().expect("a date in 2023 can be shown");
    let head = format!("read{} [", " ".repeat(46));
    assert!(line.starts_with(&head));
    assert!(line.ends_with(']'));
    let stamp = &line[head.len()..line.len() - 1];
    assert_eq!(line, format_line("read", stamp));
    assert_eq!(stamp.len(), 16);
    assert!(stamp.starts_with("2023-11-1"));
}

#[test]
fn render_has_no_line_for_a_time_outside_the_calendar() {
    let task = Task { text: String::from("far"), created_at: i64::MAX, status: Status::Todo };
    assert_eq!(task.render(), None);
    let task = Task { text: String::from("far"), created_at: i64::MIN, status: Status::Todo };
    assert_eq!(task.render(), None);
}

#[test]
fn error_messages() {
    assert_eq!(StoreError::InvalidTaskId.message(), "Invalid Task ID");
    assert_eq!(StoreError::NoJournalFile.message(), "Failed to find journal file.");
    assert_eq!(StoreError::CorruptStore.message(), "Journal file is corrupt.");
}

fn at(created_at: i64) -> Task {
    Task { text: String::from("t"), created_at, status: Status::Todo }
}

#[test]
fn calendar_bounds_are_those_of_chrono() {
    assert_eq!(chrono::DateTime::<chrono::Utc>::MIN_UTC.timestamp(), FIRST_SECOND);
    assert_eq!(chrono::DateTime::<chrono::Utc>::MAX_UTC.timestamp(), LAST_SECOND);
    assert!(chrono::DateTime::from_timestamp(FIRST_SECOND, 0).is_some());
    assert!(chrono::DateTime::from_timestamp(FIRST_SECOND - 1, 0).is_none());
    assert!(chrono::DateTime::from_timestamp(LAST_SECOND, 0).is_some());
    assert!(chrono::DateTime::from_timestamp(LAST_SECOND + 1, 0).is_none());
}

#[test]
fn render_has_a_line_from_the_first_second_of_the_calendar() {
    assert!(at(FIRST_SECOND).render().is_some());
    assert_eq!(at(FIRST_SECOND - 1).render(), None);
}

#[test]
fn render_has_a_line_up_to_the_last_second_of_the_calendar() {
    assert!(at(LAST_SECOND).render().is_some());
    assert_eq!(at(LAST_SECOND + 1).render(), None);
}

#[test]
fn render_has_a_line_around_the_epoch() {
    for created_at in [-86_400, -1, 0, 1, 86_400, 4_102_444_800] {
        let line = at(created_at).render().expect("a date near the epoch can be shown");
        assert!(line.starts_with(&format!("t{} [", " ".repeat(49))));
        assert!(line.ends_with(']'));
    }
}
