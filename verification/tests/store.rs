use rust_kanban::order::sorted_descending;
use rust_kanban::store::{check_removable, positions_in_range};
use rust_kanban::{
    add_task, delete_tasks, sort_by_status, update_task_status, Status, StoreError, Task,
};

fn task(text: &str, status: Status) -> Task {
    Task { text: String::from(text), created_at: 1_700_000_000, status }
}

fn board(items: &[(&str, Status)]) -> Vec<Task> {
    items.iter().map(|(text, status)| task(text, *status)).collect()
}

fn shape(tasks: &[Task]) -> Vec<(String, Status)> {
    tasks.iter().map(|t| (t.text.clone(), t.status)).collect()
}

fn expect(items: &[(&str, Status)]) -> Vec<(String, Status)> {
    items.iter().map(|(text, status)| (String::from(*text), *status)).collect()
}

#[test]
fn add_appends_and_grows_by_one() {
    let mut tasks = board(&[("a", Status::Todo), ("b", Status::Done)]);
    add_task(&mut tasks, Task::stamped(String::from("c"), 42));
    assert_eq!(tasks.len(), 3);
    assert_eq!(shape(&tasks), expect(&[("a", Status::Todo), ("b", Status::Done), ("c", Status::Todo)]));
    assert_eq!(tasks[2].created_at, 42);
}

#[test]
fn add_to_empty_board() {
    let mut tasks: Vec<Task> = Vec::new();
    add_task(&mut tasks, Task::stamped(String::from("first"), 7));
    assert_eq!(shape(&tasks), expect(&[("first", Status::Todo)]));
}

#[test]
fn add_is_last_of_its_status_group() {
    let mut tasks = board(&[("a", Status::Todo), ("b", Status::Doing), ("c", Status::Todo)]);
    add_task(&mut tasks, Task::stamped(String::from("d"), 1));
    let todo: Vec<&str> =
        tasks.iter().filter(|t| t.status == Status::Todo).map(|t| t.text.as_str()).collect();
    assert_eq!(todo, vec!["a", "c", "d"]);
}

#[test]
fn update_marks_and_regroups() {
    let mut tasks = board(&[("a", Status::Todo), ("b", Status::Todo), ("c", Status::Todo)]);
    assert_eq!(update_task_status(&mut tasks, &[1], Status::Done), Ok(()));
    assert_eq!(shape(&tasks), expect(&[("b", Status::Todo), ("c", Status::Todo), ("a", Status::Done)]));
}

#[test]
fn update_keeps_order_inside_each_group() {
    let mut tasks = board(&[
        ("a", Status::Done),
        ("b", Status::Todo),
        ("c", Status::Doing),
        ("d", Status::Todo),
        ("e", Status::Done),
        ("f", Status::Doing),
    ]);
    assert_eq!(update_task_status(&mut tasks, &[4], Status::Doing), Ok(()));
    assert_eq!(
        shape(&tasks),
        expect(&[
            ("b", Status::Todo),
            ("c", Status::Doing),
            ("d", Status::Doing),
            ("f", Status::Doing),
            ("a", Status::Done),
            ("e", Status::Done),
        ])
    );
}

#[test]
fn update_gives_three_runs_of_statuses() {
    let mut tasks = board(&[
        ("a", Status::Done),
        ("b", Status::Doing),
        ("c", Status::Todo),
        ("d", Status::Done),
        ("e", Status::Todo),
    ]);
    assert_eq!(update_task_status(&mut tasks, &[2, 5], Status::Done), Ok(()));
    let statuses: Vec<Status> = tasks.iter().map(|t| t.status).collect();
    assert_eq!(statuses, vec![Status::Todo, Status::Done, Status::Done, Status::Done, Status::Done]);
    let texts: Vec<&str> = tasks.iter().map(|t| t.text.as_str()).collect();
    assert_eq!(texts, vec!["c", "a", "b", "d", "e"]);
}

#[test]
fn update_keeps_creation_time_and_text() {
    let mut tasks = vec![
        Task { text: String::from("a"), created_at: 11, status: Status::Todo },
        Task { text: String::from("b"), created_at: 22, status: Status::Todo },
    ];
    assert_eq!(update_task_status(&mut tasks, &[1], Status::Doing), Ok(()));
    assert_eq!(tasks[0].text, "b");
    assert_eq!(tasks[0].created_at, 22);
    assert_eq!(tasks[1].text, "a");
    assert_eq!(tasks[1].created_at, 11);
    assert_eq!(tasks[1].status, Status::Doing);
}

#[test]
fn update_with_one_bad_position_changes_nothing() {
    let mut tasks = board(&[("a", Status::Todo), ("b", Status::Doing), ("c", Status::Done)]);
    assert_eq!(update_task_status(&mut tasks, &[1, 999], Status::Done), Err(StoreError::InvalidTaskId));
    assert_eq!(shape(&tasks), expect(&[("a", Status::Todo), ("b", Status::Doing), ("c", Status::Done)]));
}

#[test]
fn update_refuses_position_zero() {
    let mut tasks = board(&[("a", Status::Todo)]);
    assert_eq!(update_task_status(&mut tasks, &[0], Status::Done), Err(StoreError::InvalidTaskId));
    assert_eq!(shape(&tasks), expect(&[("a", Status::Todo)]));
}

#[test]
fn update_refuses_position_past_the_end() {
    let mut tasks = board(&[("a", Status::Todo), ("b", Status::Todo)]);
    assert_eq!(update_task_status(&mut tasks, &[3], Status::Doing), Err(StoreError::InvalidTaskId));
    assert_eq!(update_task_status(&mut tasks, &[2], Status::Doing), Ok(()));
}

#[test]
fn update_refused_leaves_an_unsorted_board_unsorted() {
    let mut tasks = board(&[("a", Status::Done), ("b", Status::Todo)]);
    assert_eq!(update_task_status(&mut tasks, &[5], Status::Doing), Err(StoreError::InvalidTaskId));
    assert_eq!(shape(&tasks), expect(&[("a", Status::Done), ("b", Status::Todo)]));
}

#[test]
fn update_on_empty_board_with_position_fails() {
    let mut tasks: Vec<Task> = Vec::new();
    assert_eq!(update_task_status(&mut tasks, &[1], Status::Done), Err(StoreError::InvalidTaskId));
    assert!(tasks.is_empty());
}

#[test]
fn update_without_positions_only_regroups() {
    let mut tasks = board(&[("a", Status::Done), ("b", Status::Todo), ("c", Status::Doing)]);
    assert_eq!(update_task_status(&mut tasks, &[], Status::Done), Ok(()));
    assert_eq!(shape(&tasks), expect(&[("b", Status::Todo), ("c", Status::Doing), ("a", Status::Done)]));
}

#[test]
fn update_tolerates_repeated_positions() {
    let mut once = board(&[("a", Status::Todo), ("b", Status::Todo), ("c", Status::Todo)]);
    let mut twice = board(&[("a", Status::Todo), ("b", Status::Todo), ("c", Status::Todo)]);
    assert_eq!(update_task_status(&mut once, &[2], Status::Doing), Ok(()));
    assert_eq!(update_task_status(&mut twice, &[2, 2], Status::Doing), Ok(()));
    assert_eq!(shape(&once), shape(&twice));
    assert_eq!(shape(&once), expect(&[("a", Status::Todo), ("c", Status::Todo), ("b", Status::Doing)]));
}

#[test]
fn update_ignores_order_of_positions() {
    let mut forward = board(&[("a", Status::Todo), ("b", Status::Todo), ("c", Status::Todo)]);
    let mut backward = board(&[("a", Status::Todo), ("b", Status::Todo), ("c", Status::Todo)]);
    assert_eq!(update_task_status(&mut forward, &[1, 3], Status::Done), Ok(()));
    assert_eq!(update_task_status(&mut backward, &[3, 1], Status::Done), Ok(()));
    assert_eq!(shape(&forward), shape(&backward));
    assert_eq!(shape(&forward), expect(&[("b", Status::Todo), ("a", Status::Done), ("c", Status::Done)]));
}

#[test]
fn update_again_is_idempotent_when_position_still_names_the_task() {
    let mut tasks = board(&[("a", Status::Todo), ("b", Status::Todo), ("c", Status::Todo)]);
    assert_eq!(update_task_status(&mut tasks, &[3], Status::Done), Ok(()));
    let once = shape(&tasks);
    assert_eq!(update_task_status(&mut tasks, &[3], Status::Done), Ok(()));
    assert_eq!(shape(&tasks), once);
    assert_eq!(once, expect(&[("a", Status::Todo), ("b", Status::Todo), ("c", Status::Done)]));
}

#[test]
fn update_again_marks_the_task_that_moved_into_the_position() {
    let mut tasks = board(&[("a", Status::Todo), ("b", Status::Todo)]);
    assert_eq!(update_task_status(&mut tasks, &[1], Status::Done), Ok(()));
    assert_eq!(shape(&tasks), expect(&[("b", Status::Todo), ("a", Status::Done)]));
    assert_eq!(update_task_status(&mut tasks, &[1], Status::Done), Ok(()));
    assert_eq!(shape(&tasks), expect(&[("b", Status::Done), ("a", Status::Done)]));
}

#[test]
fn update_back_to_todo() {
    let mut tasks = board(&[("a", Status::Todo), ("b", Status::Done)]);
    assert_eq!(update_task_status(&mut tasks, &[2], Status::Todo), Ok(()));
    assert_eq!(shape(&tasks), expect(&[("a", Status::Todo), ("b", Status::Todo)]));
}

#[test]
fn sort_by_status_is_stable() {
    let mut tasks = board(&[
        ("a", Status::Done),
        ("b", Status::Doing),
        ("c", Status::Todo),
        ("d", Status::Done),
        ("e", Status::Doing),
        ("f", Status::Todo),
    ]);
    sort_by_status(&mut tasks);
    assert_eq!(
        shape(&tasks),
        expect(&[
            ("c", Status::Todo),
            ("f", Status::Todo),
            ("b", Status::Doing),
            ("e", Status::Doing),
            ("a", Status::Done),
            ("d", Status::Done),
        ])
    );
}

#[test]
fn sort_by_status_of_empty_board() {
    let mut tasks: Vec<Task> = Vec::new();
    sort_by_status(&mut tasks);
    assert!(tasks.is_empty());
}

#[test]
fn delete_batch_in_either_order() {
    let mut forward = board(&[("A", Status::Todo), ("B", Status::Todo), ("C", Status::Todo), ("D", Status::Todo)]);
    let mut backward = board(&[("A", Status::Todo), ("B", Status::Todo), ("C", Status::Todo), ("D", Status::Todo)]);
    assert_eq!(delete_tasks(&mut forward, &[2, 4]), Ok(()));
    assert_eq!(delete_tasks(&mut backward, &[4, 2]), Ok(()));
    assert_eq!(shape(&forward), expect(&[("A", Status::Todo), ("C", Status::Todo)]));
    assert_eq!(shape(&backward), expect(&[("A", Status::Todo), ("C", Status::Todo)]));
}

#[test]
fn delete_with_one_bad_position_changes_nothing() {
    let mut tasks = board(&[("a", Status::Todo), ("b", Status::Doing), ("c", Status::Done)]);
    assert_eq!(delete_tasks(&mut tasks, &[1, 999]), Err(StoreError::InvalidTaskId));
    assert_eq!(shape(&tasks), expect(&[("a", Status::Todo), ("b", Status::Doing), ("c", Status::Done)]));
}

#[test]
fn delete_refuses_position_zero() {
    let mut tasks = board(&[("a", Status::Todo), ("b", Status::Todo)]);
    assert_eq!(delete_tasks(&mut tasks, &[2, 0]), Err(StoreError::InvalidTaskId));
    assert_eq!(shape(&tasks), expect(&[("a", Status::Todo), ("b", Status::Todo)]));
}

#[test]
fn delete_does_not_regroup() {
    let mut tasks = board(&[("a", Status::Done), ("b", Status::Todo), ("c", Status::Doing)]);
    assert_eq!(delete_tasks(&mut tasks, &[2]), Ok(()));
    assert_eq!(shape(&tasks), expect(&[("a", Status::Done), ("c", Status::Doing)]));
}

#[test]
fn delete_everything() {
    let mut tasks = board(&[("a", Status::Todo), ("b", Status::Todo), ("c", Status::Todo)]);
    assert_eq!(delete_tasks(&mut tasks, &[1, 3, 2]), Ok(()));
    assert!(tasks.is_empty());
}

#[test]
fn delete_nothing() {
    let mut tasks = board(&[("a", Status::Todo)]);
    assert_eq!(delete_tasks(&mut tasks, &[]), Ok(()));
    assert_eq!(shape(&tasks), expect(&[("a", Status::Todo)]));
}

#[test]
fn delete_repeated_position_reads_it_against_the_shrunk_board() {
    let mut tasks = board(&[("a", Status::Todo), ("b", Status::Todo), ("c", Status::Todo)]);
    assert_eq!(delete_tasks(&mut tasks, &[2, 2]), Ok(()));
    assert_eq!(shape(&tasks), expect(&[("a", Status::Todo)]));
}

#[test]
fn delete_repeated_last_position_is_refused() {
    let mut tasks = board(&[("a", Status::Todo), ("b", Status::Todo), ("c", Status::Todo)]);
    assert_eq!(delete_tasks(&mut tasks, &[3, 3]), Err(StoreError::InvalidTaskId));
    assert_eq!(tasks.len(), 3);
    assert_eq!(shape(&tasks), expect(&[("a", Status::Todo), ("b", Status::Todo), ("c", Status::Todo)]));
}

#[test]
fn delete_from_empty_board_fails() {
    let mut tasks: Vec<Task> = Vec::new();
    assert_eq!(delete_tasks(&mut tasks, &[1]), Err(StoreError::InvalidTaskId));
}

#[test]
fn positions_sort_from_highest_to_lowest() {
    assert_eq!(sorted_descending(&[2, 9, 4, 4, 1]), vec![9, 4, 4, 2, 1]);
    assert_eq!(sorted_descending(&[]), Vec::<usize>::new());
    assert_eq!(sorted_descending(&[5]), vec![5]);
    assert_eq!(sorted_descending(&[1, 2, 3]), vec![3, 2, 1]);
    assert_eq!(sorted_descending(&[usize::MAX, 0, 7]), vec![usize::MAX, 7, 0]);
}

#[test]
fn positions_are_in_range_from_one_to_the_length() {
    assert!(positions_in_range(&[], 0));
    assert!(positions_in_range(&[1, 3, 2, 3], 3));
    assert!(!positions_in_range(&[0], 3));
    assert!(!positions_in_range(&[1, 4], 3));
    assert!(!positions_in_range(&[1], 0));
    assert!(positions_in_range(&[usize::MAX], usize::MAX));
}

#[test]
fn positions_are_removable_in_turn_while_the_board_still_reaches_them() {
    assert!(check_removable(&[], 0));
    assert!(check_removable(&[3, 2, 1], 3));
    assert!(check_removable(&[2, 2], 3));
    assert!(!check_removable(&[3, 3], 3));
    assert!(!check_removable(&[1, 1, 1, 1], 3));
    assert!(!check_removable(&[0], 3));
    assert!(!check_removable(&[4], 3));
    assert!(!check_removable(&[1], 0));
}
