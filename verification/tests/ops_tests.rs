use todo_list::codec::save_to_text;
use todo_list::ops::{add_task, apply_delete, apply_mark, DeleteOutcome, MarkOutcome};
use todo_list::render::{render_list, render_task_line};
use todo_list::task::Task;

fn task(d: &str, done: bool) -> Task {
    Task { description: d.to_string(), done }
}

#[test]
fn add_to_empty_list() {
    let mut tasks: Vec<Task> = Vec::new();
    add_task(&mut tasks, "buy milk".to_string());
    assert_eq!(tasks.len(), 1);
    assert_eq!(tasks[0].description, "buy milk");
    assert!(!tasks[0].done);
    assert_eq!(render_task_line(1, &tasks[0]), "1 [\u{2716}] - buy milk");
}

#[test]
fn add_appends_at_the_end() {
    let mut tasks = vec![task("first", true)];
    add_task(&mut tasks, "second".to_string());
    assert_eq!(tasks.len(), 2);
    assert_eq!(tasks[1].description, "second");
    assert!(!tasks[1].done);
    assert_eq!(tasks[0].description, "first");
}

#[test]
fn mark_done_flips_only_the_chosen_task() {
    let mut tasks = vec![task("task A", false), task("task B", false)];
    let r = apply_mark(&mut tasks, 1, true);
    assert_eq!(r, MarkOutcome::Changed);
    assert!(tasks[0].done);
    assert!(!tasks[1].done);
}

#[test]
fn mark_done_twice_reports_already_marked() {
    let mut tasks = vec![task("task A", false), task("task B", false)];
    assert_eq!(apply_mark(&mut tasks, 1, true), MarkOutcome::Changed);
    assert_eq!(apply_mark(&mut tasks, 1, true), MarkOutcome::AlreadyMarked);
    assert!(tasks[0].done);
    assert!(!tasks[1].done);
}

#[test]
fn mark_undone_flips_back() {
    let mut tasks = vec![task("x", true)];
    assert_eq!(apply_mark(&mut tasks, 1, false), MarkOutcome::Changed);
    assert!(!tasks[0].done);
    assert_eq!(apply_mark(&mut tasks, 1, false), MarkOutcome::AlreadyMarked);
}

#[test]
fn mark_rejects_out_of_range_index() {
    let mut tasks = vec![task("a", false), task("b", false)];
    assert_eq!(apply_mark(&mut tasks, 3, true), MarkOutcome::OutOfRange);
    assert!(!tasks[0].done && !tasks[1].done);
    assert_eq!(apply_mark(&mut tasks, 2, true), MarkOutcome::Changed);
}

#[test]
fn mark_reprompts_on_non_positive_index() {
    let mut tasks = vec![task("a", false)];
    assert_eq!(apply_mark(&mut tasks, 0, true), MarkOutcome::NonPositive);
    assert_eq!(apply_mark(&mut tasks, -7, true), MarkOutcome::NonPositive);
    assert!(!tasks[0].done);
}

#[test]
fn delete_middle_shifts_later_tasks() {
    let mut tasks = vec![task("one", false), task("two", true), task("three", false)];
    let r = apply_delete(&mut tasks, 2);
    match r {
        DeleteOutcome::Removed(t) => {
            assert_eq!(t.description, "two");
            assert!(t.done);
        },
        _ => panic!("expected a removed task"),
    }
    assert_eq!(tasks.len(), 2);
    let lines = render_list(&tasks);
    assert_eq!(lines[0], "1 [\u{2716}] - one");
    assert_eq!(lines[1], "2 [\u{2716}] - three");
}

#[test]
fn delete_rejects_out_of_range_index() {
    let mut tasks = vec![task("a", false)];
    assert!(matches!(apply_delete(&mut tasks, 2), DeleteOutcome::OutOfRange));
    assert!(matches!(apply_delete(&mut tasks, 0), DeleteOutcome::NonPositive));
    assert!(matches!(apply_delete(&mut tasks, -1), DeleteOutcome::NonPositive));
    assert_eq!(tasks.len(), 1);
}

#[test]
fn render_shows_done_glyph() {
    assert_eq!(render_task_line(2, &task("x", true)), "2 [\u{2713}] - x");
    assert_eq!(render_task_line(12, &task("y", false)), "12 [\u{2716}] - y");
}

#[test]
fn listing_empty_list_renders_no_lines() {
    let tasks: Vec<Task> = Vec::new();
    assert_eq!(render_list(&tasks).len(), 0);
}

#[test]
fn listing_changes_nothing() {
    let tasks = vec![task("a", false), task("b", true)];
    let before = save_to_text(&tasks);
    let _ = render_list(&tasks);
    let _ = render_list(&tasks);
    assert_eq!(save_to_text(&tasks), before);
}
