//! The list operations: append a task, flip a completion flag by 1-based
//! index, and delete by 1-based index. Each states exactly which indices it
//! accepts and how the list changes.

use vstd::prelude::*;
use crate::task::{Task, TaskView, task_views};

verus! {

/// The result of marking a task done or undone by 1-based index.
#[derive(Clone, Copy, Debug, PartialEq, Eq, Structural)]
pub enum MarkOutcome {
    /// The flag was flipped to the requested state.
    Changed,
    /// The task already carried the requested state; nothing changed.
    AlreadyMarked,
    /// The index was positive but beyond the end of the list.
    OutOfRange,
    /// The index was zero or negative; the prompt must be repeated.
    NonPositive,
}

/// The result of deleting a task by 1-based index.
pub enum DeleteOutcome {
    /// The task formerly at the index, now removed from the list.
    Removed(Task),
    /// The index was positive but beyond the end of the list.
    OutOfRange,
    /// The index was zero or negative; the prompt must be repeated.
    NonPositive,
}

/// Appends a new, not-yet-done task with the given description.
pub fn add_task(tasks: &mut Vec<Task>, description: String)
    ensures
        task_views(final(tasks)@) == task_views(old(tasks)@).push(
            TaskView { description: description@, done: false },
        ),
{
    let ghost pre = tasks@;
    let ghost dv = description@;
    tasks.push(Task { description, done: false });
    proof {
        assert(task_views(tasks@) =~= task_views(pre).push(
            TaskView { description: dv, done: false },
        ));
    }
}

/// Sets the completion flag of the task at a 1-based index to `target`.
/// Accepts exactly the indices `1..=len`; a larger index is rejected and a
/// non-positive one asks for a new prompt; in both cases the list is
/// unchanged.
pub fn apply_mark(tasks: &mut Vec<Task>, index: i32, target: bool) -> (r: MarkOutcome)
    ensures
        index <= 0 ==> r == MarkOutcome::NonPositive && final(tasks)@ == old(tasks)@,
        index > 0 && index as int > old(tasks)@.len() ==> r == MarkOutcome::OutOfRange
            && final(tasks)@ == old(tasks)@,
        1 <= index as int <= old(tasks)@.len() ==> {
            let k = index as int - 1;
            if old(tasks)@[k].done == target {
                r == MarkOutcome::AlreadyMarked && final(tasks)@ == old(tasks)@
            } else {
                r == MarkOutcome::Changed && task_views(final(tasks)@) == task_views(old(tasks)@)
                    .update(k, TaskView { description: old(tasks)@[k].description@, done: target })
            }
        },
{
    if index <= 0 {
        return MarkOutcome::NonPositive;
    }
    let i = (index - 1) as usize;
    if i >= tasks.len() {
        return MarkOutcome::OutOfRange;
    }
    if tasks[i].done == target {
        return MarkOutcome::AlreadyMarked;
    }
    let ghost pre = tasks@;
    let t = tasks.remove(i);
    tasks.insert(i, Task { description: t.description, done: target });
    proof {
        assert(tasks@ =~= pre.update(
            i as int,
            Task { description: pre[i as int].description, done: target },
        ));
        assert(task_views(tasks@) =~= task_views(pre).update(
            i as int,
            TaskView { description: pre[i as int].description@, done: target },
        ));
    }
    MarkOutcome::Changed
}

/// Removes the task at a 1-based index. Accepts exactly the indices
/// `1..=len` and returns the removed task; a larger index is rejected and a
/// non-positive one asks for a new prompt; in both cases the list is
/// unchanged.
pub fn apply_delete(tasks: &mut Vec<Task>, index: i32) -> (r: DeleteOutcome)
    ensures
        index <= 0 ==> r is NonPositive && final(tasks)@ == old(tasks)@,
        index > 0 && index as int > old(tasks)@.len() ==> r is OutOfRange
            && final(tasks)@ == old(tasks)@,
        1 <= index as int <= old(tasks)@.len() ==> {
            let k = index as int - 1;
            r matches DeleteOutcome::Removed(t) && t@ == old(tasks)@[k]@
                && final(tasks)@ == old(tasks)@.remove(k)
        },
{
    if index <= 0 {
        return DeleteOutcome::NonPositive;
    }
    let i = (index - 1) as usize;
    if i >= tasks.len() {
        return DeleteOutcome::OutOfRange;
    }
    let t = tasks.remove(i);
    DeleteOutcome::Removed(t)
}

} // verus!
