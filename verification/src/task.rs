//! The task record and its mathematical view.

use vstd::prelude::*;

verus! {

/// A single task: a description and a completion flag. Identity is
/// positional; the list order is insertion order.
#[derive(Debug)]
pub struct Task {
    pub description: String,
    pub done: bool,
}

/// The mathematical value of a task: its description as a character
/// sequence, and its completion flag.
pub ghost struct TaskView {
    pub description: Seq<char>,
    pub done: bool,
}

impl View for Task {
    type V = TaskView;

    open spec fn view(&self) -> TaskView {
        TaskView { description: self.description@, done: self.done }
    }
}

/// The views of a whole task list, in order.
pub open spec fn task_views(ts: Seq<Task>) -> Seq<TaskView> {
    ts.map_values(|t: Task| t@)
}

} // verus!
