//! Tasks, the payload they are created from, and their mathematical view.

use vstd::prelude::*;

verus! {

/// What a task is, as plain mathematical values.
pub struct TaskView {
    pub id: int,
    pub name: Seq<char>,
    pub description: Seq<char>,
}

/// A single item of the list. The identifier is assigned by the store and
/// never changes afterwards.
#[derive(Debug, PartialEq, Eq)]
pub struct Task {
    pub id: u32,
    pub name: String,
    pub description: String,
}

/// The payload a task is created from: everything but the identifier.
#[derive(Debug, PartialEq, Eq)]
pub struct TaskInput {
    pub name: String,
    pub description: String,
}

impl View for Task {
    type V = TaskView;

    open spec fn view(&self) -> TaskView {
        TaskView { id: self.id as int, name: self.name@, description: self.description@ }
    }
}

impl Clone for Task {
    fn clone(&self) -> (res: Self)
        ensures
            res == *self,
    {
        Task { id: self.id, name: self.name.clone(), description: self.description.clone() }
    }
}

/// The views of a sequence of tasks, in the same order.
pub open spec fn task_views(tasks: Seq<Task>) -> Seq<TaskView> {
    tasks.map_values(|t: Task| t@)
}

} // verus!
