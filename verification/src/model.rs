//! The mathematical model of the task store: a sequence of tasks in creation
//! order and the next identifier to hand out.

use vstd::prelude::*;
use crate::task::TaskView;

verus! {

/// One change to the store.
pub enum Op {
    /// Create a task from a name and a description.
    Create { name: Seq<char>, description: Seq<char> },
    /// Delete the task with an identifier, if there is one.
    Delete { id: int },
}

/// The store as plain mathematical values.
pub struct StoreView {
    /// The tasks, oldest first.
    pub tasks: Seq<TaskView>,
    /// The identifier the next created task will get.
    pub next_id: int,
}

impl StoreView {
    /// The store a service starts with: no tasks, and 1 as the next identifier.
    pub open spec fn empty() -> StoreView {
        StoreView { tasks: Seq::empty(), next_id: 1 }
    }

    /// Identifiers are positive, below `next_id`, and strictly increasing
    /// along the sequence; so no identifier occurs twice.
    pub open spec fn wf(self) -> bool {
        &&& 1 <= self.next_id
        &&& forall|i: int|
            0 <= i < self.tasks.len() ==> 1 <= (#[trigger] self.tasks[i]).id < self.next_id
        &&& forall|i: int, j: int|
            0 <= i < j < self.tasks.len() ==> (#[trigger] self.tasks[i]).id < (
            #[trigger] self.tasks[j]).id
    }

    /// Whether some task of the store has identifier `id`.
    pub open spec fn contains(self, id: int) -> bool {
        exists|i: int| 0 <= i < self.tasks.len() && (#[trigger] self.tasks[i]).id == id
    }

    /// The task that `create` makes from a payload: it gets `next_id`.
    pub open spec fn fresh(self, name: Seq<char>, description: Seq<char>) -> TaskView {
        TaskView { id: self.next_id, name, description }
    }

    /// The store after creating a task: the fresh task is appended and the
    /// counter moves on by one.
    pub open spec fn create(self, name: Seq<char>, description: Seq<char>) -> StoreView {
        StoreView {
            tasks: self.tasks.push(self.fresh(name, description)),
            next_id: self.next_id + 1,
        }
    }

    /// The store after deleting `id`: every task with that identifier is gone,
    /// the others keep their order, and the counter is untouched.
    pub open spec fn delete(self, id: int) -> StoreView {
        StoreView { tasks: self.tasks.filter(|t: TaskView| t.id != id), next_id: self.next_id }
    }

    /// The store after one operation.
    pub open spec fn step(self, op: Op) -> StoreView {
        match op {
            Op::Create { name, description } => self.create(name, description),
            Op::Delete { id } => self.delete(id),
        }
    }

    /// The store after a sequence of operations, applied first to last.
    pub open spec fn run(self, ops: Seq<Op>) -> StoreView
        decreases ops.len(),
    {
        if ops.len() == 0 {
            self
        } else {
            self.run(ops.drop_last()).step(ops.last())
        }
    }

    /// The identifier that operation `i` of `ops` hands out when it is a
    /// creation: the counter as the operations before it left it.
    pub open spec fn issued(self, ops: Seq<Op>, i: int) -> int {
        self.run(ops.take(i)).next_id
    }
}

} // verus!
