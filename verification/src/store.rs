//! The task store: the tasks in creation order and the identifier counter,
//! changed together by every operation.

use vstd::prelude::*;
use crate::laws::{lemma_create_wf, lemma_delete_wf, lemma_filter_take_next};
use crate::model::StoreView;
use crate::task::{task_views, Task, TaskView};

verus! {

/// The state of the service. It is meant to live behind a single lock, so
/// that each operation below is one atomic step.
pub struct AppState {
    tasks: Vec<Task>,
    next_id: u32,
}

impl View for AppState {
    type V = StoreView;

    closed spec fn view(&self) -> StoreView {
        StoreView { tasks: task_views(self.tasks@), next_id: self.next_id as int }
    }
}

impl AppState {
    /// Every state satisfies the invariant of the model.
    #[verifier::type_invariant]
    pub open spec fn inv(self) -> bool {
        self@.wf()
    }

    /// The state a service starts with.
    pub fn new() -> (state: AppState)
        ensures
            state@ == StoreView::empty(),
    {
        let state = AppState { tasks: Vec::new(), next_id: 1 };
        assert(state@.tasks =~= Seq::empty());
        state
    }

    /// The identifier the next created task will get.
    pub fn next_id(&self) -> (id: u32)
        ensures
            id == self@.next_id,
            self@.wf(),
    {
        proof {
            use_type_invariant(self);
        }
        self.next_id
    }

    /// A snapshot of the tasks, oldest first.
    pub fn list(&self) -> (tasks: Vec<Task>)
        ensures
            task_views(tasks@) == self@.tasks,
            self@.wf(),
    {
        proof {
            use_type_invariant(self);
        }
        let mut tasks: Vec<Task> = Vec::new();
        let mut i: usize = 0;
        while i < self.tasks.len()
            invariant
                i <= self.tasks.len(),
                tasks@ == self.tasks@.take(i as int),
            decreases self.tasks.len() - i,
        {
            tasks.push(self.tasks[i].clone());
            assert(self.tasks@.take(i + 1) =~= self.tasks@.take(i as int).push(self.tasks@[i as int]));
            i = i + 1;
        }
        assert(self.tasks@.take(i as int) =~= self.tasks@);
        tasks
    }

    /// Creates a task from `name` and `description` under the next
    /// identifier, appends it, and returns it. The counter moves on by one.
    pub fn create(&mut self, name: String, description: String) -> (task: Task)
        requires
            old(self)@.next_id < u32::MAX,
        ensures
            final(self)@ == old(self)@.create(name@, description@),
            task@ == old(self)@.fresh(name@, description@),
            final(self)@.wf(),
    {
        proof {
            use_type_invariant(&*self);
        }
        let task = Task { id: self.next_id, name, description };
        let mut tasks: Vec<Task> = Vec::new();
        std::mem::swap(&mut self.tasks, &mut tasks);
        tasks.push(task.clone());
        self.next_id = self.next_id + 1;
        proof {
            assert(task_views(tasks@) =~= old(self)@.tasks.push(task@));
            lemma_create_wf(old(self)@, name@, description@);
        }
        std::mem::swap(&mut self.tasks, &mut tasks);
        task
    }

    /// Removes every task whose identifier is `id`; the others keep their
    /// order. Nothing changes when no task has that identifier.
    pub fn delete(&mut self, id: u32)
        ensures
            final(self)@ == old(self)@.delete(id as int),
            final(self)@.wf(),
    {
        proof {
            use_type_invariant(&*self);
        }
        let mut tasks: Vec<Task> = Vec::new();
        std::mem::swap(&mut self.tasks, &mut tasks);
        remove_id(&mut tasks, id);
        proof {
            lemma_delete_wf(old(self)@, id as int);
        }
        std::mem::swap(&mut self.tasks, &mut tasks);
    }
}

/// Removes from `tasks` every task whose identifier is `id`, in place.
fn remove_id(tasks: &mut Vec<Task>, id: u32)
    ensures
        task_views(final(tasks)@) == task_views(old(tasks)@).filter(|t: TaskView| t.id != id as int),
{
    let ghost before = task_views(old(tasks)@);
    let ghost keep = |t: TaskView| t.id != id as int;
    let ghost mut seen: int = 0;
    let mut i: usize = 0;
    proof {
        reveal(Seq::filter);
        assert(before.take(0).filter(keep) =~= Seq::<TaskView>::empty());
        assert(task_views(tasks@).take(0) =~= Seq::<TaskView>::empty());
    }
    while i < tasks.len()
        invariant
            i <= tasks.len(),
            0 <= seen <= before.len(),
            tasks.len() - i == before.len() - seen,
            before == task_views(old(tasks)@),
            keep == |t: TaskView| t.id != id as int,
            task_views(tasks@).take(i as int) == before.take(seen).filter(keep),
            task_views(tasks@).skip(i as int) == before.skip(seen),
        decreases tasks.len() - i,
    {
        let ghost current = task_views(tasks@);
        proof {
            lemma_filter_take_next(before, keep, seen);
            assert(current[i as int] == current.skip(i as int)[0]);
            assert(before[seen] == before.skip(seen)[0]);
            assert(before.skip(seen + 1) =~= before.skip(seen).skip(1));
            seen = seen + 1;
        }
        if tasks[i].id == id {
            tasks.remove(i);
            proof {
                assert(task_views(tasks@) =~= current.remove(i as int));
                assert(task_views(tasks@).take(i as int) =~= current.take(i as int));
                assert(task_views(tasks@).skip(i as int) =~= current.skip(i as int).skip(1));
            }
        } else {
            proof {
                assert(current.take(i + 1) =~= current.take(i as int).push(current[i as int]));
                assert(current.skip(i + 1) =~= current.skip(i as int).skip(1));
            }
            i = i + 1;
        }
    }
    proof {
        assert(task_views(tasks@).take(i as int) =~= task_views(tasks@));
        assert(before.take(seen) =~= before);
    }
}

} // verus!
