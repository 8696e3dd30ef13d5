//! What holds of the store's model: the invariant is kept by every
//! operation, and deleting behaves as a removal of at most one task.

use vstd::prelude::*;
use crate::model::{Op, StoreView};
use crate::task::TaskView;

verus! {

/// Filtering one element more of a sequence either appends that element to
/// what was kept so far or changes nothing.
pub proof fn lemma_filter_take_next<A>(s: Seq<A>, pred: spec_fn(A) -> bool, n: int)
    requires
        0 <= n < s.len(),
    ensures
        s.take(n + 1).filter(pred) == if pred(s[n]) {
            s.take(n).filter(pred).push(s[n])
        } else {
            s.take(n).filter(pred)
        },
{
    reveal(Seq::filter);
    assert(s.take(n + 1).drop_last() =~= s.take(n));
}

/// A sequence that a predicate holds of throughout is its own filter.
pub proof fn lemma_filter_all<A>(s: Seq<A>, pred: spec_fn(A) -> bool)
    requires
        forall|i: int| 0 <= i < s.len() ==> pred(#[trigger] s[i]),
    ensures
        s.filter(pred) == s,
    decreases s.len(),
{
    reveal(Seq::filter);
    if s.len() > 0 {
        let front = s.drop_last();
        assert forall|i: int| 0 <= i < front.len() implies pred(#[trigger] front[i]) by {
            assert(front[i] == s[i]);
        }
        lemma_filter_all(front, pred);
        assert(front.push(s.last()) =~= s);
    }
}

/// The empty store satisfies the invariant.
pub proof fn lemma_empty_wf()
    ensures
        StoreView::empty().wf(),
{
}

/// Creating a task keeps the invariant.
pub proof fn lemma_create_wf(s: StoreView, name: Seq<char>, description: Seq<char>)
    requires
        s.wf(),
    ensures
        s.create(name, description).wf(),
{
}

/// Deleting keeps the invariant: what is left is still in increasing order
/// of identifiers, all of them below the counter.
pub proof fn lemma_delete_wf(s: StoreView, id: int)
    requires
        s.wf(),
    ensures
        s.delete(id).wf(),
    decreases s.tasks.len(),
{
    let keep = |t: TaskView| t.id != id;
    let kept = s.tasks.filter(keep);
    reveal(Seq::filter);
    if s.tasks.len() > 0 {
        let front = StoreView { tasks: s.tasks.drop_last(), next_id: s.next_id };
        assert forall|i: int| 0 <= i < front.tasks.len() implies 1 <= (
        #[trigger] front.tasks[i]).id < front.next_id by {
            assert(front.tasks[i] == s.tasks[i]);
        }
        assert forall|i: int, j: int| 0 <= i < j < front.tasks.len() implies (
        #[trigger] front.tasks[i]).id < (#[trigger] front.tasks[j]).id by {
            assert(front.tasks[i] == s.tasks[i]);
            assert(front.tasks[j] == s.tasks[j]);
        }
        lemma_delete_wf(front, id);
        let front_kept = front.tasks.filter(keep);
        assert(front.delete(id).tasks == front_kept);
        if keep(s.tasks.last()) {
            assert(kept == front_kept.push(s.tasks.last()));
            assert forall|i: int| 0 <= i < front_kept.len() implies (#[trigger] front_kept[i]).id
                < s.tasks.last().id by {
                assert(front_kept.contains(front_kept[i]));
                front.tasks.lemma_filter_contains_rev(keep, front_kept[i]);
                let j = choose|j: int| 0 <= j < front.tasks.len() && front.tasks[j] == front_kept[i];
                assert(front.tasks[j] == s.tasks[j]);
            }
            assert forall|i: int, j: int| 0 <= i < j < kept.len() implies (#[trigger] kept[i]).id < (
            #[trigger] kept[j]).id by {
                if j < front_kept.len() {
                    assert(kept[i] == front_kept[i]);
                    assert(kept[j] == front_kept[j]);
                } else {
                    assert(kept[i] == front_kept[i]);
                }
            }
            assert forall|i: int| 0 <= i < kept.len() implies 1 <= (#[trigger] kept[i]).id
                < s.next_id by {
                if i < front_kept.len() {
                    assert(kept[i] == front_kept[i]);
                }
            }
        } else {
            assert(kept == front_kept);
        }
    }
}

/// Deleting an identifier that no task has changes nothing.
pub proof fn lemma_delete_absent(s: StoreView, id: int)
    requires
        !s.contains(id),
    ensures
        s.delete(id) == s,
{
    lemma_filter_all(s.tasks, |t: TaskView| t.id != id);
}

/// Deleting the identifier of the task at position `k` removes exactly that
/// task: the others stay, in their order, and the counter is untouched.
pub proof fn lemma_delete_present(s: StoreView, k: int)
    requires
        s.wf(),
        0 <= k < s.tasks.len(),
    ensures
        s.delete(s.tasks[k].id).tasks == s.tasks.remove(k),
        s.delete(s.tasks[k].id).next_id == s.next_id,
        !s.delete(s.tasks[k].id).contains(s.tasks[k].id),
{
    let id = s.tasks[k].id;
    let keep = |t: TaskView| t.id != id;
    let front = s.tasks.take(k);
    let one = seq![s.tasks[k]];
    let back = s.tasks.skip(k + 1);
    assert(s.tasks =~= front + one + back);
    Seq::filter_distributes_over_add(front + one, back, keep);
    Seq::filter_distributes_over_add(front, one, keep);
    assert forall|i: int| 0 <= i < front.len() implies keep(#[trigger] front[i]) by {
        assert(front[i] == s.tasks[i]);
    }
    lemma_filter_all(front, keep);
    assert forall|i: int| 0 <= i < back.len() implies keep(#[trigger] back[i]) by {
        assert(back[i] == s.tasks[k + 1 + i]);
    }
    lemma_filter_all(back, keep);
    assert(one.filter(keep) =~= Seq::<TaskView>::empty()) by {
        reveal_with_fuel(Seq::filter, 2);
        assert(one.drop_last() =~= Seq::<TaskView>::empty());
    }
    assert(front + Seq::<TaskView>::empty() + back =~= s.tasks.remove(k));
    let left = s.tasks.remove(k);
    assert forall|i: int| 0 <= i < left.len() implies (#[trigger] left[i]).id != id by {
        if i < k {
            assert(left[i] == s.tasks[i]);
        } else {
            assert(left[i] == s.tasks[i + 1]);
        }
    }
}

/// Deleting the same identifier a second time changes nothing.
pub proof fn lemma_delete_idempotent(s: StoreView, id: int)
    ensures
        s.delete(id).delete(id) == s.delete(id),
        !s.delete(id).contains(id),
{
    let keep = |t: TaskView| t.id != id;
    let kept = s.tasks.filter(keep);
    assert forall|i: int| 0 <= i < kept.len() implies keep(#[trigger] kept[i]) by {
        s.tasks.lemma_filter_pred(keep, i);
    }
    lemma_filter_all(kept, keep);
}

/// Right after a creation the new task is the last one, the tasks before it
/// are those that were there, and no other task has its identifier.
pub proof fn lemma_create_appends(s: StoreView, name: Seq<char>, description: Seq<char>)
    requires
        s.wf(),
    ensures
        s.create(name, description).tasks.len() == s.tasks.len() + 1,
        s.create(name, description).tasks.last() == s.fresh(name, description),
        s.create(name, description).tasks.drop_last() == s.tasks,
        forall|i: int|
            0 <= i < s.tasks.len() ==> (#[trigger] s.create(name, description).tasks[i]).id
                != s.next_id,
{
    let after = s.create(name, description);
    assert(after.tasks.drop_last() =~= s.tasks);
    assert forall|i: int| 0 <= i < s.tasks.len() implies (#[trigger] after.tasks[i]).id
        != s.next_id by {
        assert(after.tasks[i] == s.tasks[i]);
    }
}

/// A creation raises the counter by exactly one; a deletion leaves it as it
/// is.
pub proof fn lemma_step_counter(s: StoreView, op: Op)
    ensures
        s.step(op).next_id == if op is Create {
            s.next_id + 1
        } else {
            s.next_id
        },
{
}

/// The counter after a prefix of the operations is at most the counter
/// after a longer prefix.
pub proof fn lemma_counter_monotone(s: StoreView, ops: Seq<Op>, i: int, j: int)
    requires
        0 <= i <= j <= ops.len(),
    ensures
        s.issued(ops, i) <= s.issued(ops, j),
    decreases j,
{
    if i < j {
        lemma_counter_monotone(s, ops, i, j - 1);
        assert(ops.take(j).drop_last() =~= ops.take(j - 1));
    }
}

/// Every identifier that a creation hands out is greater than every one
/// handed out before it, whatever creations and deletions lie between.
pub proof fn lemma_issued_increasing(s: StoreView, ops: Seq<Op>, i: int, j: int)
    requires
        0 <= i < j < ops.len(),
        ops[i] is Create,
        ops[j] is Create,
    ensures
        s.issued(ops, i) < s.issued(ops, j),
{
    assert(ops.take(i + 1).drop_last() =~= ops.take(i));
    assert(ops.take(i + 1).last() == ops[i]);
    assert(s.issued(ops, i + 1) == s.issued(ops, i) + 1);
    lemma_counter_monotone(s, ops, i + 1, j);
}

/// Every store that operations lead to from one that satisfies the
/// invariant satisfies it too.
pub proof fn lemma_run_wf(s: StoreView, ops: Seq<Op>)
    requires
        s.wf(),
    ensures
        s.run(ops).wf(),
    decreases ops.len(),
{
    if ops.len() > 0 {
        lemma_run_wf(s, ops.drop_last());
        let before = s.run(ops.drop_last());
        match ops.last() {
            Op::Create { name, description } => lemma_create_wf(before, name, description),
            Op::Delete { id } => lemma_delete_wf(before, id),
        }
    }
}

/// A created task stays in the store, unchanged and as the only task with
/// its identifier, for as long as no operation deletes that identifier.
pub proof fn lemma_created_stays(
    s: StoreView,
    name: Seq<char>,
    description: Seq<char>,
    ops: Seq<Op>,
)
    requires
        s.wf(),
        forall|i: int| 0 <= i < ops.len() ==> #[trigger] ops[i] != (Op::Delete { id: s.next_id }),
    ensures
        ({
            let after = s.create(name, description).run(ops);
            &&& after.tasks.contains(s.fresh(name, description))
            &&& forall|i: int, j: int|
                0 <= i < after.tasks.len() && 0 <= j < after.tasks.len() && (
                #[trigger] after.tasks[i]).id == s.next_id && (#[trigger] after.tasks[j]).id
                    == s.next_id ==> i == j
        }),
    decreases ops.len(),
{
    let fresh = s.fresh(name, description);
    let created = s.create(name, description);
    let after = created.run(ops);
    lemma_create_wf(s, name, description);
    lemma_run_wf(created, ops);
    if ops.len() == 0 {
        assert(created.tasks.last() == fresh);
    } else {
        let front = ops.drop_last();
        assert forall|i: int| 0 <= i < front.len() implies #[trigger] front[i] != (Op::Delete {
            id: s.next_id,
        }) by {
            assert(front[i] == ops[i]);
        }
        lemma_created_stays(s, name, description, front);
        let mid = created.run(front);
        let k = choose|k: int| 0 <= k < mid.tasks.len() && mid.tasks[k] == fresh;
        match ops.last() {
            Op::Create { name: other_name, description: other_description } => {
                assert(after.tasks[k] == fresh);
            },
            Op::Delete { id } => {
                assert(ops[ops.len() - 1] != (Op::Delete { id: s.next_id }));
                mid.tasks.lemma_filter_contains(|t: TaskView| t.id != id, k);
            },
        }
    }
}

/// Creations alone, from the empty store, number the tasks from 1 in the
/// order in which they were applied, and leave the counter one above their
/// number. This holds of every order in which concurrent creations may
/// reach the store.
pub proof fn lemma_creations_from_empty(ops: Seq<Op>)
    requires
        forall|i: int| 0 <= i < ops.len() ==> #[trigger] ops[i] is Create,
    ensures
        StoreView::empty().run(ops).next_id == ops.len() + 1,
        StoreView::empty().run(ops).tasks.len() == ops.len(),
        forall|i: int|
            0 <= i < ops.len() ==> #[trigger] StoreView::empty().run(ops).tasks[i] == (TaskView {
                id: i + 1,
                name: ops[i]->name,
                description: ops[i]->description,
            }),
    decreases ops.len(),
{
    if ops.len() > 0 {
        let front = ops.drop_last();
        assert forall|i: int| 0 <= i < front.len() implies #[trigger] front[i] is Create by {
            assert(front[i] == ops[i]);
        }
        lemma_creations_from_empty(front);
        let mid = StoreView::empty().run(front);
        let after = StoreView::empty().run(ops);
        assert(ops.last() == ops[ops.len() - 1]);
        assert forall|i: int| 0 <= i < ops.len() implies #[trigger] after.tasks[i] == (TaskView {
            id: i + 1,
            name: ops[i]->name,
            description: ops[i]->description,
        }) by {
            if i < front.len() {
                assert(after.tasks[i] == mid.tasks[i]);
                assert(front[i] == ops[i]);
            }
        }
    }
}

} // verus!
