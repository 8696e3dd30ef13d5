use task_service::{AppState, Task};

fn ids(state: &AppState) -> Vec<u32> {
    let mut out = Vec::new();
    for task in state.list() {
        out.push(task.id);
    }
    out
}

#[test]
fn new_store_is_empty_and_starts_at_one() {
    let state = AppState::new();
    assert!(state.list().is_empty());
    assert_eq!(state.next_id(), 1);
}

#[test]
fn create_returns_the_task_it_stored() {
    let mut state = AppState::new();
    let task = state.create("Buy milk".to_string(), "2%".to_string());
    assert_eq!(
        task,
        Task { id: 1, name: "Buy milk".to_string(), description: "2%".to_string() }
    );
    assert_eq!(state.list(), vec![task]);
    assert_eq!(state.next_id(), 2);
}

#[test]
fn created_task_is_last_and_alone_with_its_id() {
    let mut state = AppState::new();
    state.create("a".to_string(), "first".to_string());
    state.create("b".to_string(), "second".to_string());
    let task = state.create("c".to_string(), "third".to_string());
    let list = state.list();
    assert_eq!(list.len(), 3);
    assert_eq!(list[2], task);
    assert_eq!(list[2].name, "c");
    assert_eq!(list[2].description, "third");
    let mut with_id = 0;
    for t in &list {
        if t.id == task.id {
            with_id += 1;
        }
    }
    assert_eq!(with_id, 1);
}

#[test]
fn ids_increase_across_creations_and_deletions() {
    let mut state = AppState::new();
    let mut issued = Vec::new();
    issued.push(state.create("a".to_string(), String::new()).id);
    issued.push(state.create("b".to_string(), String::new()).id);
    state.delete(2);
    issued.push(state.create("c".to_string(), String::new()).id);
    state.delete(1);
    state.delete(3);
    issued.push(state.create("d".to_string(), String::new()).id);
    state.delete(77);
    issued.push(state.create("e".to_string(), String::new()).id);
    assert_eq!(issued, vec![1, 2, 3, 4, 5]);
    for pair in issued.windows(2) {
        assert!(pair[0] < pair[1]);
    }
}

#[test]
fn deleted_id_is_never_reused() {
    let mut state = AppState::new();
    state.create("a".to_string(), String::new());
    state.delete(1);
    assert!(state.list().is_empty());
    assert_eq!(state.next_id(), 2);
    let task = state.create("b".to_string(), String::new());
    assert_eq!(task.id, 2);
    assert_eq!(ids(&state), vec![2]);
}

#[test]
fn delete_of_absent_id_changes_nothing() {
    let mut state = AppState::new();
    state.create("a".to_string(), "x".to_string());
    state.create("b".to_string(), "y".to_string());
    let before = state.list();
    state.delete(99);
    assert_eq!(state.list(), before);
    assert_eq!(state.next_id(), 3);
    state.delete(0);
    assert_eq!(state.list(), before);
    state.delete(u32::MAX);
    assert_eq!(state.list(), before);
    assert_eq!(state.next_id(), 3);
}

#[test]
fn delete_on_empty_store_changes_nothing() {
    let mut state = AppState::new();
    state.delete(1);
    assert!(state.list().is_empty());
    assert_eq!(state.next_id(), 1);
}

#[test]
fn delete_removes_exactly_that_task_and_keeps_order() {
    let mut state = AppState::new();
    for name in ["a", "b", "c", "d", "e"] {
        state.create(name.to_string(), format!("about {}", name));
    }
    let before = state.list();
    state.delete(3);
    let after = state.list();
    assert_eq!(ids(&state), vec![1, 2, 4, 5]);
    assert_eq!(after[0], before[0]);
    assert_eq!(after[1], before[1]);
    assert_eq!(after[2], before[3]);
    assert_eq!(after[3], before[4]);
    assert_eq!(state.next_id(), 6);
    state.delete(1);
    assert_eq!(ids(&state), vec![2, 4, 5]);
    state.delete(5);
    assert_eq!(ids(&state), vec![2, 4]);
}

#[test]
fn delete_twice_is_delete_once() {
    let mut once = AppState::new();
    let mut twice = AppState::new();
    for name in ["a", "b", "c"] {
        once.create(name.to_string(), String::new());
        twice.create(name.to_string(), String::new());
    }
    once.delete(2);
    twice.delete(2);
    twice.delete(2);
    assert_eq!(once.list(), twice.list());
    assert_eq!(once.next_id(), twice.next_id());
    assert_eq!(ids(&twice), vec![1, 3]);
}

#[test]
fn list_is_a_snapshot() {
    let mut state = AppState::new();
    state.create("a".to_string(), String::new());
    let snapshot = state.list();
    state.create("b".to_string(), String::new());
    state.delete(1);
    assert_eq!(snapshot.len(), 1);
    assert_eq!(snapshot[0].id, 1);
    assert_eq!(ids(&state), vec![2]);
}

#[test]
fn creations_from_empty_number_from_one() {
    let mut state = AppState::new();
    let k: u32 = 50;
    for i in 0..k {
        let task = state.create(format!("task {}", i), String::new());
        assert_eq!(task.id, i + 1);
    }
    let expected: Vec<u32> = (1..=k).collect();
    assert_eq!(ids(&state), expected);
    assert_eq!(state.next_id(), k + 1);
}

#[test]
fn names_and_descriptions_are_kept_as_given() {
    let mut state = AppState::new();
    let name = "  caf\u{e9} \u{1f600}\n".to_string();
    let description = String::new();
    let task = state.create(name.clone(), description.clone());
    assert_eq!(task.name, name);
    assert_eq!(task.description, description);
    let same = state.create(name.clone(), description.clone());
    assert_eq!(same.id, 2);
    let list = state.list();
    assert_eq!(list[0].name, list[1].name);
}

#[test]
fn clone_of_a_task_equals_it() {
    let task = Task { id: 7, name: "n".to_string(), description: "d".to_string() };
    let copy = task.clone();
    assert_eq!(copy, task);
    assert_eq!(copy.id, 7);
    assert_eq!(copy.name, "n");
    assert_eq!(copy.description, "d");
}
