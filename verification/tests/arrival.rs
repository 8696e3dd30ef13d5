use std::sync::Mutex;
use task_service::{create_task, get_tasks, AppState, TaskInput};

/// The callers 0..k in the order in which they reach the lock.
fn arrival_order(k: u32, stride: u32) -> Vec<u32> {
    let mut order = Vec::new();
    let mut at = 0;
    for _ in 0..k {
        order.push(at);
        at = (at + stride) % k;
    }
    order
}

#[test]
fn creations_behind_one_lock_number_from_one_in_any_order() {
    let k: u32 = 64;
    for stride in [1, 3, 5, 27, 63] {
        let state = Mutex::new(AppState::new());
        let order = arrival_order(k, stride);
        let mut returned = vec![0; k as usize];
        for caller in &order {
            let payload =
                TaskInput { name: format!("task {}", caller), description: String::new() };
            let mut guard = state.lock().unwrap();
            returned[*caller as usize] = create_task(Some(payload), &mut guard).unwrap().id;
        }
        let guard = state.lock().unwrap();
        let stored = get_tasks(&guard);
        assert_eq!(stored.len(), k as usize);
        for (position, task) in stored.iter().enumerate() {
            assert_eq!(task.id, position as u32 + 1);
            assert_eq!(task.name, format!("task {}", order[position]));
            assert_eq!(returned[order[position] as usize], task.id);
        }
        let mut sorted = returned.clone();
        sorted.sort();
        let expected: Vec<u32> = (1..=k).collect();
        assert_eq!(sorted, expected);
        assert_eq!(guard.next_id(), k + 1);
    }
}
