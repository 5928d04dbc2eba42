use wasmyon::pool::{ContextEvent, ContextPool, ContextState, EventOutcome};
use wasmyon::registry::ContextRegistry;

fn pool_with_idle(n: usize) -> ContextPool {
    let mut pool = ContextPool::new();
    for i in 0..n {
        assert_eq!(pool.join_idle(), i);
    }
    pool
}

fn sorted(mut v: Vec<usize>) -> Vec<usize> {
    v.sort();
    v
}

#[test]
fn registry_refuses_duplicate_handle() {
    let mut r = ContextRegistry::new();
    assert!(r.push(3));
    assert!(r.push(7));
    assert!(!r.push(3));
    assert_eq!(r.handles(), vec![3, 7]);
    assert!(r.contains(7));
    assert!(!r.contains(4));
    assert_eq!(r.len(), 2);
}

#[test]
fn registry_pops_most_recent_first() {
    let mut r = ContextRegistry::new();
    assert_eq!(r.pop(), None);
    r.push(1);
    r.push(2);
    assert_eq!(r.pop(), Some(2));
    assert_eq!(r.pop(), Some(1));
    assert_eq!(r.pop(), None);
}

#[test]
fn new_pool_registers_initial_contexts_as_idle() {
    let pool = pool_with_idle(3);
    assert_eq!(pool.size(), 3);
    assert_eq!(pool.idle_handles(), vec![0, 1, 2]);
    assert_eq!(pool.state(2), Some(ContextState::Idle));
    assert_eq!(pool.state(3), None);
}

#[test]
fn acquire_on_empty_pool_asks_for_spawn_and_keeps_size() {
    let mut pool = ContextPool::new();
    assert_eq!(pool.acquire(), None);
    assert_eq!(pool.size(), 0);
    let h = pool.join_lent();
    assert_eq!(h, 0);
    assert_eq!(pool.size(), 1);
    assert_eq!(pool.state(h), Some(ContextState::Lent));
    assert_eq!(pool.idle_count(), 0);
}

#[test]
fn acquire_takes_most_recently_idled_context() {
    let mut pool = pool_with_idle(2);
    assert_eq!(pool.acquire(), Some(1));
    assert_eq!(pool.state(1), Some(ContextState::Lent));
    assert_eq!(pool.idle_handles(), vec![0]);
    assert_eq!(pool.size(), 2);
}

#[test]
fn each_completed_task_is_reported_once() {
    let mut pool = ContextPool::new();
    let mut handles = Vec::new();
    let mut ids = Vec::new();
    for _ in 0..4 {
        let h = match pool.acquire() {
            Some(h) => h,
            None => pool.join_lent(),
        };
        ids.push(pool.dispatch(h, true).unwrap());
        handles.push(h);
    }
    assert_eq!(ids, vec![0, 1, 2, 3]);
    let mut reported = Vec::new();
    for &h in handles.iter().rev() {
        match pool.on_event(h, ContextEvent::Completed) {
            EventOutcome::Reclaimed(t) => reported.push(t),
            other => panic!("unexpected outcome {:?}", other),
        }
        assert_eq!(pool.on_event(h, ContextEvent::Completed), EventOutcome::Ignored);
    }
    reported.sort();
    assert_eq!(reported, vec![0, 1, 2, 3]);
    assert_eq!(pool.tasks_issued(), 4);
}

#[test]
fn quiescent_pool_holds_exactly_the_initial_contexts() {
    let mut pool = pool_with_idle(5);
    let mut running = Vec::new();
    for _ in 0..5 {
        let h = pool.acquire().unwrap();
        pool.dispatch(h, true).unwrap();
        running.push(h);
    }
    assert_eq!(pool.idle_count(), 0);
    for &h in [2usize, 0, 4, 1, 3].iter() {
        let h = running[h];
        assert!(matches!(pool.on_event(h, ContextEvent::Completed), EventOutcome::Reclaimed(_)));
    }
    assert_eq!(pool.size(), 5);
    assert_eq!(sorted(pool.idle_handles()), vec![0, 1, 2, 3, 4]);
}

#[test]
fn pool_size_never_decreases() {
    let mut pool = pool_with_idle(1);
    let mut last = pool.size();
    let h = pool.acquire().unwrap();
    assert!(pool.size() >= last);
    last = pool.size();
    let g = pool.join_lent();
    assert!(pool.size() >= last);
    last = pool.size();
    pool.dispatch(h, true);
    pool.dispatch(g, false);
    assert!(pool.size() >= last);
    pool.on_event(h, ContextEvent::ErrorSignal);
    pool.on_event(g, ContextEvent::Completed);
    assert_eq!(pool.size(), 2);
}

#[test]
fn error_signal_holds_context_back() {
    let mut pool = pool_with_idle(1);
    let h = pool.acquire().unwrap();
    let t = pool.dispatch(h, true).unwrap();
    assert_eq!(pool.on_event(h, ContextEvent::ErrorSignal), EventOutcome::Faulted(t));
    assert_eq!(pool.state(h), Some(ContextState::Faulted(t)));
    assert_eq!(pool.on_event(h, ContextEvent::Completed), EventOutcome::Ignored);
    assert_eq!(pool.idle_count(), 0);
    assert_eq!(pool.acquire(), None);
}

#[test]
fn failed_hand_over_detaches_context() {
    let mut pool = pool_with_idle(1);
    let h = pool.acquire().unwrap();
    assert_eq!(pool.dispatch(h, false), None);
    assert_eq!(pool.state(h), Some(ContextState::Detached));
    assert_eq!(pool.tasks_issued(), 0);
    assert_eq!(pool.on_event(h, ContextEvent::Completed), EventOutcome::Ignored);
    assert_eq!(pool.idle_count(), 0);
}

#[test]
fn other_events_change_nothing() {
    let mut pool = pool_with_idle(1);
    let h = pool.acquire().unwrap();
    let t = pool.dispatch(h, true).unwrap();
    assert_eq!(pool.on_event(h, ContextEvent::Other), EventOutcome::Ignored);
    assert_eq!(pool.state(h), Some(ContextState::Busy(t)));
    assert_eq!(pool.on_event(9, ContextEvent::Completed), EventOutcome::Ignored);
    assert_eq!(pool.on_event(h, ContextEvent::Completed), EventOutcome::Reclaimed(t));
    assert_eq!(pool.idle_handles(), vec![h]);
}
