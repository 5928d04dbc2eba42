use wasmyon::bridge::{Bootstrap, BootstrapError, BridgeConfig};
use wasmyon::entry::{ContextEntry, EntryAction, EntryPhase, Incoming};

#[test]
fn bootstrap_with_no_initial_contexts_and_four_workers() {
    let mut b = Bootstrap::new();
    assert!(!b.is_ready());
    let c = b.start(0, 4).unwrap();
    assert_eq!(c, BridgeConfig { initial_contexts: 0, logical_workers: 4 });
    assert!(b.is_ready());
    assert_eq!(b.config(), Some(c));
}

#[test]
fn second_bootstrap_is_refused() {
    let mut b = Bootstrap::new();
    b.start(5, 2).unwrap();
    assert_eq!(b.start(1, 8), Err(BootstrapError::AlreadyInitialized));
    assert_eq!(b.config(), Some(BridgeConfig { initial_contexts: 5, logical_workers: 2 }));
}

#[test]
fn bootstrap_without_workers_is_refused() {
    let mut b = Bootstrap::new();
    assert_eq!(b.start(3, 0), Err(BootstrapError::NoWorkers));
    assert!(!b.is_ready());
    assert!(b.start(3, 1).is_ok());
}

#[test]
fn tasks_wait_for_setup_and_replay_in_order() {
    let mut e = ContextEntry::new();
    assert_eq!(e.phase(), EntryPhase::Uninitialized);
    assert_eq!(e.receive(Incoming::Setup), EntryAction::BeginInit);
    assert_eq!(e.phase(), EntryPhase::Initializing);
    assert_eq!(e.receive(Incoming::Task(40)), EntryAction::Queued);
    assert_eq!(e.receive(Incoming::Task(8)), EntryAction::Queued);
    assert_eq!(e.receive(Incoming::Task(16)), EntryAction::Queued);
    assert_eq!(e.pending_count(), 3);
    assert_eq!(e.finish_init(true), vec![40, 8, 16]);
    assert_eq!(e.phase(), EntryPhase::Ready);
    assert_eq!(e.pending_count(), 0);
    assert_eq!(e.receive(Incoming::Task(24)), EntryAction::Run(24));
    assert_eq!(e.receive(Incoming::Setup), EntryAction::Ignore);
}

#[test]
fn task_before_setup_is_refused() {
    let mut e = ContextEntry::new();
    assert_eq!(e.receive(Incoming::Task(12)), EntryAction::Refuse(12));
    assert_eq!(e.phase(), EntryPhase::Uninitialized);
    assert_eq!(e.finish_init(true), Vec::<u32>::new());
    assert_eq!(e.phase(), EntryPhase::Uninitialized);
}

#[test]
fn failed_setup_hands_back_waiting_tasks() {
    let mut e = ContextEntry::new();
    e.receive(Incoming::Setup);
    e.receive(Incoming::Task(4));
    assert_eq!(e.finish_init(false), vec![4]);
    assert_eq!(e.phase(), EntryPhase::Broken);
    assert_eq!(e.receive(Incoming::Task(8)), EntryAction::Refuse(8));
}
