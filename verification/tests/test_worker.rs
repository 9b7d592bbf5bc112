use std::sync::atomic::{AtomicBool, Ordering};
use std::sync::{Arc, Weak};

use mediasoup::{close_worker, register, unregister, worker_ids, Closing, WorkerId, WorkerRegistry};

/// A stand-in for a native worker: an identifier and a closed flag.
struct FakeWorker {
    id: WorkerId,
    closed: AtomicBool,
}

impl FakeWorker {
    fn new(id: WorkerId) -> Arc<FakeWorker> {
        Arc::new(FakeWorker { id, closed: AtomicBool::new(false) })
    }

    fn close(&self) {
        self.closed.store(true, Ordering::SeqCst);
    }

    fn closed(&self) -> bool {
        self.closed.load(Ordering::SeqCst)
    }
}

fn upgrade(worker: &Weak<FakeWorker>) -> Option<Arc<FakeWorker>> {
    worker.upgrade()
}

fn is_closed(worker: &Arc<FakeWorker>) -> bool {
    worker.closed()
}

fn ids(registry: &mut WorkerRegistry<Weak<FakeWorker>>) -> Vec<WorkerId> {
    worker_ids(registry, upgrade, is_closed).0
}

fn close(registry: &mut WorkerRegistry<Weak<FakeWorker>>, id: WorkerId) -> Option<WorkerId> {
    match close_worker(registry, id, upgrade, is_closed) {
        Closing::Open(worker) => {
            worker.close();
            Some(id)
        }
        _ => None,
    }
}

fn add(registry: &mut WorkerRegistry<Weak<FakeWorker>>, worker: &Arc<FakeWorker>) {
    register(registry, worker.id, Arc::downgrade(worker));
}

#[test]
fn closes_the_selected_native_worker_and_cleans_the_registry() {
    let mut registry = WorkerRegistry::new();
    let worker = FakeWorker::new(0x8c1f_22aa_0000_0000_0000_0000_0000_0001);
    let other_worker = FakeWorker::new(0x11d0_9e3b_0000_0000_0000_0000_0000_0002);
    add(&mut registry, &worker);
    add(&mut registry, &other_worker);

    let mut registered_ids = ids(&mut registry);
    registered_ids.sort_unstable();
    let mut expected_ids = vec![worker.id, other_worker.id];
    expected_ids.sort_unstable();
    assert_eq!(registered_ids, expected_ids);

    assert_eq!(close(&mut registry, worker.id), Some(worker.id));

    assert!(worker.closed());
    assert!(!other_worker.closed());
    assert_eq!(ids(&mut registry), vec![other_worker.id]);
    assert_eq!(close(&mut registry, worker.id), None);

    drop(worker);
    drop(other_worker);
    assert!(ids(&mut registry).is_empty());
}

#[test]
fn worker_ids_come_in_ascending_order() {
    let mut registry = WorkerRegistry::new();
    let workers: Vec<Arc<FakeWorker>> =
        [42u128, 7, u128::MAX, 0, 1 << 100, 99].iter().map(|id| FakeWorker::new(*id)).collect();
    for worker in &workers {
        add(&mut registry, worker);
    }
    assert_eq!(ids(&mut registry), vec![0, 7, 42, 99, 1 << 100, u128::MAX]);
    // Asking again gives the same list.
    assert_eq!(ids(&mut registry), vec![0, 7, 42, 99, 1 << 100, u128::MAX]);
}

#[test]
fn worker_ids_drop_closed_and_released_workers() {
    let mut registry = WorkerRegistry::new();
    let a = FakeWorker::new(1);
    let b = FakeWorker::new(2);
    let c = FakeWorker::new(3);
    add(&mut registry, &a);
    add(&mut registry, &b);
    add(&mut registry, &c);
    b.close();
    drop(c);
    assert_eq!(ids(&mut registry), vec![1]);
    // The closed worker was dropped from the registry: closing it finds nothing.
    assert!(matches!(close_worker(&mut registry, 2, upgrade, is_closed), Closing::Unregistered));
}

#[test]
fn empty_registry_lists_nothing() {
    let mut registry: WorkerRegistry<Weak<FakeWorker>> = WorkerRegistry::new();
    assert!(ids(&mut registry).is_empty());
    assert_eq!(close(&mut registry, 5), None);
}

#[test]
fn closing_an_unknown_worker_changes_nothing() {
    let mut registry = WorkerRegistry::new();
    let a = FakeWorker::new(10);
    add(&mut registry, &a);
    assert_eq!(close(&mut registry, 11), None);
    assert!(!a.closed());
    assert_eq!(ids(&mut registry), vec![10]);
}

#[test]
fn closing_an_already_closed_worker_returns_none_and_forgets_it() {
    let mut registry = WorkerRegistry::new();
    let a = FakeWorker::new(10);
    add(&mut registry, &a);
    a.close();
    assert_eq!(close(&mut registry, 10), None);
    let fresh = FakeWorker::new(20);
    add(&mut registry, &fresh);
    assert_eq!(ids(&mut registry), vec![20]);
}

#[test]
fn closing_a_released_worker_returns_none() {
    let mut registry = WorkerRegistry::new();
    let a = FakeWorker::new(10);
    add(&mut registry, &a);
    drop(a);
    assert_eq!(close(&mut registry, 10), None);
}

#[test]
fn close_hands_back_the_registered_worker() {
    let mut registry = WorkerRegistry::new();
    let a = FakeWorker::new(10);
    add(&mut registry, &a);
    match close_worker(&mut registry, 10, upgrade, is_closed) {
        Closing::Open(handed) => assert!(Arc::ptr_eq(&handed, &a)),
        _ => panic!("the worker is open"),
    }
    assert!(!a.closed());
}

#[test]
fn unregister_undoes_register() {
    let mut registry = WorkerRegistry::new();
    let a = FakeWorker::new(3);
    let b = FakeWorker::new(4);
    add(&mut registry, &a);
    add(&mut registry, &b);
    unregister(&mut registry, 4);
    assert_eq!(ids(&mut registry), vec![3]);
    unregister(&mut registry, 4);
    assert_eq!(ids(&mut registry), vec![3]);
}

#[test]
fn register_replaces_the_handle_of_an_identifier() {
    let mut registry = WorkerRegistry::new();
    let old = FakeWorker::new(8);
    let new = FakeWorker::new(8);
    add(&mut registry, &old);
    add(&mut registry, &new);
    old.close();
    assert_eq!(ids(&mut registry), vec![8]);
    match close_worker(&mut registry, 8, upgrade, is_closed) {
        Closing::Open(handed) => assert!(Arc::ptr_eq(&handed, &new)),
        _ => panic!("the worker is open"),
    }
}

#[test]
fn close_reports_what_it_found() {
    let mut registry = WorkerRegistry::new();
    let open = FakeWorker::new(1);
    let closed = FakeWorker::new(2);
    let released = FakeWorker::new(3);
    add(&mut registry, &open);
    add(&mut registry, &closed);
    add(&mut registry, &released);
    closed.close();
    drop(released);

    match close_worker(&mut registry, 2, upgrade, is_closed) {
        Closing::AlreadyClosed(handed) => assert!(Arc::ptr_eq(&handed, &closed)),
        _ => panic!("the worker was closed"),
    }
    assert!(matches!(close_worker(&mut registry, 3, upgrade, is_closed), Closing::Released));
    assert!(matches!(close_worker(&mut registry, 4, upgrade, is_closed), Closing::Unregistered));
    assert!(matches!(close_worker(&mut registry, 2, upgrade, is_closed), Closing::Unregistered));
    assert_eq!(ids(&mut registry), vec![1]);
}

#[test]
fn worker_ids_hand_back_every_worker_they_found() {
    let mut registry = WorkerRegistry::new();
    let open = FakeWorker::new(1);
    let closed = FakeWorker::new(2);
    let released = FakeWorker::new(3);
    add(&mut registry, &open);
    add(&mut registry, &closed);
    add(&mut registry, &released);
    closed.close();
    drop(released);

    let (listed, upgraded) = worker_ids(&mut registry, upgrade, is_closed);
    assert_eq!(listed, vec![1]);
    let mut found: Vec<WorkerId> = upgraded.iter().map(|(id, _)| *id).collect();
    found.sort_unstable();
    assert_eq!(found, vec![1, 2]);
    for (id, worker) in &upgraded {
        assert_eq!(*id, worker.id);
    }
    // While the caller holds them, the closed worker is still alive.
    assert_eq!(Arc::strong_count(&closed), 2);
    drop(upgraded);
    assert_eq!(Arc::strong_count(&closed), 1);
}

#[test]
fn an_open_worker_stays_listed_across_calls_on_other_workers() {
    let mut registry = WorkerRegistry::new();
    let kept = FakeWorker::new(5);
    let other = FakeWorker::new(6);
    add(&mut registry, &kept);
    add(&mut registry, &other);
    assert_eq!(close(&mut registry, 6), Some(6));
    unregister(&mut registry, 7);
    let third = FakeWorker::new(9);
    add(&mut registry, &third);
    drop(third);
    assert_eq!(ids(&mut registry), vec![5]);
    assert_eq!(ids(&mut registry), vec![5]);
}

#[test]
fn a_closed_id_stays_absent_until_registered_again() {
    let mut registry = WorkerRegistry::new();
    let a = FakeWorker::new(5);
    let b = FakeWorker::new(6);
    add(&mut registry, &a);
    add(&mut registry, &b);
    assert_eq!(close(&mut registry, 5), Some(5));
    unregister(&mut registry, 6);
    add(&mut registry, &b);
    assert_eq!(ids(&mut registry), vec![6]);
    assert_eq!(close(&mut registry, 5), None);
    let again = FakeWorker::new(5);
    add(&mut registry, &again);
    assert_eq!(ids(&mut registry), vec![5, 6]);
}
