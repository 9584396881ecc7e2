use oreo_pool::codec::{DRequest, DResponse, RegisterWorker};
use oreo_pool::manager::{Manager, ServerWorker, TaskInfo, Tier, WorkerStatus};
use oreo_pool::reconcile::{PersistAction, ReconcileStep};

fn task(id: &str, hash: &str, sequence: u64) -> DRequest {
    DRequest {
        id: id.to_string(),
        address: "addr1".to_string(),
        hash: hash.to_string(),
        sequence,
        incoming_view_key: "ivk".to_string(),
        outgoing_view_key: "ovk".to_string(),
    }
}

fn reg(name: &str) -> RegisterWorker {
    RegisterWorker { name: name.to_string() }
}

fn resp(id: &str, address: &str, data: &[&str]) -> DResponse {
    DResponse {
        id: id.to_string(),
        address: address.to_string(),
        data: data.iter().map(|s| s.to_string()).collect(),
    }
}

#[test]
fn server_worker_starts_idle() {
    let w = ServerWorker::new(3);
    assert_eq!(w.router, 3);
    assert!(matches!(w.status, WorkerStatus::Idle));
}

#[test]
fn repeated_registration_keeps_one_entry() {
    let mut m = Manager::new();
    let provisional = "10.0.0.9:5555".to_string();
    let (name, dispatched) = m.handle_register(&provisional, reg("w1"), 1);
    assert_eq!(name, "w1");
    assert!(dispatched.is_none());
    assert_eq!(m.workers.len(), 1);

    // the same name again is a keep-alive: no new entry, no dispatch
    let (name2, dispatched2) = m.handle_register(&name, reg("w1"), 1);
    assert_eq!(name2, "w1");
    assert!(dispatched2.is_none());
    assert_eq!(m.workers.len(), 1);
}

#[test]
fn rename_leaves_old_entry_to_age_out() {
    let mut m = Manager::new();
    let (name, _) = m.handle_register(&"w1".to_string(), reg("w1-renamed"), 1);
    assert_eq!(name, "w1-renamed");
    // a worker that had registered as w1 earlier keeps its entry
    let (_, _) = m.handle_register(&"peer".to_string(), reg("w1"), 2);
    assert_eq!(m.workers.len(), 2);
}

#[test]
fn registration_with_pending_task_dispatches_exactly_one() {
    let mut m = Manager::new();
    m.enqueue(task("a", "h1", 5));
    m.enqueue(task("b", "h2", 6));
    let (name, dispatched) = m.handle_register(&"peer".to_string(), reg("w1"), 1);
    let msg = dispatched.expect("a pending task must be dispatched");
    // stack order: the most recently enqueued task goes out first
    assert_eq!(msg.request.id, "b");
    assert_eq!(msg.name.as_deref(), Some("w1"));
    assert_eq!(m.task_queue.len(), 1);
    assert_eq!(m.task_queue[0].id, "a");
    // the entry itself starts idle; the outbound loop marks it busy
    assert!(matches!(
        m.worker_status(&name),
        Some(WorkerStatus::Idle)
    ));
}

#[test]
fn registration_with_empty_queue_stays_idle() {
    let mut m = Manager::new();
    let (name, dispatched) = m.handle_register(&"peer".to_string(), reg("w1"), 1);
    assert!(dispatched.is_none());
    assert_eq!(m.task_queue.len(), 0);
    assert!(matches!(m.worker_status(&name), Some(WorkerStatus::Idle)));
}

#[test]
fn mark_busy_only_touches_the_named_worker() {
    let mut m = Manager::new();
    let (w1, _) = m.handle_register(&"p1".to_string(), reg("w1"), 1);
    let (w2, _) = m.handle_register(&"p2".to_string(), reg("w2"), 2);
    m.mark_busy(&w1);
    assert!(matches!(m.worker_status(&w1), Some(WorkerStatus::Busy)));
    assert!(matches!(m.worker_status(&w2), Some(WorkerStatus::Idle)));
    // marking an unknown name changes nothing
    m.mark_busy(&"ghost".to_string());
    assert_eq!(m.workers.len(), 2);
}

#[test]
fn heartbeat_timeout_removes_the_entry() {
    let mut m = Manager::new();
    let (w1, _) = m.handle_register(&"p1".to_string(), reg("w1"), 1);
    m.remove_worker(&w1);
    assert!(m.worker_status(&w1).is_none());
    assert_eq!(m.workers.len(), 0);
    // removing again is harmless
    m.remove_worker(&w1);
    assert_eq!(m.workers.len(), 0);
}

#[test]
fn primary_empty_response_commits_head() {
    // worker registers while one primary task is pending
    let mut m = Manager::new();
    m.enqueue(task("a", "h1", 5));
    let (w1, dispatched) = m.handle_register(&"peer".to_string(), reg("w1"), 1);
    let msg = dispatched.expect("the pending task must go to the new worker");
    assert_eq!(msg.request.id, "a");
    m.mark_busy(&w1);
    assert!(matches!(m.worker_status(&w1), Some(WorkerStatus::Busy)));
    m.insert_task(
        "a".to_string(),
        TaskInfo { timestamp: 0, hash: "h1".to_string(), sequence: 5, status: Tier::Primary },
    );

    // the worker answers with no matched transactions
    let response = resp("a", "addr1", &[]);
    let step = m.reconcile_begin(&response);
    let (address, hash, sequence) = match step {
        ReconcileStep::UpdateHead { address, hash, sequence } => (address, hash, sequence),
        _ => panic!("a primary empty result asks for a head advance"),
    };
    assert_eq!((address.as_str(), hash.as_str(), sequence), ("addr1", "h1", 5));

    // the downstream head advance reports updated: true
    let acts = m.reconcile_empty_commit(&response.id, &address, sequence, &hash, true, true);
    assert_eq!(acts.len(), 2);
    match &acts[0] {
        PersistAction::AddPrimaryAccount(u) => {
            assert_eq!((u.address.as_str(), u.sequence, u.hash.as_str()), ("addr1", 5, "h1"));
        }
        _ => panic!("the unstable-account marker comes first"),
    }
    match &acts[1] {
        PersistAction::UpdateAccountHead { address, sequence, hash } => {
            assert_eq!((address.as_str(), *sequence, hash.as_str()), ("addr1", 5, "h1"));
        }
        _ => panic!("the head write comes last"),
    }
    assert_eq!(m.task_mapping.len(), 0);

    // no further pending task: the worker returns to idle
    let next = m.handle_response_dispatch(&w1);
    assert!(next.is_none());
    assert!(matches!(m.worker_status(&w1), Some(WorkerStatus::Idle)));
}

#[test]
fn multi_hash_response_removes_record_once() {
    let mut m = Manager::new();
    m.insert_task(
        "a".to_string(),
        TaskInfo { timestamp: 0, hash: "h1".to_string(), sequence: 5, status: Tier::Primary },
    );
    let response = resp("a", "addr1", &["tx1", "tx2"]);
    let step = m.reconcile_begin(&response);
    let (address, hash, sequence, primary) = match step {
        ReconcileStep::ImportTransactions { address, hash, sequence, primary } => {
            (address, hash, sequence, primary)
        }
        _ => panic!("matched transactions ask for imports"),
    };
    assert!(primary);

    // tx1 imports: marker + head write, record removed
    let acts1 = m.reconcile_import_result(&response.id, &address, sequence, &hash, primary, true);
    assert_eq!(acts1.len(), 2);
    assert_eq!(m.task_mapping.len(), 0);

    // tx2 imports: head written again, the second removal is a no-op
    let acts2 = m.reconcile_import_result(&response.id, &address, sequence, &hash, primary, true);
    assert_eq!(acts2.len(), 2);
    assert_eq!(m.task_mapping.len(), 0);
}

#[test]
fn failed_import_keeps_the_record() {
    let mut m = Manager::new();
    m.insert_task(
        "a".to_string(),
        TaskInfo { timestamp: 0, hash: "h1".to_string(), sequence: 5, status: Tier::Secondary },
    );
    let response = resp("a", "addr1", &["tx1"]);
    let acts = m.reconcile_import_result(
        &response.id,
        &response.address,
        5,
        &"h1".to_string(),
        false,
        false,
    );
    assert!(acts.is_empty());
    assert_eq!(m.task_mapping.len(), 1);
}

#[test]
fn secondary_empty_response_skips_head_advance() {
    let mut m = Manager::new();
    m.insert_task(
        "a".to_string(),
        TaskInfo { timestamp: 0, hash: "h1".to_string(), sequence: 5, status: Tier::Secondary },
    );
    let response = resp("a", "addr1", &[]);
    match m.reconcile_begin(&response) {
        ReconcileStep::CommitHead { address, hash, sequence } => {
            let acts = m.reconcile_empty_commit(&response.id, &address, sequence, &hash, false,
                false);
            // only the head write, no unstable-account marker
            assert_eq!(acts.len(), 1);
            assert!(matches!(acts[0], PersistAction::UpdateAccountHead { .. }));
        }
        _ => panic!("a secondary empty result commits directly"),
    }
    assert_eq!(m.task_mapping.len(), 0);
}

#[test]
fn unknown_response_id_is_dropped_without_effect() {
    let mut m = Manager::new();
    m.enqueue(task("x", "h9", 1));
    m.insert_task(
        "other".to_string(),
        TaskInfo { timestamp: 0, hash: "h1".to_string(), sequence: 5, status: Tier::Primary },
    );
    let response = resp("absent", "addr1", &["tx1"]);
    assert!(matches!(m.reconcile_begin(&response), ReconcileStep::Drop));
    // nothing moved: the record and the queue are untouched
    assert_eq!(m.task_mapping.len(), 1);
    assert_eq!(m.task_queue.len(), 1);
}

#[test]
fn removing_an_absent_record_is_a_no_op() {
    let mut m = Manager::new();
    m.insert_task(
        "a".to_string(),
        TaskInfo { timestamp: 0, hash: "h1".to_string(), sequence: 5, status: Tier::Primary },
    );
    assert!(m.remove_task(&"a".to_string()));
    assert!(!m.remove_task(&"a".to_string()));
    assert!(!m.remove_task(&"never".to_string()));
    assert_eq!(m.task_mapping.len(), 0);
}

#[test]
fn response_dispatch_hands_out_next_task() {
    let mut m = Manager::new();
    let (w1, _) = m.handle_register(&"peer".to_string(), reg("w1"), 1);
    m.mark_busy(&w1);
    m.enqueue(task("n", "h3", 9));
    let msg = m.handle_response_dispatch(&w1).expect("a queued task must go out");
    // the follow-up dispatch names no worker: this one is already busy
    assert!(msg.name.is_none());
    assert_eq!(msg.request.id, "n");
    assert!(matches!(m.worker_status(&w1), Some(WorkerStatus::Busy)));
}

#[test]
fn abandoned_send_leaves_the_loop_alive() {
    // an outbound write that timed out changes no state: the same worker's
    // next event is handled as usual
    let mut m = Manager::new();
    m.enqueue(task("a", "h1", 5));
    let (w1, dispatched) = m.handle_register(&"peer".to_string(), reg("w1"), 1);
    assert!(dispatched.is_some());
    // the outbound loop abandons the write: nothing is retried, nothing
    // is requeued, and the registry still serves this worker
    assert_eq!(m.task_queue.len(), 0);
    let (name2, d2) = m.handle_register(&w1, reg("w1"), 1);
    assert_eq!(name2, "w1");
    assert!(d2.is_none());
    assert!(matches!(m.worker_status(&w1), Some(WorkerStatus::Idle)));
}

#[test]
fn lookup_returns_the_stored_record() {
    let mut m = Manager::new();
    m.insert_task(
        "a".to_string(),
        TaskInfo { timestamp: 42, hash: "h1".to_string(), sequence: 5, status: Tier::Secondary },
    );
    let info = m.lookup_task(&"a".to_string()).expect("the record exists");
    assert_eq!(info.timestamp, 42);
    assert_eq!(info.hash, "h1");
    assert_eq!(info.sequence, 5);
    assert!(matches!(info.status, Tier::Secondary));
    assert!(m.lookup_task(&"b".to_string()).is_none());
}
