use vibe_kanban::supabase::{
    MAX_QUEUE_SIZE, RemoteTaskStatus, SyncOperation, SyncOperationType, SyncQueue,
    update_request_of,
};

fn status_op(id: u128) -> SyncOperation {
    SyncOperation {
        id,
        operation_type: SyncOperationType::UpdateTaskStatus {
            task_id: id,
            status: RemoteTaskStatus::InProgress,
        },
        created_at: 0,
        retry_count: 0,
    }
}

#[test]
fn test_sync_service_offline_queuing() {
    // With the backend offline, a requested write is queued, not refused.
    let mut queue = SyncQueue::new();
    queue.queue_operation(status_op(1));
    assert_eq!(queue.queue_length(), 1);
}

#[test]
fn test_queue_overflow() {
    let mut queue = SyncQueue::new();
    for i in 0..(MAX_QUEUE_SIZE + 10) {
        queue.queue_operation(status_op(i as u128));
    }
    // Should not exceed max size
    assert_eq!(queue.queue_length(), MAX_QUEUE_SIZE);
}

#[test]
fn overflow_evicts_the_oldest() {
    let mut queue = SyncQueue::new();
    for i in 0..(MAX_QUEUE_SIZE + 1) {
        queue.queue_operation(status_op(i as u128));
    }
    let drained = queue.drain();
    assert_eq!(drained.first().unwrap().id, 1);
    assert_eq!(drained.last().unwrap().id, MAX_QUEUE_SIZE as u128);
    assert_eq!(queue.queue_length(), 0);
}

#[test]
fn failed_operations_retry_then_drop() {
    let mut queue = SyncQueue::new();
    let op = status_op(7);
    // First and second failures keep the operation with a raised count.
    assert!(queue.requeue_failed(op.clone()));
    let drained = queue.drain();
    assert_eq!(drained.len(), 1);
    assert_eq!(drained[0].retry_count, 1);
    assert!(queue.requeue_failed(drained[0].clone()));
    let drained = queue.drain();
    assert_eq!(drained[0].retry_count, 2);
    // The third failure reaches the budget: dropped for good.
    assert!(!queue.requeue_failed(drained[0].clone()));
    assert_eq!(queue.queue_length(), 0);
}

#[test]
fn update_request_carries_only_its_field() {
    let r = update_request_of(&SyncOperationType::UpdateTaskBranch {
        task_id: 1,
        branch_name: "feature/login".to_string(),
    });
    assert_eq!(r.branch_name.as_deref(), Some("feature/login"));
    assert!(r.status.is_none() && r.title.is_none());
}
