use emale::delivery::{
    backoff_delay, classify_status, next_step, resolve, DeliveryOutcome, DeliveryQueue, DeliveryTask, Resolution,
    RetryPolicy, WorkerStep,
};
use emale::store::{publish_newsletter, Newsletter, Store};

fn policy(max_attempts: u32) -> RetryPolicy {
    RetryPolicy { max_attempts, base_delay: 2, max_delay: 60 }
}

fn store_with(recipients: &[&str]) -> Store {
    let mut store = Store::new();
    let content = Newsletter { title: "T".to_string(), text_content: "t".to_string(), html_content: "h".to_string() };
    let rs: Vec<String> = recipients.iter().map(|s| s.to_string()).collect();
    publish_newsletter(&mut store, 1, "key".to_string(), &content, &rs, 5, 0).unwrap();
    store
}

/// Runs the worker until the queue is empty or `max_polls` polls were made,
/// answering each send with `channel`; returns the successful sends.
fn drain(store: &mut Store, policy: RetryPolicy, max_polls: usize, mut channel: impl FnMut(&DeliveryTask) -> Option<u16>) -> Vec<String> {
    let mut now: u64 = 0;
    let mut delivered = Vec::new();
    for _ in 0..max_polls {
        if store.queue().len() == 0 {
            break;
        }
        match store.next_step(now, 1) {
            WorkerStep::Sleep(d) => now += d,
            WorkerStep::Deliver(task) => {
                let status = channel(&task);
                if status == Some(200) {
                    delivered.push(task.recipient.clone());
                }
                store.finish_attempt(&task, status, policy, now).unwrap();
            },
        }
    }
    delivered
}

#[test]
fn a_channel_that_fails_once_delivers_each_recipient_once() {
    let mut store = store_with(&["a@example.com", "b@example.com", "c@example.com"]);
    let mut failed: Vec<String> = Vec::new();
    let delivered = drain(&mut store, policy(5), 1000, |t| {
        if failed.contains(&t.recipient) {
            Some(200)
        } else {
            failed.push(t.recipient.clone());
            None
        }
    });
    let mut sorted = delivered.clone();
    sorted.sort();
    assert_eq!(sorted, vec!["a@example.com", "b@example.com", "c@example.com"]);
    assert_eq!(store.queue().len(), 0);
}

#[test]
fn a_channel_that_always_fails_gives_up_after_max_attempts() {
    let mut store = store_with(&["a@example.com", "b@example.com"]);
    let mut sends = 0;
    let delivered = drain(&mut store, policy(3), 1000, |_| {
        sends += 1;
        Some(503)
    });
    assert!(delivered.is_empty());
    assert_eq!(sends, 6);
    assert_eq!(store.queue().len(), 0);
    // the worker goes on: the empty queue makes it sleep
    assert!(matches!(store.next_step(1000, 7), WorkerStep::Sleep(7)));
}

#[test]
fn a_permanently_invalid_recipient_is_dropped_at_once() {
    let mut store = store_with(&["a@example.com", "b@example.com"]);
    let mut sends = 0;
    let delivered = drain(&mut store, policy(5), 1000, |t| {
        sends += 1;
        if t.recipient == "a@example.com" { Some(404) } else { Some(200) }
    });
    assert_eq!(delivered, vec!["b@example.com"]);
    assert_eq!(sends, 2);
}

#[test]
fn resolutions_follow_the_outcome() {
    let p = policy(3);
    assert_eq!(resolve(0, DeliveryOutcome::Delivered, p), Resolution::Complete);
    assert_eq!(resolve(0, DeliveryOutcome::PermanentFailure, p), Resolution::Drop);
    assert_eq!(resolve(0, DeliveryOutcome::TransientFailure, p), Resolution::Reschedule);
    assert_eq!(resolve(1, DeliveryOutcome::TransientFailure, p), Resolution::Reschedule);
    assert_eq!(resolve(2, DeliveryOutcome::TransientFailure, p), Resolution::Drop);
    assert_eq!(resolve(u32::MAX, DeliveryOutcome::TransientFailure, RetryPolicy { max_attempts: u32::MAX, base_delay: 1, max_delay: 1 }), Resolution::Drop);
}

#[test]
fn backoff_doubles_up_to_the_cap() {
    let p = policy(10);
    assert_eq!(backoff_delay(0, p), 2);
    assert_eq!(backoff_delay(1, p), 4);
    assert_eq!(backoff_delay(4, p), 32);
    assert_eq!(backoff_delay(5, p), 60);
    assert_eq!(backoff_delay(200, p), 60);
    let huge = RetryPolicy { max_attempts: 3, base_delay: u64::MAX / 2 + 1, max_delay: u64::MAX };
    assert_eq!(backoff_delay(1, huge), u64::MAX);
}

#[test]
fn statuses_are_classified() {
    assert_eq!(classify_status(None), DeliveryOutcome::TransientFailure);
    assert_eq!(classify_status(Some(200)), DeliveryOutcome::Delivered);
    assert_eq!(classify_status(Some(204)), DeliveryOutcome::Delivered);
    assert_eq!(classify_status(Some(400)), DeliveryOutcome::PermanentFailure);
    assert_eq!(classify_status(Some(499)), DeliveryOutcome::PermanentFailure);
    assert_eq!(classify_status(Some(500)), DeliveryOutcome::TransientFailure);
    assert_eq!(classify_status(Some(302)), DeliveryOutcome::TransientFailure);
}

#[test]
fn claims_hide_tasks_and_respect_due_times() {
    let mut q = DeliveryQueue::new();
    q.enqueue(DeliveryTask::new(1, "a@example.com".to_string(), 10));
    q.enqueue(DeliveryTask::new(1, "b@example.com".to_string(), 0));
    // only the second task is due at time 5
    let claimed = match next_step(&mut q, 5, 3) {
        WorkerStep::Deliver(t) => t,
        other => panic!("unexpected {:?}", other),
    };
    assert_eq!(claimed.recipient, "b@example.com");
    // it is claimed now, and the other is not due yet
    assert!(matches!(next_step(&mut q, 5, 3), WorkerStep::Sleep(3)));
    assert!(q.claim_one(10).is_some());
    assert!(q.claim_one(10).is_none());
}

#[test]
fn reschedule_counts_the_attempt_and_delays_the_task() {
    let mut q = DeliveryQueue::new();
    q.enqueue(DeliveryTask::new(1, "a@example.com".to_string(), 0));
    let r = q.settle(1, &"a@example.com".to_string(), DeliveryOutcome::TransientFailure, policy(5), 100);
    assert_eq!(r, Some(Resolution::Reschedule));
    let t = &q.tasks()[0];
    assert_eq!(t.attempt_count, 1);
    assert_eq!(t.next_attempt_at, 102);
    assert!(q.claim_one(101).is_none());
    assert!(q.claim_one(102).is_some());
    assert!(q.reschedule(1, &"a@example.com".to_string(), 10, u64::MAX - 5));
    assert_eq!(q.tasks()[0].next_attempt_at, u64::MAX);
    assert!(q.complete(1, &"a@example.com".to_string()));
    assert!(!q.drop_permanently(1, &"a@example.com".to_string()));
    assert_eq!(q.settle(1, &"a@example.com".to_string(), DeliveryOutcome::Delivered, policy(5), 0), None);
}

#[test]
fn released_claims_can_be_claimed_again() {
    let mut store = store_with(&["a@example.com"]);
    let first = match store.next_step(0, 1) {
        WorkerStep::Deliver(t) => t,
        other => panic!("unexpected {:?}", other),
    };
    assert!(matches!(store.next_step(0, 1), WorkerStep::Sleep(1)));
    store.release_claims();
    match store.next_step(0, 1) {
        WorkerStep::Deliver(t) => assert_eq!(t, first),
        other => panic!("unexpected {:?}", other),
    }
}
