use emale::idempotency::{IdempotencyKey, KeyError, SavedResponse};
use emale::store::{
    publish_newsletter, publish_newsletter_now, skipped_recipients, Begin, CommitError, Newsletter, PublishError, PublishReply, Store,
};

fn newsletter(title: &str) -> Newsletter {
    Newsletter {
        title: title.to_string(),
        text_content: "text content".to_string(),
        html_content: "<p>HTML CONTENT</p>".to_string(),
    }
}

fn recipients(list: &[&str]) -> Vec<String> {
    list.iter().map(|s| s.to_string()).collect()
}

fn accepted_response() -> SavedResponse {
    emale::idempotency::see_other("/admin/newsletters")
}

fn response_of(reply: &PublishReply) -> SavedResponse {
    reply.response().clone()
}

#[test]
fn batch_with_one_malformed_recipient_is_accepted_without_it() {
    let mut store = Store::new();
    let rs = recipients(&["a@example.com", "b@example.com", "not-an-address", "c@example.com"]);
    let reply = publish_newsletter(&mut store, 1, "batch-1".to_string(), &newsletter("Title"), &rs, 7, 100).unwrap();
    assert!(matches!(reply, PublishReply::Accepted(_)));
    assert_eq!(response_of(&reply).status_code, 303);
    let tasks = store.queue().tasks();
    assert_eq!(tasks.len(), 3);
    let names: Vec<&str> = tasks.iter().map(|t| t.recipient.as_str()).collect();
    assert_eq!(names, vec!["a@example.com", "b@example.com", "c@example.com"]);
    assert!(tasks.iter().all(|t| t.work_record_id == 7 && t.attempt_count == 0 && t.next_attempt_at == 100));
    assert_eq!(store.work_record_count(), 1);
}

#[test]
fn replayed_key_sends_nothing_more_and_answers_the_same() {
    let mut store = Store::new();
    let rs = recipients(&["a@example.com", "b@example.com"]);
    let first = publish_newsletter(&mut store, 0x75, "abc".to_string(), &newsletter("Title"), &rs, 1, 10).unwrap();
    let queued = store.queue().len();
    let second = publish_newsletter(&mut store, 0x75, "abc".to_string(), &newsletter("Title"), &rs, 2, 20).unwrap();
    assert!(matches!(second, PublishReply::Replayed(_)));
    assert_eq!(store.queue().len() - queued, 0);
    assert_eq!(store.work_record_count(), 1);
    assert_eq!(response_of(&first), response_of(&second));
}

#[test]
fn many_submissions_of_one_key_make_one_work_record() {
    let mut store = Store::new();
    let rs = recipients(&["a@example.com", "b@example.com", "c@example.com"]);
    let first = publish_newsletter(&mut store, 3, "same-key".to_string(), &newsletter("T"), &rs, 100, 1).unwrap();
    for n in 0..5u128 {
        let again = publish_newsletter(&mut store, 3, "same-key".to_string(), &newsletter("Other"), &rs, 200 + n, 2).unwrap();
        assert_eq!(response_of(&again), response_of(&first));
    }
    assert_eq!(store.work_record_count(), 1);
    assert_eq!(store.queue().len(), 3);
    assert_eq!(response_of(&first), accepted_response());
}

#[test]
fn a_key_in_progress_turns_other_requests_away() {
    let mut store = Store::new();
    let key = IdempotencyKey::parse("k1".to_string()).unwrap();
    let txn = match store.begin(9, &key) {
        Begin::Fresh(t) => t,
        other => panic!("unexpected {:?}", other),
    };
    let rs = recipients(&["a@example.com"]);
    let err = publish_newsletter(&mut store, 9, "k1".to_string(), &newsletter("T"), &rs, 5, 1).unwrap_err();
    assert_eq!(err, PublishError::KeyInProgress);
    assert_eq!(err.status_code(), 409);
    assert!(matches!(store.begin(9, &key), Begin::InProgress));
    store.rollback(txn);
    assert!(publish_newsletter(&mut store, 9, "k1".to_string(), &newsletter("T"), &rs, 5, 1).is_ok());
}

#[test]
fn two_owners_with_the_same_key_get_two_work_records() {
    let mut store = Store::new();
    let rs = recipients(&["a@example.com"]);
    let a = publish_newsletter(&mut store, 1, "shared".to_string(), &newsletter("A"), &rs, 11, 1).unwrap();
    let b = publish_newsletter(&mut store, 2, "shared".to_string(), &newsletter("B"), &rs, 12, 1).unwrap();
    assert!(matches!(a, PublishReply::Accepted(_)));
    assert!(matches!(b, PublishReply::Accepted(_)));
    let records = store.work_records();
    assert_eq!(records.len(), 2);
    assert_eq!(records[0].content.title, "A");
    assert_eq!(records[1].content.title, "B");
    assert_eq!(store.queue().len(), 2);
}

#[test]
fn an_abandoned_transaction_leaves_nothing_behind() {
    let mut store = Store::new();
    let key = IdempotencyKey::parse("crash".to_string()).unwrap();
    let mut txn = match store.begin(4, &key) {
        Begin::Fresh(t) => t,
        other => panic!("unexpected {:?}", other),
    };
    txn.insert_work_record(77, &newsletter("T"), 5);
    assert!(txn.enqueue("a@example.com".to_string()));
    assert!(!txn.enqueue("a@example.com".to_string()));
    store.rollback(txn);
    assert_eq!(store.work_record_count(), 0);
    assert_eq!(store.queue().len(), 0);
    assert!(matches!(store.begin(4, &key), Begin::Fresh(_)));
}

#[test]
fn a_clashing_work_record_id_rolls_everything_back() {
    let mut store = Store::new();
    let rs = recipients(&["a@example.com"]);
    publish_newsletter(&mut store, 1, "first".to_string(), &newsletter("T"), &rs, 42, 1).unwrap();
    let err = publish_newsletter(&mut store, 1, "second".to_string(), &newsletter("T"), &rs, 42, 2).unwrap_err();
    assert_eq!(err, PublishError::UnexpectedError);
    assert_eq!(err.status_code(), 500);
    assert_eq!(store.work_record_count(), 1);
    assert_eq!(store.queue().len(), 1);
    // the key was released: a retry with a fresh id goes through
    assert!(matches!(
        publish_newsletter(&mut store, 1, "second".to_string(), &newsletter("T"), &rs, 43, 2).unwrap(),
        PublishReply::Accepted(_)
    ));
}

#[test]
fn commit_refuses_an_empty_transaction() {
    let mut store = Store::new();
    let key = IdempotencyKey::parse("empty".to_string()).unwrap();
    let txn = match store.begin(4, &key) {
        Begin::Fresh(t) => t,
        other => panic!("unexpected {:?}", other),
    };
    let r = store.commit(txn, emale::idempotency::see_other("/x"));
    assert_eq!(r.unwrap_err(), CommitError::NothingStaged);
    assert!(matches!(store.begin(4, &key), Begin::Fresh(_)));
}

#[test]
fn malformed_keys_are_rejected_before_anything_is_stored() {
    let mut store = Store::new();
    let rs = recipients(&["a@example.com"]);
    let cases = [
        ("".to_string(), KeyError::Empty),
        ("a".repeat(51), KeyError::TooLong),
        ("bad key".to_string(), KeyError::ForbiddenCharacter),
        ("émoji".to_string(), KeyError::ForbiddenCharacter),
    ];
    for (key, expected) in cases {
        let err = publish_newsletter(&mut store, 1, key, &newsletter("T"), &rs, 1, 1).unwrap_err();
        assert_eq!(err, PublishError::InvalidKey(expected));
        assert_eq!(err.status_code(), 400);
    }
    assert!(IdempotencyKey::parse("a".repeat(50)).is_ok());
    assert!(IdempotencyKey::parse("A-z_09".to_string()).is_ok());
    assert_eq!(store.work_record_count(), 0);
}

#[test]
fn duplicate_recipients_get_one_task() {
    let mut store = Store::new();
    let rs = recipients(&["a@example.com", "a@example.com", "b@example.com"]);
    publish_newsletter(&mut store, 1, "dups".to_string(), &newsletter("T"), &rs, 1, 1).unwrap();
    assert_eq!(store.queue().len(), 2);
}

#[test]
fn publish_now_draws_its_own_id() {
    let mut store = Store::new();
    let rs = recipients(&["a@example.com"]);
    let reply = publish_newsletter_now(&mut store, 1, "now".to_string(), &newsletter("T"), &rs).unwrap();
    assert!(matches!(reply, PublishReply::Accepted(_)));
    let again = publish_newsletter_now(&mut store, 1, "now".to_string(), &newsletter("T"), &rs).unwrap();
    assert!(matches!(again, PublishReply::Replayed(_)));
    assert_eq!(store.work_record_count(), 1);
    assert!(store.work_records()[0].created_at > 1_600_000_000);
}

#[test]
fn see_other_points_at_its_location() {
    let r = emale::idempotency::see_other("/admin/newsletters");
    assert_eq!(r.status_code, 303);
    assert_eq!(r.headers.len(), 1);
    assert_eq!(r.headers[0].name, "location");
    assert_eq!(r.headers[0].value, "/admin/newsletters");
    assert!(r.body.is_empty());
}

#[test]
fn malformed_recipients_are_reported() {
    let rs = recipients(&["a@example.com", "not-an-address", "b@example.com", "@x", "not-an-address"]);
    assert_eq!(skipped_recipients(&rs), vec!["not-an-address", "@x", "not-an-address"]);
    assert!(skipped_recipients(&recipients(&["a@example.com"])).is_empty());
}
