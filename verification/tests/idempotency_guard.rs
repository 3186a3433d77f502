use zero2prod::idempotency::persistence::insert_won;
use zero2prod::idempotency::persistence::saved_or_missing;
use zero2prod::idempotency::persistence::GuardError;
use zero2prod::idempotency::persistence::IdempotencyStore;
use zero2prod::idempotency::persistence::NextAction;
use zero2prod::idempotency::response::HeaderPair;
use zero2prod::idempotency::response::ResponseError;
use zero2prod::idempotency::response::ResponseRow;
use zero2prod::idempotency::response::SavedResponse;
use zero2prod::idempotency::IdempotencyKey;

fn key(text: &str) -> IdempotencyKey {
    IdempotencyKey::try_from(text.to_string()).ok().unwrap()
}

fn response(status: u16, body: &str) -> SavedResponse {
    let headers = vec![HeaderPair { name: "location".to_string(), value: b"/admin/newsletter".to_vec() }];
    SavedResponse::new(status, headers, body.as_bytes().to_vec()).ok().unwrap()
}

fn same_response(a: &SavedResponse, b: &SavedResponse) -> bool {
    a.status_code() == b.status_code()
        && a.body() == b.body()
        && a.headers().len() == b.headers().len()
        && a.headers().iter().zip(b.headers().iter()).all(|(x, y)| x.name == y.name && x.value == y.value)
}

#[test]
fn first_claim_is_granted_and_writes_one_row() {
    let mut store = IdempotencyStore::new();
    let outcome = store.try_processing(1, &key("K1"), 7);
    assert!(matches!(outcome, Ok(NextAction::StartProcessing(1))));
    assert_eq!(store.len(), 1);
}

#[test]
fn second_claim_waits_while_first_is_open() {
    let mut store = IdempotencyStore::new();
    let _ = store.try_processing(1, &key("K1"), 7);
    let outcome = store.try_processing(2, &key("K1"), 7);
    assert!(matches!(outcome, Err(GuardError::Locked { holder: 1 })));
    assert_eq!(store.len(), 1);
}

#[test]
fn retry_receives_the_saved_response() {
    let mut store = IdempotencyStore::new();
    let _ = store.try_processing(1, &key("K1"), 7);
    let saved = store.save_response(1, &key("K1"), 7, response(303, "done")).ok().unwrap();
    assert!(same_response(&saved, &response(303, "done")));
    for txn in 2..5u64 {
        match store.try_processing(txn, &key("K1"), 7) {
            Ok(NextAction::ReturnSavedResponse(replayed)) => {
                assert!(same_response(&replayed, &saved));
            }
            _ => panic!("the saved response was not replayed"),
        }
    }
    assert_eq!(store.len(), 1);
}

#[test]
fn same_key_of_another_owner_is_another_claim() {
    let mut store = IdempotencyStore::new();
    assert!(matches!(store.try_processing(1, &key("K1"), 7), Ok(NextAction::StartProcessing(1))));
    assert!(matches!(store.try_processing(2, &key("K1"), 8), Ok(NextAction::StartProcessing(2))));
    assert!(matches!(store.try_processing(3, &key("K2"), 7), Ok(NextAction::StartProcessing(3))));
    assert_eq!(store.len(), 3);
}

#[test]
fn rollback_lets_the_next_claimer_process() {
    let mut store = IdempotencyStore::new();
    let _ = store.try_processing(1, &key("K1"), 7);
    store.rollback(1);
    assert_eq!(store.len(), 0);
    assert!(matches!(store.try_processing(2, &key("K1"), 7), Ok(NextAction::StartProcessing(2))));
}

#[test]
fn rollback_keeps_committed_rows_and_rows_of_others() {
    let mut store = IdempotencyStore::new();
    let _ = store.try_processing(1, &key("A"), 7);
    let _ = store.save_response(1, &key("A"), 7, response(200, "a"));
    let _ = store.try_processing(2, &key("B"), 7);
    let _ = store.try_processing(3, &key("C"), 7);
    store.rollback(2);
    assert_eq!(store.len(), 2);
    assert!(matches!(store.try_processing(9, &key("A"), 7), Ok(NextAction::ReturnSavedResponse(_))));
    assert!(matches!(store.try_processing(9, &key("C"), 7), Err(GuardError::Locked { holder: 3 })));
}

#[test]
fn saving_without_a_claim_is_refused() {
    let mut store = IdempotencyStore::new();
    assert_eq!(store.save_response(1, &key("K1"), 7, response(200, "x")).err(), Some(GuardError::NotClaimed));
    let _ = store.try_processing(1, &key("K1"), 7);
    assert_eq!(store.save_response(2, &key("K1"), 7, response(200, "x")).err(), Some(GuardError::NotClaimed));
    assert!(store.save_response(1, &key("K1"), 7, response(200, "x")).is_ok());
    assert_eq!(store.save_response(1, &key("K1"), 7, response(200, "y")).err(), Some(GuardError::NotClaimed));
}

#[test]
fn saved_response_is_visible_only_once_committed() {
    let mut store = IdempotencyStore::new();
    assert!(matches!(store.get_saved_response(&key("K1"), 7), Ok(None)));
    let _ = store.try_processing(1, &key("K1"), 7);
    assert!(matches!(store.get_saved_response(&key("K1"), 7), Ok(None)));
    let _ = store.save_response(1, &key("K1"), 7, response(202, "body"));
    match store.get_saved_response(&key("K1"), 7) {
        Ok(Some(found)) => assert!(same_response(&found, &response(202, "body"))),
        _ => panic!("no saved response"),
    }
}

#[test]
fn concurrent_first_attempts_leave_one_row_and_one_winner() {
    let mut store = IdempotencyStore::new();
    let mut granted = 0;
    for txn in 1..=20u64 {
        if let Ok(NextAction::StartProcessing(_)) = store.try_processing(txn, &key("K1"), 7) {
            granted += 1;
        }
    }
    assert_eq!(granted, 1);
    assert_eq!(store.len(), 1);
}

#[test]
fn status_code_bounds() {
    assert_eq!(SavedResponse::new(99, Vec::new(), Vec::new()).err(), Some(ResponseError::InvalidStatusCode));
    assert_eq!(SavedResponse::new(1000, Vec::new(), Vec::new()).err(), Some(ResponseError::InvalidStatusCode));
    assert_eq!(SavedResponse::new(100, Vec::new(), Vec::new()).ok().unwrap().status_code(), 100);
    assert_eq!(SavedResponse::new(999, Vec::new(), Vec::new()).ok().unwrap().status_code(), 999);
}

#[test]
fn response_survives_the_table() {
    let written = response(303, "see other");
    let row = written.to_row();
    assert_eq!(row.response_status_code, 303);
    let back = SavedResponse::from_row(row).ok().unwrap();
    assert!(same_response(&back, &written));
    assert!(same_response(&written.duplicate(), &written));
}

#[test]
fn row_with_bad_status_code_is_refused() {
    for code in [-1i16, 0, 99, 1000, i16::MAX, i16::MIN] {
        let row = ResponseRow { response_status_code: code, response_headers: Vec::new(), response_body: Vec::new() };
        assert_eq!(SavedResponse::from_row(row).err(), Some(ResponseError::InvalidStatusCode));
    }
}

#[test]
fn lost_insert_needs_a_saved_response() {
    assert!(insert_won(1));
    assert!(!insert_won(0));
    assert_eq!(saved_or_missing(None).err(), Some(GuardError::MissingSavedResponse));
    let found = saved_or_missing(Some(response(200, "ok"))).ok().unwrap();
    assert!(same_response(&found, &response(200, "ok")));
}
