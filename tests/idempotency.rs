use zero2prod::gate::{GateStep, PollPolicy};
use zero2prod::key::{IdempotencyKey, KeyError, MAX_KEY_LENGTH};
use zero2prod::snapshot::{HeaderPair, ReplayMismatch, ResponseSnapshot};
use zero2prod::store::{NextAction, PersistenceError, ResponseStore};

const U1: u128 = 0x5a17_0000_0000_0000_0000_0000_0000_0001;
const U2: u128 = 0x5a17_0000_0000_0000_0000_0000_0000_0002;

fn key(s: &str) -> IdempotencyKey {
    IdempotencyKey::parse(s.to_string()).unwrap()
}

fn ok_response() -> ResponseSnapshot {
    ResponseSnapshot::new(200, Vec::new(), b"OK".to_vec())
}

fn header(name: &str, value: &str) -> HeaderPair {
    HeaderPair { name: name.to_string(), value: value.as_bytes().to_vec() }
}

fn same(a: &ResponseSnapshot, b: &ResponseSnapshot) -> bool {
    a.status_code == b.status_code
        && a.body == b.body
        && a.headers.len() == b.headers.len()
        && a.headers.iter().zip(b.headers.iter()).all(|(x, y)| x.name == y.name && x.value == y.value)
}

#[test]
fn empty_key_is_rejected() {
    assert_eq!(IdempotencyKey::parse(String::new()).unwrap_err(), KeyError::Empty);
}

#[test]
fn key_of_51_characters_is_rejected() {
    let raw = "k".repeat(51);
    assert_eq!(IdempotencyKey::parse(raw).unwrap_err(), KeyError::TooLong);
}

#[test]
fn key_of_50_characters_is_accepted_and_round_trips() {
    let raw = "k".repeat(MAX_KEY_LENGTH);
    let k = IdempotencyKey::parse(raw.clone()).unwrap();
    assert_eq!(k.as_str(), raw);
    assert_eq!(k.into_string(), raw);
}

#[test]
fn key_length_is_counted_in_characters() {
    let raw = "é".repeat(50);
    assert_eq!(raw.len(), 100);
    assert!(IdempotencyKey::parse(raw).is_ok());
    assert_eq!(IdempotencyKey::parse("é".repeat(51)).unwrap_err(), KeyError::TooLong);
}

#[test]
fn keys_compare_by_exact_text() {
    assert!(key("abc-123").same_as(&key("abc-123")));
    assert!(!key("abc-123").same_as(&key("ABC-123")));
    assert!(key("abc-123").duplicate().same_as(&key("abc-123")));
}

#[test]
fn first_claim_starts_processing() {
    let mut store = ResponseStore::new();
    let action = store.try_start_processing(U1, &key("abc-123"), 1000);
    assert!(matches!(action, NextAction::StartProcessing));
    assert_eq!(store.len(), 1);
}

#[test]
fn exactly_one_of_many_claims_starts_processing() {
    let mut store = ResponseStore::new();
    let k = key("abc-123");
    let mut starts = 0;
    for t in 0..10u64 {
        if matches!(store.try_start_processing(U1, &k, 1000 + t), NextAction::StartProcessing) {
            starts += 1;
        }
    }
    assert_eq!(starts, 1);
    assert_eq!(store.len(), 1);
}

#[test]
fn claims_are_separate_per_owner_and_key() {
    let mut store = ResponseStore::new();
    assert!(matches!(store.try_start_processing(U1, &key("abc-123"), 5), NextAction::StartProcessing));
    assert!(matches!(store.try_start_processing(U2, &key("abc-123"), 5), NextAction::StartProcessing));
    assert!(matches!(store.try_start_processing(U1, &key("abc-124"), 5), NextAction::StartProcessing));
    assert_eq!(store.len(), 3);
}

#[test]
fn concurrent_requests_with_the_same_key_run_the_handler_once() {
    let mut store = ResponseStore::new();
    let k = key("abc-123");
    let policy = PollPolicy { max_attempts: 5, interval_ms: 500 };
    let mut executions = 0;

    // Both requests arrive before either has finished.
    let first = policy.next_step(store.try_start_processing(U1, &k, 1000), 1);
    let second = policy.next_step(store.try_start_processing(U1, &k, 1000), 1);
    assert!(matches!(first, GateStep::Execute));
    assert!(matches!(second, GateStep::WaitAndRetry(500)));

    // The first one runs the handler and records its response.
    executions += 1;
    let first_response = ok_response();
    store.save_response(U1, &k, first_response.duplicate()).unwrap();

    // The second one asks again and replays the recorded response.
    let second = policy.next_step(store.try_start_processing(U1, &k, 1002), 2);
    match second {
        GateStep::Replay(replayed) => {
            assert_eq!(replayed.status_code, 200);
            assert_eq!(replayed.body, b"OK".to_vec());
            assert!(same(&replayed, &first_response));
        }
        _ => panic!("the second request did not replay the first response"),
    }
    assert_eq!(executions, 1);
}

#[test]
fn completed_request_is_replayed_without_running_again() {
    let mut store = ResponseStore::new();
    let k = key("abc-123");
    assert!(matches!(store.try_start_processing(U1, &k, 1000), NextAction::StartProcessing));
    store.save_response(U1, &k, ok_response()).unwrap();

    match store.try_start_processing(U1, &k, 1010) {
        NextAction::ReturnSavedResponse(s) => {
            assert_eq!(s.status_code, 200);
            assert!(s.headers.is_empty());
            assert_eq!(s.body, b"OK".to_vec());
        }
        _ => panic!("the completed request was not replayed"),
    }
}

#[test]
fn replay_keeps_headers_in_order_with_duplicates() {
    let mut store = ResponseStore::new();
    let k = key("order");
    let headers = vec![
        header("set-cookie", "a=1"),
        header("location", "/admin/newsletters"),
        header("set-cookie", "b=2"),
    ];
    let original = ResponseSnapshot::new(303, headers, Vec::new());
    store.try_start_processing(U1, &k, 1);
    store.save_response(U1, &k, original.duplicate()).unwrap();
    match store.try_start_processing(U1, &k, 2) {
        NextAction::ReturnSavedResponse(s) => {
            assert!(same(&s, &original));
            assert_eq!(s.headers[0].name, "set-cookie");
            assert_eq!(s.headers[2].value, b"b=2".to_vec());
        }
        _ => panic!("the completed request was not replayed"),
    }
}

#[test]
fn saved_response_is_read_back() {
    let mut store = ResponseStore::new();
    let k = key("abc-123");
    assert!(store.get_saved_response(U1, &k).is_none());
    store.try_start_processing(U1, &k, 1);
    assert!(store.get_saved_response(U1, &k).is_none());
    store.save_response(U1, &k, ok_response()).unwrap();
    let s = store.get_saved_response(U1, &k).unwrap();
    assert!(same(&s, &ok_response()));
}

#[test]
fn saving_without_a_claim_fails() {
    let mut store = ResponseStore::new();
    assert_eq!(
        store.save_response(U1, &key("abc-123"), ok_response()).unwrap_err(),
        PersistenceError::MissingRecord
    );
    assert_eq!(store.len(), 0);
}

#[test]
fn a_completed_response_is_never_replaced() {
    let mut store = ResponseStore::new();
    let k = key("abc-123");
    store.try_start_processing(U1, &k, 1);
    store.save_response(U1, &k, ok_response()).unwrap();
    let other = ResponseSnapshot::new(500, Vec::new(), b"boom".to_vec());
    assert_eq!(store.save_response(U1, &k, other).unwrap_err(), PersistenceError::AlreadyCompleted);
    assert!(same(&store.get_saved_response(U1, &k).unwrap(), &ok_response()));
}

#[test]
fn abandoned_claim_blocks_new_claims_until_swept() {
    let mut store = ResponseStore::new();
    let k = key("abc-123");
    assert!(matches!(store.try_start_processing(U1, &k, 1000), NextAction::StartProcessing));
    for t in 0..5u64 {
        assert!(matches!(
            store.try_start_processing(U1, &k, 1001 + t),
            NextAction::ProcessingInProgress
        ));
    }
    assert_eq!(store.delete_expired(1100, 100), 0);
    assert!(matches!(store.try_start_processing(U1, &k, 1100), NextAction::ProcessingInProgress));
    assert_eq!(store.delete_expired(1101, 100), 1);
    assert!(matches!(store.try_start_processing(U1, &k, 1101), NextAction::StartProcessing));
}

#[test]
fn expiry_deletes_one_second_too_old_and_keeps_one_second_young_enough() {
    let now: u64 = 86_400 * 30;
    let max_age: u64 = 86_400;
    let mut store = ResponseStore::new();
    let old_key = key("old");
    let young_key = key("young");
    let edge_key = key("edge");
    store.try_start_processing(U1, &old_key, now - max_age - 1);
    store.try_start_processing(U1, &young_key, now - max_age + 1);
    store.try_start_processing(U1, &edge_key, now - max_age);
    store.save_response(U1, &old_key, ok_response()).unwrap();

    assert_eq!(store.delete_expired(now, max_age), 1);
    assert_eq!(store.len(), 2);
    assert!(matches!(store.try_start_processing(U1, &old_key, now), NextAction::StartProcessing));
    assert!(matches!(
        store.try_start_processing(U1, &young_key, now),
        NextAction::ProcessingInProgress
    ));
    assert!(matches!(
        store.try_start_processing(U1, &edge_key, now),
        NextAction::ProcessingInProgress
    ));
}

#[test]
fn sweep_before_the_retention_window_deletes_nothing() {
    let mut store = ResponseStore::new();
    store.try_start_processing(U1, &key("a"), 0);
    store.try_start_processing(U1, &key("b"), 10);
    assert_eq!(store.delete_expired(50, 100), 0);
    assert_eq!(store.delete_expired(u64::MAX, u64::MAX), 0);
    assert_eq!(store.len(), 2);
}

#[test]
fn sweep_deletes_all_expired_records_in_either_state() {
    let mut store = ResponseStore::new();
    for (i, name) in ["a", "b", "c", "d", "e"].iter().enumerate() {
        let k = key(name);
        store.try_start_processing(U1, &k, i as u64);
        if i % 2 == 0 {
            store.save_response(U1, &k, ok_response()).unwrap();
        }
    }
    assert_eq!(store.delete_expired(104, 100), 4);
    assert_eq!(store.len(), 1);
    assert!(matches!(store.try_start_processing(U1, &key("e"), 200), NextAction::ReturnSavedResponse(_)));
    assert_eq!(store.delete_expired(1000, 0), 1);
    assert_eq!(store.len(), 0);
}

#[test]
fn columns_all_absent_mean_processing() {
    assert!(matches!(ResponseSnapshot::from_columns(None, None, None), Ok(None)));
}

#[test]
fn columns_all_present_give_the_response() {
    let s = ResponseSnapshot::from_columns(Some(303), Some(vec![header("location", "/admin")]), Some(b"x".to_vec()))
        .unwrap()
        .unwrap();
    assert_eq!(s.status_code, 303);
    assert_eq!(s.headers[0].name, "location");
    assert_eq!(s.headers[0].value, b"/admin".to_vec());
    assert_eq!(s.body, b"x".to_vec());
}

#[test]
fn partial_columns_are_a_replay_mismatch() {
    assert_eq!(
        ResponseSnapshot::from_columns(Some(200), None, Some(Vec::new())).unwrap_err(),
        ReplayMismatch::PartialColumns
    );
    assert_eq!(
        ResponseSnapshot::from_columns(None, Some(Vec::new()), None).unwrap_err(),
        ReplayMismatch::PartialColumns
    );
}

#[test]
fn invalid_status_code_is_a_replay_mismatch() {
    assert_eq!(
        ResponseSnapshot::from_columns(Some(99), Some(Vec::new()), Some(Vec::new())).unwrap_err(),
        ReplayMismatch::InvalidStatusCode
    );
    assert_eq!(
        ResponseSnapshot::from_columns(Some(1000), Some(Vec::new()), Some(Vec::new())).unwrap_err(),
        ReplayMismatch::InvalidStatusCode
    );
    assert_eq!(
        ResponseSnapshot::from_columns(Some(-200), Some(Vec::new()), Some(Vec::new())).unwrap_err(),
        ReplayMismatch::InvalidStatusCode
    );
    assert!(ResponseSnapshot::from_columns(Some(999), Some(Vec::new()), Some(Vec::new())).is_ok());
    assert!(ResponseSnapshot::from_columns(Some(100), Some(Vec::new()), Some(Vec::new())).is_ok());
}

#[test]
fn polling_gives_up_after_the_last_attempt() {
    let policy = PollPolicy { max_attempts: 3, interval_ms: 250 };
    assert!(matches!(policy.next_step(NextAction::ProcessingInProgress, 2), GateStep::WaitAndRetry(250)));
    assert!(matches!(policy.next_step(NextAction::ProcessingInProgress, 3), GateStep::GiveUp));
    assert!(matches!(policy.next_step(NextAction::StartProcessing, 3), GateStep::Execute));
    match policy.next_step(NextAction::ReturnSavedResponse(ok_response()), 1) {
        GateStep::Replay(s) => assert!(same(&s, &ok_response())),
        _ => panic!("a saved response was not replayed"),
    }
}

#[test]
fn polling_with_no_attempts_never_waits() {
    let policy = PollPolicy { max_attempts: 0, interval_ms: 250 };
    assert!(matches!(policy.next_step(NextAction::ProcessingInProgress, 0), GateStep::GiveUp));
}
