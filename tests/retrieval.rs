use nautilus::error::VerifyError;
use nautilus::retrieval::{
    backoff_ms, generate_mock_blob, is_mock_blob_id, mock_flag_enabled, serves_mock,
    upstream_error, FetchStep, RetryState, MAX_ATTEMPTS, MOCK_BLOB_LEN,
};

#[test]
fn retry_succeeds_on_third_attempt() {
    let mut state = RetryState::new();
    let mut delays = Vec::new();
    let mut delivered = false;
    for status in [503u16, 503, 200] {
        assert!(state.may_attempt());
        match state.record_response(status) {
            FetchStep::RetryAfter { delay_ms } => delays.push(delay_ms),
            FetchStep::Deliver => delivered = true,
            FetchStep::GiveUp { .. } => panic!("gave up early"),
        }
    }
    assert!(delivered);
    assert_eq!(state.attempt, 3);
    assert_eq!(delays, vec![250, 500]);
}

#[test]
fn retry_exhaustion_reports_status_and_attempts() {
    let mut state = RetryState::new();
    assert_eq!(state.record_response(503), FetchStep::RetryAfter { delay_ms: 250 });
    assert_eq!(state.record_response(503), FetchStep::RetryAfter { delay_ms: 500 });
    let last = state.record_response(503);
    assert_eq!(last, FetchStep::GiveUp { status: 503, attempts: 3 });
    assert!(!state.may_attempt());
    let err = upstream_error(503, 3, "unavailable".to_string());
    assert_eq!(
        err,
        VerifyError::UpstreamUnavailable { status: 503, attempts: 3, body: "unavailable".to_string() }
    );
}

#[test]
fn first_success_delivers_at_once() {
    let mut state = RetryState::new();
    assert_eq!(state.record_response(200), FetchStep::Deliver);
    assert_eq!(state.attempt, 1);
}

#[test]
fn backoff_doubles() {
    assert_eq!(backoff_ms(1), 250);
    assert_eq!(backoff_ms(2), 500);
    assert_eq!(MAX_ATTEMPTS, 3);
}

#[test]
fn mock_flag_values() {
    assert!(mock_flag_enabled("1"));
    assert!(mock_flag_enabled("true"));
    assert!(mock_flag_enabled("TRUE"));
    assert!(mock_flag_enabled("TrUe"));
    assert!(!mock_flag_enabled("0"));
    assert!(!mock_flag_enabled("yes"));
    assert!(!mock_flag_enabled(""));
    assert!(!mock_flag_enabled("true "));
}

#[test]
fn mock_blob_ids() {
    assert!(is_mock_blob_id("mock"));
    assert!(is_mock_blob_id("test_"));
    assert!(is_mock_blob_id("test_abc"));
    assert!(!is_mock_blob_id("test"));
    assert!(!is_mock_blob_id("mocked"));
    assert!(!is_mock_blob_id("Mock"));
    assert!(!is_mock_blob_id("abc"));
    assert!(serves_mock(Some("1"), "mock"));
    assert!(!serves_mock(None, "mock"));
    assert!(!serves_mock(Some("1"), "real-blob"));
    assert!(!serves_mock(Some("false"), "test_x"));
}

#[test]
fn mock_blob_is_deterministic() {
    let a = generate_mock_blob("mock");
    let b = generate_mock_blob("mock");
    let c = generate_mock_blob("test_other");
    assert_eq!(a.len(), MOCK_BLOB_LEN);
    assert_eq!(a.len(), 32 * 1024);
    assert_eq!(a, b);
    assert_ne!(a, c);
    let head = b"zkDataVault-mock:mock:";
    assert_eq!(&a[..head.len()], &head[..]);
    assert_eq!(a[head.len()], 0);
    let sentence = b"The quick brown fox jumps over the lazy dog. ";
    assert_eq!(&a[head.len() + 1..head.len() + 1 + sentence.len()], &sentence[..]);
    let unit = head.len() + 1 + sentence.len();
    assert_eq!(a[unit + head.len()], 1);
    assert_eq!(a[64 * unit + head.len()], 0);
}
