use beckon::runtime::{
    backoff_delay_ms, encode_segment, next_step, timeout_millis, AttemptOutcome, RetryStep,
    BACKOFF_CAP_MS, DEFAULT_TIMEOUT_MS,
};

#[test]
fn encode_segment_examples_from_the_changelog() {
    assert_eq!(encode_segment("1/2"), "1%2F2");
    assert_eq!(encode_segment("a?b"), "a%3Fb");
}

#[test]
fn encode_segment_keeps_unreserved_bytes() {
    assert_eq!(encode_segment(""), "");
    assert_eq!(encode_segment("AZaz09-_.~"), "AZaz09-_.~");
    assert_eq!(encode_segment("user-123"), "user-123");
}

#[test]
fn encode_segment_escapes_everything_else() {
    assert_eq!(encode_segment(" "), "%20");
    assert_eq!(encode_segment("%"), "%25");
    assert_eq!(encode_segment("#/?&="), "%23%2F%3F%26%3D");
    assert_eq!(encode_segment("é"), "%C3%A9");
    assert_eq!(encode_segment("\u{7f}"), "%7F");
    assert_eq!(encode_segment("\u{0}"), "%00");
}

#[test]
fn encoded_segment_never_leaves_its_segment() {
    for s in ["a/b", "../..", "x?y#z", "日本/語", "%2F"] {
        let e = encode_segment(s);
        assert!(!e.contains('/') && !e.contains('?') && !e.contains('#'));
        assert!(e.chars().all(|c| c.is_ascii_alphanumeric() || "-_.~%".contains(c)));
    }
}

#[test]
fn encode_segment_is_injective_on_examples() {
    assert_ne!(encode_segment("%2F"), encode_segment("/"));
    assert_ne!(encode_segment("a b"), encode_segment("a%20b"));
}

#[test]
fn timeout_defaults_to_five_seconds() {
    assert_eq!(timeout_millis(None), 5000);
    assert_eq!(DEFAULT_TIMEOUT_MS, 5000);
    assert_eq!(timeout_millis(Some(5000)), 5000);
    assert_eq!(timeout_millis(Some(30)), 30);
    assert_eq!(timeout_millis(Some(0)), 0);
}

#[test]
fn backoff_doubles_from_100ms_up_to_5s() {
    let delays: Vec<u64> = (0..9).map(backoff_delay_ms).collect();
    assert_eq!(delays, vec![100, 200, 400, 800, 1600, 3200, 5000, 5000, 5000]);
    assert_eq!(backoff_delay_ms(u32::MAX), BACKOFF_CAP_MS);
}

#[test]
fn retries_on_5xx_and_timeouts_only() {
    assert_eq!(next_step(0, 3, AttemptOutcome::HttpError(500)), RetryStep::RetryAfter(100));
    assert_eq!(next_step(1, 3, AttemptOutcome::HttpError(503)), RetryStep::RetryAfter(200));
    assert_eq!(next_step(2, 3, AttemptOutcome::Timeout), RetryStep::RetryAfter(400));
    assert_eq!(next_step(0, 3, AttemptOutcome::HttpError(599)), RetryStep::RetryAfter(100));
    assert_eq!(next_step(0, 3, AttemptOutcome::HttpError(404)), RetryStep::Finish);
    assert_eq!(next_step(0, 3, AttemptOutcome::HttpError(400)), RetryStep::Finish);
    assert_eq!(next_step(0, 3, AttemptOutcome::HttpError(600)), RetryStep::Finish);
    assert_eq!(next_step(0, 3, AttemptOutcome::Success), RetryStep::Finish);
    assert_eq!(next_step(0, 3, AttemptOutcome::OtherError), RetryStep::Finish);
}

#[test]
fn no_retry_once_the_count_is_spent() {
    assert_eq!(next_step(3, 3, AttemptOutcome::HttpError(500)), RetryStep::Finish);
    assert_eq!(next_step(0, 0, AttemptOutcome::HttpError(500)), RetryStep::Finish);
    assert_eq!(next_step(0, 0, AttemptOutcome::Timeout), RetryStep::Finish);
}

#[test]
fn a_request_is_sent_at_most_retries_plus_one_times() {
    let retry_count = 3;
    let mut attempts = 0;
    let mut done = 0;
    loop {
        attempts += 1;
        match next_step(done, retry_count, AttemptOutcome::HttpError(500)) {
            RetryStep::Finish => break,
            RetryStep::RetryAfter(_) => done += 1,
        }
    }
    assert_eq!(attempts, 4);
}
