use beckon::auth::{auth_header, base64_encode, ClientAuth};
use beckon::client::{
    check_status, decimal, error_variants, http_error, Attempts, ClientConfig, ClientError,
};
use beckon::input::HttpMethod;
use beckon::runtime::{fill_path, AttemptOutcome, RetryStep};

fn s(x: &str) -> String {
    x.to_string()
}

#[test]
fn refused_request_carries_status_reason_and_raw_body() {
    let r = check_status(404, s("Not Found"), s("{\"error\":\"user not found\"}"));
    match r {
        Err(ClientError::Http { status, reason, body }) => {
            assert_eq!(status, 404);
            assert_eq!(reason, "Not Found");
            assert_eq!(body, "{\"error\":\"user not found\"}");
        }
        _ => panic!("expected an Http error"),
    }
    assert!(matches!(check_status(500, s("Internal Server Error"), s("")), Err(ClientError::Http { status: 500, .. })));
    assert!(matches!(check_status(301, s("Moved Permanently"), s("")), Err(ClientError::Http { status: 301, .. })));
}

#[test]
fn success_statuses_are_accepted() {
    assert!(check_status(200, s("OK"), s("{}")).is_ok());
    assert!(check_status(204, s("No Content"), s("")).is_ok());
    assert!(check_status(299, s(""), s("")).is_ok());
}

#[test]
fn http_error_message_shows_body_when_present() {
    assert_eq!(http_error(404, s("Not Found"), s("missing")).message(), "HTTP 404 Not Found: missing");
    assert_eq!(http_error(500, s("Internal Server Error"), s("")).message(), "HTTP 500 Internal Server Error");
    assert_eq!(ClientError::Url(s("bad")).message(), "invalid URL: bad");
    assert_eq!(ClientError::Request(s("timeout")).message(), "request failed: timeout");
    assert_eq!(ClientError::Deserialize(s("eof")).message(), "failed to deserialize the response: eof");
}

#[test]
fn decimal_digits() {
    assert_eq!(decimal(0), "0");
    assert_eq!(decimal(7), "7");
    assert_eq!(decimal(204), "204");
    assert_eq!(decimal(65535), "65535");
}

#[test]
fn error_enum_variants_in_order() {
    assert_eq!(error_variants(), vec![s("Url"), s("Request"), s("Http"), s("Deserialize")]);
}

#[test]
fn base64_rfc4648_vectors() {
    assert_eq!(base64_encode(b""), "");
    assert_eq!(base64_encode(b"f"), "Zg==");
    assert_eq!(base64_encode(b"fo"), "Zm8=");
    assert_eq!(base64_encode(b"foo"), "Zm9v");
    assert_eq!(base64_encode(b"foob"), "Zm9vYg==");
    assert_eq!(base64_encode(b"fooba"), "Zm9vYmE=");
    assert_eq!(base64_encode(b"foobar"), "Zm9vYmFy");
    assert_eq!(base64_encode(&[0xff, 0xfe, 0xfd]), "//79");
    assert_eq!(base64_encode(&[0xfb, 0xff]), "+/8=");
}

#[test]
fn auth_headers_per_strategy() {
    assert_eq!(auth_header(&None), None);
    assert_eq!(
        auth_header(&Some(ClientAuth::Bearer { token: s("my-token") })),
        Some((s("Authorization"), s("Bearer my-token")))
    );
    assert_eq!(
        auth_header(&Some(ClientAuth::Basic { username: s("user"), password: s("pass") })),
        Some((s("Authorization"), s("Basic dXNlcjpwYXNz")))
    );
    assert_eq!(
        auth_header(&Some(ClientAuth::ApiKey { header: s("X-Api-Key"), key: s("sk_live_123") })),
        Some((s("X-Api-Key"), s("sk_live_123")))
    );
}

#[test]
fn fill_path_encodes_values_into_their_segments() {
    let p = vec![(s("id"), s("1/2"))];
    assert_eq!(fill_path("/users/{id}", &p), Some(s("/users/1%2F2")));
    let p = vec![(s("user_id"), s("1")), (s("post_id"), s("2"))];
    assert_eq!(fill_path("/users/{user_id}/posts/{post_id}", &p), Some(s("/users/1/posts/2")));
    assert_eq!(fill_path("/users/{id}", &vec![(s("id"), s("a?b"))]), Some(s("/users/a%3Fb")));
    assert_eq!(fill_path("/users", &vec![]), Some(s("/users")));
    assert_eq!(fill_path("/users/{id}/", &vec![(s("id"), s("7"))]), Some(s("/users/7/")));
    assert_eq!(fill_path("/users/{id}", &vec![]), None);
    assert_eq!(fill_path("/x/{id}", &vec![(s("id"), s("1")), (s("id"), s("2"))]), Some(s("/x/1")));
}

#[test]
fn prepared_request_carries_auth_and_timeout() {
    let config = ClientConfig::new(s("http://h/"), Some(ClientAuth::Bearer { token: s("tok") }), None);
    assert_eq!(config.timeout_ms, 5000);
    let r = config.prepare(HttpMethod::Get, Some("/flaky-auth"), &[]).unwrap();
    assert_eq!(r.path, "/flaky-auth");
    assert_eq!(r.headers, vec![(s("Authorization"), s("Bearer tok"))]);
    assert_eq!(r.timeout_ms, 5000);
    assert_eq!(r.method, HttpMethod::Get);

    let plain = ClientConfig::new(s("http://h/"), None, Some(30));
    let r = plain.prepare(HttpMethod::Get, None, &[]).unwrap();
    assert_eq!(r.path, "");
    assert!(r.headers.is_empty());
    assert_eq!(r.timeout_ms, 30);
    assert!(matches!(plain.prepare(HttpMethod::Get, Some("/u/{id}"), &[]), Err(ClientError::Url(_))));
}

#[test]
fn retried_request_keeps_its_auth_header() {
    let config = ClientConfig::new(s("http://h/"), Some(ClientAuth::Bearer { token: s("tok") }), Some(5000));
    let r = config.prepare(HttpMethod::Get, Some("/flaky-auth"), &[]).unwrap();
    let mut attempts = Attempts::new(r, 2);
    assert_eq!(attempts.after(AttemptOutcome::HttpError(500)), RetryStep::RetryAfter(100));
    assert_eq!(attempts.retries_done(), 1);
    assert_eq!(attempts.request().headers, vec![(s("Authorization"), s("Bearer tok"))]);
    assert_eq!(attempts.after(AttemptOutcome::Success), RetryStep::Finish);
    assert_eq!(attempts.retries_done(), 1);
}

#[test]
fn attempts_stop_after_the_retry_count() {
    let config = ClientConfig::new(s("http://h/"), None, None);
    let r = config.prepare(HttpMethod::Get, Some("/flaky"), &[]).unwrap();
    let mut attempts = Attempts::new(r, 3);
    let mut sent = 1;
    while let RetryStep::RetryAfter(_) = attempts.after(AttemptOutcome::HttpError(503)) {
        sent += 1;
    }
    assert_eq!(sent, 4);
    let r = config.prepare(HttpMethod::Get, Some("/not-found"), &[]).unwrap();
    let mut attempts = Attempts::new(r, 3);
    assert_eq!(attempts.after(AttemptOutcome::HttpError(404)), RetryStep::Finish);
}
