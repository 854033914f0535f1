use rust_repos::client::{
    auth_header, batch_cost_acceptable, classify_query_body, classify_response, current_token,
    request_url, retry_step, user_agent, FatalError, QueryDisposition, ResponseClass,
    RetryDecision, RetryState, BACKOFF_CAP, ROTATION_COOLDOWN,
};

#[test]
fn classification_taxonomy() {
    assert_eq!(classify_response(true, 0, false), ResponseClass::Transport);
    assert_eq!(classify_response(false, 429, false), ResponseClass::RateLimited);
    assert_eq!(classify_response(false, 422, false), ResponseClass::RateLimited);
    assert_eq!(classify_response(false, 200, false), ResponseClass::Success);
    assert_eq!(classify_response(false, 200, true), ResponseClass::RateLimited);
    assert_eq!(classify_response(false, 404, false), ResponseClass::HttpStatus(404));
    assert_eq!(classify_response(false, 500, false), ResponseClass::HttpStatus(500));
}

#[test]
fn query_body_dispositions() {
    assert_eq!(classify_query_body(true, true, false, false), QueryDisposition::UseData);
    assert_eq!(classify_query_body(false, true, false, false), QueryDisposition::FailErrors);
    assert_eq!(classify_query_body(false, false, true, true), QueryDisposition::RateLimitedBody);
    assert_eq!(classify_query_body(false, false, true, false), QueryDisposition::FailMessage);
    assert_eq!(classify_query_body(false, false, false, false), QueryDisposition::Empty);
}

#[test]
fn batch_cost_ceiling() {
    assert!(batch_cost_acceptable(0));
    assert!(batch_cost_acceptable(1));
    assert!(!batch_cost_acceptable(2));
}

#[test]
fn transport_failures_back_off_then_fail() {
    let mut s = RetryState::new();
    let mut sleeps = Vec::new();
    let fatal = loop {
        match retry_step(&mut s, ResponseClass::Transport, 1) {
            RetryDecision::SleepRetry { seconds } => sleeps.push(seconds),
            RetryDecision::Fail { error } => break error,
            other => panic!("unexpected decision {other:?}"),
        }
        assert!(sleeps.len() <= (BACKOFF_CAP + 1) as usize, "retry loop did not terminate");
    };
    assert_eq!(fatal, FatalError::BackoffExhausted);
    assert_eq!(sleeps, vec![1, 3, 7, 15, 31, 63, 127]);
    assert_eq!(s.waited, 247);
    assert!(s.waited <= BACKOFF_CAP);
}

#[test]
fn rate_limit_rotates_and_cools_down_on_wrap() {
    let mut s = RetryState::new();
    let d1 = retry_step(&mut s, ResponseClass::RateLimited, 2);
    assert_eq!(d1, RetryDecision::Rotate { credential: 1, cooldown: 0 });
    assert_eq!(s.credential, 1);
    let d2 = retry_step(&mut s, ResponseClass::RateLimited, 2);
    assert_eq!(d2, RetryDecision::Rotate { credential: 0, cooldown: ROTATION_COOLDOWN });
    assert_eq!(s.credential, 0);
    assert_eq!(ROTATION_COOLDOWN, 60);
}

#[test]
fn fatal_classes_surface_errors() {
    let mut s = RetryState::new();
    let d = retry_step(&mut s, ResponseClass::HttpStatus(403), 1);
    assert_eq!(d, RetryDecision::Fail { error: FatalError::HttpStatus(403) });
    let d = retry_step(&mut s, ResponseClass::EmptyData, 1);
    assert_eq!(d, RetryDecision::Fail { error: FatalError::EmptyData });
    let d = retry_step(&mut s, ResponseClass::Success, 1);
    assert_eq!(d, RetryDecision::Proceed);
}

#[test]
fn request_urls_resolve_against_api_root() {
    assert_eq!(request_url("repositories?since=9"), "https://api.github.com/repositories?since=9");
    assert_eq!(request_url("graphql"), "https://api.github.com/graphql");
    assert_eq!(
        request_url("https://raw.githubusercontent.com/o/r/HEAD/Cargo.toml"),
        "https://raw.githubusercontent.com/o/r/HEAD/Cargo.toml"
    );
}

#[test]
fn request_headers() {
    assert_eq!(auth_header("abc123"), "token abc123");
    assert_eq!(user_agent(), "rust-repos (https://github.com/rust-ops/rust-repos)");
}

#[test]
fn current_token_follows_rotation() {
    let tokens = vec!["first".to_string(), "second".to_string()];
    let mut s = RetryState::new();
    assert_eq!(current_token(&tokens, &s), "first");
    retry_step(&mut s, ResponseClass::RateLimited, 2);
    assert_eq!(current_token(&tokens, &s), "second");
}
