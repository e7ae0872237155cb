use kartoteka::github::{
    access_token_form, device_code_form, is_configured, repo_creation_failure,
    AccessTokenResponse, DeviceCodeResponse, GithubAuthError, PollAction, PollEvent, TokenPoll,
    CLIENT_ID,
};

fn device(interval: u64) -> DeviceCodeResponse {
    DeviceCodeResponse {
        device_code: "dev".to_string(),
        user_code: "ABCD-1234".to_string(),
        verification_uri: "https://github.com/login/device".to_string(),
        expires_in: 900,
        interval,
    }
}

fn tick() -> PollEvent {
    PollEvent::Tick { cancelled: false, past_deadline: false }
}

fn reply(token: Option<&str>, error: Option<&str>) -> PollEvent {
    PollEvent::Reply(AccessTokenResponse {
        access_token: token.map(|s| s.to_string()),
        error: error.map(|s| s.to_string()),
    })
}

#[test]
fn placeholder_client_id_is_not_configured() {
    assert!(CLIENT_ID.starts_with("REPLACE_WITH"));
    assert!(!is_configured());
}

#[test]
fn poll_waits_the_interval_then_asks() {
    let mut p = TokenPoll::new(&device(2));
    assert_eq!(p.interval_secs, 2);
    assert!(matches!(p.step(tick()), PollAction::Sleep));
    assert!(matches!(p.step(tick()), PollAction::Sleep));
    assert_eq!(p.slept_secs, 2);
    assert!(matches!(p.step(tick()), PollAction::Request));
}

#[test]
fn poll_interval_is_at_least_one_second() {
    let p = TokenPoll::new(&device(0));
    assert_eq!(p.interval_secs, 1);
    assert_eq!(p.slept_secs, 0);
}

#[test]
fn pending_restarts_the_wait_and_slow_down_lengthens_it() {
    let mut p = TokenPoll::new(&device(5));
    p.slept_secs = 5;
    assert!(matches!(p.step(reply(None, Some("authorization_pending"))), PollAction::Continue));
    assert_eq!(p.slept_secs, 0);
    assert_eq!(p.interval_secs, 5);
    p.slept_secs = 5;
    assert!(matches!(p.step(reply(None, Some("slow_down"))), PollAction::Continue));
    assert_eq!(p.interval_secs, 10);
    assert_eq!(p.slept_secs, 0);
}

#[test]
fn slow_down_saturates() {
    let mut p = TokenPoll { interval_secs: u64::MAX - 2, slept_secs: 0 };
    p.step(reply(None, Some("slow_down")));
    assert_eq!(p.interval_secs, u64::MAX);
}

#[test]
fn poll_finishes_on_token_and_errors() {
    let mut p = TokenPoll::new(&device(1));
    match p.step(reply(Some("gho_abc"), Some("ignored"))) {
        PollAction::Finish(Ok(t)) => assert_eq!(t, "gho_abc"),
        _ => panic!("expected the token"),
    }
    assert!(matches!(
        p.step(reply(None, Some("expired_token"))),
        PollAction::Finish(Err(GithubAuthError::ExpiredToken))
    ));
    assert!(matches!(
        p.step(reply(None, Some("access_denied"))),
        PollAction::Finish(Err(GithubAuthError::AccessDenied))
    ));
    match p.step(reply(None, Some("bad_verification_code"))) {
        PollAction::Finish(Err(GithubAuthError::Api(m))) => assert_eq!(m, "bad_verification_code"),
        _ => panic!("expected an API error"),
    }
    match p.step(reply(None, None)) {
        PollAction::Finish(Err(GithubAuthError::Api(m))) => assert_eq!(m, "unknown response"),
        _ => panic!("expected an API error"),
    }
}

#[test]
fn poll_stops_when_cancelled_or_expired() {
    let mut p = TokenPoll::new(&device(3));
    assert!(matches!(
        p.step(PollEvent::Tick { cancelled: true, past_deadline: false }),
        PollAction::Finish(Err(GithubAuthError::Cancelled))
    ));
    p.slept_secs = 3;
    assert!(matches!(
        p.step(PollEvent::Tick { cancelled: false, past_deadline: true }),
        PollAction::Finish(Err(GithubAuthError::ExpiredToken))
    ));
    // Still waiting: the deadline is only looked at once the interval has passed.
    let mut q = TokenPoll::new(&device(3));
    assert!(matches!(
        q.step(PollEvent::Tick { cancelled: false, past_deadline: true }),
        PollAction::Sleep
    ));
}

#[test]
fn error_messages_read_as_before() {
    assert_eq!(GithubAuthError::AccessDenied.message(), "sign-in was cancelled or denied");
    assert_eq!(GithubAuthError::Cancelled.message(), "sign-in was cancelled");
    assert_eq!(
        GithubAuthError::ExpiredToken.message(),
        "the sign-in code expired before it was approved; try again"
    );
    assert_eq!(GithubAuthError::Api("x".to_string()).message(), "GitHub error: x");
}

#[test]
fn network_error_message_carries_the_failure_text() {
    let m = GithubAuthError::Network("error sending request".to_string()).message();
    assert_eq!(m, "network error: error sending request");
}

#[test]
fn request_forms() {
    let f = device_code_form("cid");
    assert_eq!(f, vec![
        ("client_id".to_string(), "cid".to_string()),
        ("scope".to_string(), "repo".to_string()),
    ]);
    let g = access_token_form("cid", "dev");
    assert_eq!(g[1], ("device_code".to_string(), "dev".to_string()));
    assert_eq!(g[2].1, "urn:ietf:params:oauth:grant-type:device_code");
}

#[test]
fn refused_repo_creation_is_an_api_error() {
    match repo_creation_failure("422 Unprocessable Entity", "name already exists") {
        GithubAuthError::Api(m) => assert_eq!(m, "422 Unprocessable Entity: name already exists"),
        _ => panic!("expected an API error"),
    }
}
